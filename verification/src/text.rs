//! Text helpers: the NUL-terminated UTF-16 names that Windows calls take,
//! and the escaping and colours of the SVG heat map.
use vstd::prelude::*;

verus! {

/// The UTF-16 code units of one character.
pub open spec fn utf16_units(c: char) -> Seq<u16> {
    let v = c as u32;
    if v < 0x10000 {
        seq![v as u16]
    } else {
        let w = v - 0x10000;
        seq![(0xD800 + w / 0x400) as u16, (0xDC00 + w % 0x400) as u16]
    }
}

/// The UTF-16 encoding of a character sequence.
pub open spec fn utf16_encode(s: Seq<char>) -> Seq<u16>
    decreases s.len(),
{
    if s.len() == 0 {
        Seq::empty()
    } else {
        utf16_encode(s.drop_last()) + utf16_units(s.last())
    }
}

/// Appends the UTF-16 code units of `c` to `out`.
fn push_utf16(out: &mut Vec<u16>, c: char)
    ensures
        final(out)@ == old(out)@ + utf16_units(c),
{
    let v = c as u32;
    if v < 0x10000 {
        out.push(v as u16);
    } else {
        let w = v - 0x10000;
        out.push((0xD800 + w / 0x400) as u16);
        out.push((0xDC00 + w % 0x400) as u16);
    }
    assert(out@ =~= old(out)@ + utf16_units(c));
}

/// `s` as NUL-terminated UTF-16, the form of the names that Windows calls
/// take.
pub fn wide(s: &str) -> (out: Vec<u16>)
    ensures
        out@ == utf16_encode(s@).push(0u16),
{
    let mut out: Vec<u16> = Vec::new();
    let ghost chars = s@;
    for c in it: s.chars()
        invariant
            it.seq() == chars,
            out@ == utf16_encode(chars.take(it.index() as int)),
    {
        push_utf16(&mut out, c);
        assert(chars.take(it.index() + 1).drop_last() =~= chars.take(it.index() as int));
    }
    assert(chars.take(chars.len() as int) =~= chars);
    out.push(0u16);
    out
}

/// What one character becomes in SVG text: `&`, `<`, `>` and `"` are
/// written as entities, every other character stands as it is.
pub open spec fn escaped_char(c: char) -> Seq<char> {
    if c == '&' {
        seq!['&', 'a', 'm', 'p', ';']
    } else if c == '<' {
        seq!['&', 'l', 't', ';']
    } else if c == '>' {
        seq!['&', 'g', 't', ';']
    } else if c == '"' {
        seq!['&', 'q', 'u', 'o', 't', ';']
    } else {
        seq![c]
    }
}

/// A character sequence escaped for SVG text, character by character.
pub open spec fn escaped(s: Seq<char>) -> Seq<char>
    decreases s.len(),
{
    if s.len() == 0 {
        Seq::empty()
    } else {
        escaped(s.drop_last()) + escaped_char(s.last())
    }
}

/// Appends `c` to `out` (`String::push`).
#[verifier::external_body]
fn push_char(out: &mut String, c: char)
    ensures
        final(out)@ == old(out)@.push(c),
{
    out.push(c);
}

/// Appends every character of `cs` to `out`.
fn push_chars(out: &mut String, cs: &[char])
    ensures
        final(out)@ == old(out)@ + cs@,
{
    let ghost start = out@;
    for i in 0..cs.len()
        invariant
            out@ == start + cs@.take(i as int),
    {
        push_char(out, cs[i]);
        assert(cs@.take(i + 1) =~= cs@.take(i as int).push(cs@[i as int]));
    }
    assert(cs@.take(cs@.len() as int) =~= cs@);
}

/// `s` escaped for SVG text: `&`, `<`, `>` and `"` become `&amp;`, `&lt;`,
/// `&gt;` and `&quot;`.
pub fn esc(s: &str) -> (out: String)
    ensures
        out@ == escaped(s@),
{
    let mut out = String::new();
    let ghost chars = s@;
    for c in it: s.chars()
        invariant
            it.seq() == chars,
            out@ == escaped(chars.take(it.index() as int)),
    {
        if c == '&' {
            push_chars(&mut out, &['&', 'a', 'm', 'p', ';']);
        } else if c == '<' {
            push_chars(&mut out, &['&', 'l', 't', ';']);
        } else if c == '>' {
            push_chars(&mut out, &['&', 'g', 't', ';']);
        } else if c == '"' {
            push_chars(&mut out, &['&', 'q', 'u', 'o', 't', ';']);
        } else {
            push_char(&mut out, c);
        }
        assert(chars.take(it.index() + 1).drop_last() =~= chars.take(it.index() as int));
        assert(out@ =~= escaped(chars.take(it.index() + 1)));
    }
    assert(chars.take(chars.len() as int) =~= chars);
    out
}

/// Lower-case hexadecimal digits.
pub const HEX_DIGITS: [char; 16] = [
    '0', '1', '2', '3', '4', '5', '6', '7', '8', '9', 'a', 'b', 'c', 'd', 'e', 'f',
];

/// A byte as two lower-case hexadecimal digits.
pub open spec fn hex_byte(b: u8) -> Seq<char> {
    seq![HEX_DIGITS@[(b / 16) as int], HEX_DIGITS@[(b % 16) as int]]
}

/// The colour `#rrggbb` in lower-case hexadecimal.
pub open spec fn hex_color_chars(r: u8, g: u8, b: u8) -> Seq<char> {
    seq!['#'] + hex_byte(r) + hex_byte(g) + hex_byte(b)
}

/// Appends the two hexadecimal digits of `b` to `out`.
fn push_hex_byte(out: &mut String, b: u8)
    ensures
        final(out)@ == old(out)@ + hex_byte(b),
{
    push_char(out, HEX_DIGITS[(b / 16) as usize]);
    push_char(out, HEX_DIGITS[(b % 16) as usize]);
    assert(out@ =~= old(out)@ + hex_byte(b));
}

/// The fill colour `#rrggbb` of a key, in lower-case hexadecimal.
pub fn hex_color(r: u8, g: u8, b: u8) -> (out: String)
    ensures
        out@ == hex_color_chars(r, g, b),
{
    let mut out = String::new();
    push_char(&mut out, '#');
    push_hex_byte(&mut out, r);
    push_hex_byte(&mut out, g);
    push_hex_byte(&mut out, b);
    assert(out@ =~= hex_color_chars(r, g, b));
    out
}

/// Escaped text holds no `<`, `>` or `"`, so it cannot open or close markup
/// or end an attribute value.
pub proof fn law_escaped_has_no_markup(s: Seq<char>)
    ensures
        forall|i: int|
            0 <= i < escaped(s).len() ==> #[trigger] escaped(s)[i] != '<' && escaped(s)[i] != '>'
                && escaped(s)[i] != '"',
    decreases s.len(),
{
    if s.len() > 0 {
        law_escaped_has_no_markup(s.drop_last());
        let prev = escaped(s.drop_last());
        let last = escaped_char(s.last());
        assert forall|i: int| 0 <= i < escaped(s).len() implies #[trigger] escaped(s)[i] != '<'
            && escaped(s)[i] != '>' && escaped(s)[i] != '"' by {
            if i >= prev.len() {
                assert(escaped(s)[i] == last[i - prev.len()]);
            } else {
                assert(escaped(s)[i] == prev[i]);
            }
        }
    }
}

/// Text with the entities `&amp;`, `&lt;`, `&gt;` and `&quot;` read back
/// as the characters they stand for, from left to right.
pub open spec fn unescaped(s: Seq<char>) -> Seq<char>
    decreases s.len(),
{
    if s.len() == 0 {
        Seq::empty()
    } else if s.len() >= 5 && s.take(5) == seq!['&', 'a', 'm', 'p', ';'] {
        seq!['&'] + unescaped(s.skip(5))
    } else if s.len() >= 4 && s.take(4) == seq!['&', 'l', 't', ';'] {
        seq!['<'] + unescaped(s.skip(4))
    } else if s.len() >= 4 && s.take(4) == seq!['&', 'g', 't', ';'] {
        seq!['>'] + unescaped(s.skip(4))
    } else if s.len() >= 6 && s.take(6) == seq!['&', 'q', 'u', 'o', 't', ';'] {
        seq!['"'] + unescaped(s.skip(6))
    } else {
        seq![s[0]] + unescaped(s.skip(1))
    }
}

/// Escaping works character by character from the front too.
proof fn lemma_escaped_front(s: Seq<char>)
    requires
        s.len() > 0,
    ensures
        escaped(s) == escaped_char(s[0]) + escaped(s.drop_first()),
    decreases s.len(),
{
    if s.len() == 1 {
        assert(s.drop_last() =~= Seq::<char>::empty());
        assert(s.drop_first() =~= Seq::<char>::empty());
        assert(escaped(s) =~= escaped_char(s[0]) + escaped(s.drop_first()));
    } else {
        lemma_escaped_front(s.drop_last());
        assert(s.drop_last().drop_first() =~= s.drop_first().drop_last());
        assert(s.drop_first().last() == s.last());
        assert(escaped(s) =~= escaped_char(s[0]) + escaped(s.drop_first()));
    }
}

/// Reading back the escape of one character in front of any text gives
/// the character in front of what the text reads back as.
proof fn lemma_unescape_char(c: char, rest: Seq<char>)
    ensures
        unescaped(escaped_char(c) + rest) == seq![c] + unescaped(rest),
{
    let e = escaped_char(c);
    let t = e + rest;
    let amp = seq!['&', 'a', 'm', 'p', ';'];
    let lt = seq!['&', 'l', 't', ';'];
    let gt = seq!['&', 'g', 't', ';'];
    let quot = seq!['&', 'q', 'u', 'o', 't', ';'];
    assert(t.skip(e.len() as int) =~= rest);
    assert(t.take(e.len() as int) =~= e);
    if c == '&' {
        assert(t.take(5) =~= amp);
    } else if c == '<' {
        if t.len() >= 5 {
            assert(t.take(5)[1] == 'l');
            assert(t.take(5) != amp);
        }
        assert(t.take(4) =~= lt);
    } else if c == '>' {
        if t.len() >= 5 {
            assert(t.take(5)[1] == 'g');
            assert(t.take(5) != amp);
        }
        assert(t.take(4)[1] == 'g');
        assert(t.take(4) != lt);
        assert(t.take(4) =~= gt);
    } else if c == '"' {
        assert(t.take(5)[1] == 'q');
        assert(t.take(5) != amp);
        assert(t.take(4)[1] == 'q');
        assert(t.take(4) != lt);
        assert(t.take(4) != gt);
        assert(t.take(6) =~= quot);
    } else {
        assert(t[0] == c);
        if t.len() >= 5 {
            assert(t.take(5)[0] == c);
            assert(t.take(5) != amp);
        }
        if t.len() >= 4 {
            assert(t.take(4)[0] == c);
            assert(t.take(4) != lt);
            assert(t.take(4) != gt);
        }
        if t.len() >= 6 {
            assert(t.take(6)[0] == c);
            assert(t.take(6) != quot);
        }
        assert(t.skip(1) =~= rest);
    }
}

/// Escaping loses nothing: reading the entities back gives the original
/// text.
pub proof fn law_unescape_undoes_escape(s: Seq<char>)
    ensures
        unescaped(escaped(s)) == s,
    decreases s.len(),
{
    if s.len() == 0 {
        assert(escaped(s) =~= Seq::<char>::empty());
    } else {
        lemma_escaped_front(s);
        law_unescape_undoes_escape(s.drop_first());
        lemma_unescape_char(s[0], escaped(s.drop_first()));
        assert(seq![s[0]] + s.drop_first() =~= s);
    }
}

/// Each character's UTF-16 units decode back to it: a character below
/// 0x10000 is one unit equal to its code point, and is no surrogate; any
/// other is a high surrogate then a low surrogate that together carry its
/// code point.
pub proof fn law_utf16_decodes(c: char)
    ensures
        (c as u32) < 0x10000 ==> utf16_units(c).len() == 1 && utf16_units(c)[0] == c as u32
            && !(0xD800 <= utf16_units(c)[0] < 0xE000),
        (c as u32) >= 0x10000 ==> utf16_units(c).len() == 2 && 0xD800 <= utf16_units(c)[0]
            < 0xDC00 && 0xDC00 <= utf16_units(c)[1] < 0xE000 && 0x10000 + (utf16_units(c)[0]
            - 0xD800) * 0x400 + (utf16_units(c)[1] - 0xDC00) == c as u32,
{
    let v = c as u32;
    assert(v <= 0x10FFFF);
    assert(v < 0xD800 || v >= 0xE000);
    if v >= 0x10000 {
        let w = v - 0x10000;
        assert(w / 0x400 < 0x400);
        assert(0x400 * (w / 0x400) + w % 0x400 == w);
    }
}

/// The UTF-16 of two texts one after the other is the UTF-16 of the first
/// followed by that of the second.
pub proof fn law_utf16_concat(a: Seq<char>, b: Seq<char>)
    ensures
        utf16_encode(a + b) == utf16_encode(a) + utf16_encode(b),
    decreases b.len(),
{
    if b.len() == 0 {
        assert(a + b =~= a);
        assert(utf16_encode(a) + utf16_encode(b) =~= utf16_encode(a));
    } else {
        law_utf16_concat(a, b.drop_last());
        assert((a + b).drop_last() =~= a + b.drop_last());
        assert((a + b).last() == b.last());
        assert(utf16_encode(a + b) =~= utf16_encode(a) + utf16_encode(b));
    }
}

/// The digits of a byte read back as the byte: each is `0`-`9` or `a`-`f`,
/// worth its position among those sixteen, high digit first.
pub proof fn law_hex_byte_reads_back(b: u8)
    ensures
        hex_byte(b).len() == 2,
        forall|j: int|
            0 <= j < 2 ==> (48 <= #[trigger] (hex_byte(b)[j] as u32) <= 57 || 97 <= hex_byte(b)[j]
                as u32 <= 102),
        digit_value(hex_byte(b)[0]) * 16 + digit_value(hex_byte(b)[1]) == b,
{
    let hi = (b / 16) as int;
    let lo = (b % 16) as int;
    lemma_hex_digit(hi);
    lemma_hex_digit(lo);
}

/// The value of a lower-case hexadecimal digit.
pub open spec fn digit_value(d: char) -> int {
    if (d as u32) <= 57 {
        d as u32 - 48
    } else {
        d as u32 - 87
    }
}

/// The digit at position `n` is the character for `n`.
proof fn lemma_hex_digit(n: int)
    requires
        0 <= n < 16,
    ensures
        n < 10 ==> HEX_DIGITS@[n] as u32 == 48 + n,
        n >= 10 ==> HEX_DIGITS@[n] as u32 == 87 + n,
{
    assert(HEX_DIGITS@[0] == '0');
    assert(HEX_DIGITS@[1] == '1');
    assert(HEX_DIGITS@[2] == '2');
    assert(HEX_DIGITS@[3] == '3');
    assert(HEX_DIGITS@[4] == '4');
    assert(HEX_DIGITS@[5] == '5');
    assert(HEX_DIGITS@[6] == '6');
    assert(HEX_DIGITS@[7] == '7');
    assert(HEX_DIGITS@[8] == '8');
    assert(HEX_DIGITS@[9] == '9');
    assert(HEX_DIGITS@[10] == 'a');
    assert(HEX_DIGITS@[11] == 'b');
    assert(HEX_DIGITS@[12] == 'c');
    assert(HEX_DIGITS@[13] == 'd');
    assert(HEX_DIGITS@[14] == 'e');
    assert(HEX_DIGITS@[15] == 'f');
}

} // verus!
