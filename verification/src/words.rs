//! Little-endian 32-bit words, the unit of every format of the crate.
use vstd::prelude::*;
use vstd::bytes::*;

verus! {

/// The bytes of a sequence of words, each written little-endian, in order.
pub open spec fn le_words(words: Seq<u32>) -> Seq<u8>
    decreases words.len(),
{
    if words.len() == 0 {
        Seq::empty()
    } else {
        le_words(words.drop_last()) + spec_u32_to_le_bytes(words.last())
    }
}

/// The word stored little-endian at `bytes[start..start + 4]`.
pub open spec fn word_at(bytes: Seq<u8>, start: int) -> u32 {
    spec_u32_from_le_bytes(bytes.subrange(start, start + 4))
}

/// The `n` consecutive words stored from `bytes[start]` on.
pub open spec fn words_from(bytes: Seq<u8>, start: int, n: nat) -> Seq<u32> {
    Seq::new(n, |i: int| word_at(bytes, start + 4 * i))
}

/// `le_words` takes four bytes per word, and word `i` sits at `4 * i`.
pub proof fn lemma_le_words(words: Seq<u32>)
    ensures
        le_words(words).len() == 4 * words.len(),
        forall|i: int|
            0 <= i < words.len() ==> #[trigger] le_words(words).subrange(4 * i, 4 * i + 4)
                == spec_u32_to_le_bytes(words[i]),
    decreases words.len(),
{
    lemma_auto_spec_u32_to_from_le_bytes();
    if words.len() > 0 {
        let init = words.drop_last();
        lemma_le_words(init);
        let bytes = le_words(words);
        assert(bytes == le_words(init) + spec_u32_to_le_bytes(words.last()));
        assert forall|i: int| 0 <= i < words.len() implies #[trigger] bytes.subrange(
            4 * i,
            4 * i + 4,
        ) == spec_u32_to_le_bytes(words[i]) by {
            if i < words.len() - 1 {
                assert(bytes.subrange(4 * i, 4 * i + 4) =~= le_words(init).subrange(
                    4 * i,
                    4 * i + 4,
                ));
            } else {
                assert(bytes.subrange(4 * i, 4 * i + 4) =~= spec_u32_to_le_bytes(words.last()));
            }
        }
    }
}

/// Reading back the words that `le_words` wrote, at any offset.
pub proof fn lemma_words_roundtrip(prefix: Seq<u8>, words: Seq<u32>, suffix: Seq<u8>)
    ensures
        words_from(prefix + le_words(words) + suffix, prefix.len() as int, words.len()) == words,
{
    lemma_auto_spec_u32_to_from_le_bytes();
    lemma_le_words(words);
    let all = prefix + le_words(words) + suffix;
    let p = prefix.len() as int;
    assert forall|i: int| 0 <= i < words.len() implies #[trigger] words_from(
        all,
        p,
        words.len(),
    )[i] == words[i] by {
        assert(all.subrange(p + 4 * i, p + 4 * i + 4) =~= le_words(words).subrange(
            4 * i,
            4 * i + 4,
        ));
    }
    assert(words_from(all, p, words.len()) =~= words);
}

/// Writing back the words read from `bytes[start..start + 4 * n]` gives
/// those bytes again.
pub proof fn lemma_words_from_rewrite(bytes: Seq<u8>, start: int, n: nat)
    requires
        0 <= start,
        start + 4 * n <= bytes.len(),
    ensures
        le_words(words_from(bytes, start, n)) == bytes.subrange(start, start + 4 * n),
{
    lemma_auto_spec_u32_to_from_le_bytes();
    let words = words_from(bytes, start, n);
    lemma_le_words(words);
    let out = le_words(words);
    assert forall|j: int| 0 <= j < 4 * n implies #[trigger] out[j] == bytes[start + j] by {
        let i = j / 4;
        assert(0 <= i < n);
        assert(4 * i <= j < 4 * i + 4);
        let chunk = bytes.subrange(start + 4 * i, start + 4 * i + 4);
        assert(out.subrange(4 * i, 4 * i + 4) == spec_u32_to_le_bytes(words[i]));
        assert(words[i] == spec_u32_from_le_bytes(chunk));
        assert(spec_u32_to_le_bytes(spec_u32_from_le_bytes(chunk)) == chunk);
        assert(out.subrange(4 * i, 4 * i + 4)[j - 4 * i] == out[j]);
        assert(chunk[j - 4 * i] == bytes[start + j]);
    }
    assert(out =~= bytes.subrange(start, start + 4 * n));
}

} // verus!
