use keycounter::{esc, hex_color, wide};

#[test]
fn wide_ascii() {
    assert_eq!(wide("ab"), vec![0x61, 0x62, 0]);
    assert_eq!(wide(""), vec![0]);
}

#[test]
fn wide_matches_std() {
    for s in ["\\\\.\\pipe\\keycounter", "半角/全角", "x😀y", "\u{ffff}\u{10000}\u{10ffff}"] {
        let expected: Vec<u16> = s.encode_utf16().chain(std::iter::once(0)).collect();
        assert_eq!(wide(s), expected);
    }
}

#[test]
fn wide_surrogate_pair() {
    assert_eq!(wide("😀"), vec![0xD83D, 0xDE00, 0]);
}

#[test]
fn esc_entities() {
    assert_eq!(esc("a<b>&\"c\""), "a&lt;b&gt;&amp;&quot;c&quot;");
    assert_eq!(esc("\\_"), "\\_");
    assert_eq!(esc("&amp;"), "&amp;amp;");
    assert_eq!(esc("変換"), "変換");
    assert_eq!(esc(""), "");
}

#[test]
fn esc_has_no_markup() {
    let out = esc("<svg attr=\"x\">&</svg>");
    assert!(!out.contains('<') && !out.contains('>') && !out.contains('"'));
}

#[test]
fn hex_colors() {
    assert_eq!(hex_color(255, 245, 245), "#fff5f5");
    assert_eq!(hex_color(0xe7, 0xe7, 0xe7), "#e7e7e7");
    assert_eq!(hex_color(0, 10, 171), "#000aab");
}

fn unescape(s: &str) -> String {
    let mut out = String::new();
    let mut rest = s;
    while let Some(c) = rest.chars().next() {
        let (ch, len) = if rest.starts_with("&amp;") {
            ('&', 5)
        } else if rest.starts_with("&lt;") {
            ('<', 4)
        } else if rest.starts_with("&gt;") {
            ('>', 4)
        } else if rest.starts_with("&quot;") {
            ('"', 6)
        } else {
            (c, c.len_utf8())
        };
        out.push(ch);
        rest = &rest[len..];
    }
    out
}

#[test]
fn unescape_undoes_esc() {
    for s in ["a<b>&\"c\"", "&amp;", "&lt;&gt;", "半角/全角", "", "&&&"] {
        assert_eq!(unescape(&esc(s)), s);
    }
}
