use ns_emu_cheats_downloader::text::{chars_of, is_whitespace, lines_of, str_contains, str_eq, trim_str};

#[test]
fn whitespace_agrees_with_std() {
    for u in 0u32..0x11_0000 {
        if let Some(c) = char::from_u32(u) {
            assert_eq!(is_whitespace(c), c.is_whitespace(), "{:#x}", u);
        }
    }
}

#[test]
fn trim_agrees_with_std() {
    for s in ["", "  ", " a ", "\u{3000}x\u{a0}", "\t\r\nab c\n", "x"] {
        assert_eq!(trim_str(s), s.trim());
    }
}

#[test]
fn lines_agree_with_std() {
    for s in ["", "a", "a\n", "a\r\nb", "\n", "\n\n", "a\rb\r", "x\r\n\r\ny"] {
        let v = chars_of(s);
        let got: Vec<String> = lines_of(&v).iter().map(|l| l.iter().collect()).collect();
        let want: Vec<String> = s.lines().map(String::from).collect();
        assert_eq!(got, want, "{:?}", s);
    }
}

#[test]
fn contains_and_eq() {
    assert!(str_contains("Zelda: Breath", "Breath"));
    assert!(str_contains("abc", ""));
    assert!(!str_contains("abc", "abcd"));
    assert!(!str_contains("abc", "ac"));
    assert!(str_eq("attribution", "attribution"));
    assert!(!str_eq("a", "b"));
}
