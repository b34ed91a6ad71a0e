use ns_emu_cheats_downloader::utils::{decode_html_entities, strip_html};

#[test]
fn test_strip_html() {
    assert_eq!(strip_html("<p>Hello</p>"), "Hello");
    assert_eq!(strip_html("Hello &amp; World"), "Hello & World");
    assert_eq!(strip_html("<b>Test &lt;tag&gt;</b>"), "Test <tag>");
    assert_eq!(strip_html("&quot;quoted&quot;"), "\"quoted\"");
    assert_eq!(strip_html("&#39;apostrophe&#39;"), "'apostrophe'");
    assert_eq!(strip_html("Caf&#233;"), "Caf\u{e9}");
    assert_eq!(strip_html("space&nbsp;here"), "space here");
}

#[test]
fn test_decode_html_entities() {
    assert_eq!(decode_html_entities("&amp;"), "&");
    assert_eq!(decode_html_entities("&lt;&gt;"), "<>");
    assert_eq!(decode_html_entities("&unknown;"), "&unknown;");
    assert_eq!(decode_html_entities("plain text"), "plain text");
}

#[test]
fn strip_html_trims_and_drops_unclosed_tag() {
    assert_eq!(strip_html("  <i>a</i> b <unclosed"), "a b");
    assert_eq!(strip_html("a > b"), "a  b");
    assert_eq!(strip_html(""), "");
}

#[test]
fn decode_keeps_trailing_and_repeated_ampersands() {
    assert_eq!(decode_html_entities("&&amp;"), "&&");
    assert_eq!(decode_html_entities("&"), "&");
    assert_eq!(decode_html_entities("&amp"), "&amp");
    assert_eq!(decode_html_entities("&amp;lt;"), "&lt;");
}
