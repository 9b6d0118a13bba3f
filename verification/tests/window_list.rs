use fullframe::window_list::is_blank;

#[test]
fn blank_titles_are_white_space_only() {
    assert!(is_blank(""));
    assert!(is_blank(" \t\n\u{3000}\u{a0}"));
    assert!(!is_blank("  Terminal "));
    assert!(!is_blank("\u{200b}"));
    for t in ["", " ", "a", " x ", "\u{2003}", "\u{85}\u{2029}", "\u{180e}"] {
        assert_eq!(is_blank(t), t.trim().is_empty(), "{t:?}");
    }
}
