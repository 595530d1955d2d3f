use oxeylyzer_core::utility::format_layout_str;
use oxeylyzer_core::utility::is_kb_extension;
use oxeylyzer_core::utility::join_keys;

#[test]
fn layout_text_loses_its_whitespace() {
    let text = "q w e r t  y u i o p\na s d f g  h j k l ;\nz x c v b  n m , . /";
    assert_eq!(format_layout_str(text), "qwertyuiopasdfghjkl;zxcvbnm,./");
}

#[test]
fn only_three_lines_and_ten_words_are_read() {
    let text = "1 2 3 4 5 6 7 8 9 10 11 12\n\na b\nignored line\n";
    assert_eq!(format_layout_str(text), "12345678910ab");
    assert_eq!(format_layout_str(""), "");
    assert_eq!(format_layout_str("\n\n\nx"), "");
    assert_eq!(format_layout_str("ab cd"), "abcd");
    assert_eq!(format_layout_str("a\r\nb\tc\n d "), "abcd");
}

#[test]
fn keys_are_joined_row_by_row() {
    assert_eq!(join_keys(&[vec!["q", "w"], vec!["a"], vec!["z", "x", "c"]]), "qwazxc");
    assert_eq!(join_keys(&[vec!["q"], vec![], vec!["z"], vec!["no"]]), "qz");
    assert_eq!(join_keys(&[vec!["ab", "cd"]]), "abcd");
    assert_eq!(join_keys(&[]), "");
    let long = vec!["1", "2", "3", "4", "5", "6", "7", "8", "9", "10", "11"];
    assert_eq!(join_keys(&[long.clone(), long]), "1234567891012345678910");
}

#[test]
fn layout_files_end_in_kb() {
    assert!(is_kb_extension("kb"));
    assert!(!is_kb_extension("KB"));
    assert!(!is_kb_extension("k"));
    assert!(!is_kb_extension("kbd"));
    assert!(!is_kb_extension(""));
    assert!(!is_kb_extension("txt"));
}

fn is_white_space(code: u32) -> bool {
    matches!(
        code,
        0x09..=0x0D
            | 0x20
            | 0x85
            | 0xA0
            | 0x1680
            | 0x2000..=0x200A
            | 0x2028
            | 0x2029
            | 0x202F
            | 0x205F
            | 0x3000
    )
}

#[test]
fn words_end_at_white_space_and_nowhere_else() {
    let far = [0x1_0000, 0x1_F600, 0xE_0020, 0x10_FFFF];
    for code in (0..=0xFFFF).chain(far) {
        let Some(c) = char::from_u32(code) else {
            continue;
        };
        let text = format!("k{}l m", c);
        let expected = if is_white_space(code) { "klm".to_string() } else { format!("k{}lm", c) };
        assert_eq!(format_layout_str(&text), expected);
    }
}

#[test]
fn ten_words_are_counted_between_white_space() {
    let text = "1\u{3000}2\u{a0}3\t4\u{2003}5 6\u{85}7\u{1680}8\u{2028}9\u{205f}10\u{202f}11";
    assert_eq!(format_layout_str(text), "12345678910");
    let text = "1\u{200b}2 3\u{feff}4";
    assert_eq!(format_layout_str(text), "1\u{200b}23\u{feff}4");
}
