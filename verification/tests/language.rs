use oxeylyzer_core::utility::chars_for_generation;
use oxeylyzer_core::utility::symbols_for_generation;

fn cfg() -> Vec<(String, String)> {
    vec![
        ("english".to_string(), "abcdefghijklmnopqrstuvwxyz',.;".to_string()),
        ("default".to_string(), "abcdefghijklmnopqrstuvwxyz.,';".to_string()),
        ("german".to_string(), "abcdefghijklmnopqrstuvwxyzäöüß".to_string()),
        ("short".to_string(), "abc".to_string()),
    ]
}

#[test]
fn a_language_has_its_own_symbols() {
    let expected: Vec<char> = "abcdefghijklmnopqrstuvwxyzäöüß".chars().collect();
    assert_eq!(chars_for_generation("german", &cfg()).to_vec(), expected);
    let expected: Vec<char> = "abcdefghijklmnopqrstuvwxyz',.;".chars().collect();
    assert_eq!(chars_for_generation("english", &cfg()).to_vec(), expected);
}

#[test]
fn an_unknown_language_gets_the_default_symbols() {
    let expected: Vec<char> = "abcdefghijklmnopqrstuvwxyz.,';".chars().collect();
    assert_eq!(chars_for_generation("klingon", &cfg()).to_vec(), expected);
    assert_eq!(chars_for_generation("default", &cfg()).to_vec(), expected);
    assert_eq!(symbols_for_generation("klingon", &cfg()).map(|s| s.to_vec()), Some(expected));
}

#[test]
fn symbols_are_missing_without_an_entry_of_30() {
    assert_eq!(symbols_for_generation("short", &cfg()), None);
    assert_eq!(symbols_for_generation("klingon", &cfg()[..1]), None);
    assert_eq!(symbols_for_generation("english", &[]), None);
    let long = vec![("default".to_string(), "abcdefghijklmnopqrstuvwxyz',.;!".to_string())];
    assert_eq!(symbols_for_generation("english", &long), None);
}
