use asset_bundler::text::{
    append_chars, chars_of, contains, copy_texts, decimal_of, ends_with, has_text, matches_at,
    remove_all, replace_char, same_chars, starts_with,
};

fn chars(s: &str) -> Vec<char> {
    s.chars().collect()
}

#[test]
fn remove_all_takes_out_every_occurrence() {
    assert_eq!(remove_all(&chars("aXYbXYc"), &chars("XY")), chars("abc"));
    assert_eq!(remove_all(&chars("aaa"), &chars("aa")), chars("a"));
    assert_eq!(remove_all(&chars("abc"), &chars("")), chars("abc"));
}

#[test]
fn decimal_of_writes_digits() {
    assert_eq!(decimal_of(0), chars("0"));
    assert_eq!(decimal_of(767), chars("767"));
    assert_eq!(decimal_of(u64::MAX), chars("18446744073709551615"));
}

#[test]
fn prefix_and_infix() {
    assert!(starts_with(&chars("WU_tex"), &chars("WU_")));
    assert!(!starts_with(&chars("tex_WU_"), &chars("WU_")));
    assert!(contains(&chars("M1_Field_plain"), &chars("_Field_")));
    assert!(!contains(&chars("M1_Fiel"), &chars("_Field_")));
    assert_eq!(chars_of("héllo"), chars("héllo"));
    assert_eq!(replace_char(&chars("a/b/c"), '/', '_'), chars("a_b_c"));
}

#[test]
fn suffix_and_equality() {
    assert!(ends_with(&chars("game.xci"), &chars(".xci")));
    assert!(ends_with(&chars(".xci"), &chars(".xci")));
    assert!(!ends_with(&chars("xci"), &chars(".xci")));
    assert!(ends_with(&chars("abc"), &chars("")));
    assert!(same_chars(&chars("abc"), &chars("abc")));
    assert!(!same_chars(&chars("abc"), &chars("abd")));
    assert!(!same_chars(&chars("abc"), &chars("ab")));
    assert!(matches_at(&chars("abcde"), &chars("cd"), 2));
    assert!(!matches_at(&chars("abcde"), &chars("cd"), 3));
    assert!(!matches_at(&chars("abcde"), &chars("e"), 5));
    assert!(matches_at(&chars("abcde"), &chars(""), 5));
    assert!(!matches_at(&chars("abcde"), &chars(""), 6));
}

#[test]
fn appending_and_lists_of_texts() {
    let mut text = chars("ab");
    append_chars(&mut text, &chars("cd"));
    assert_eq!(text, chars("abcd"));
    let list = vec!["one".to_string(), "two".to_string()];
    assert!(has_text(&list, &"two".to_string()));
    assert!(!has_text(&list, &"tw".to_string()));
    assert_eq!(copy_texts(&list), list);
}
