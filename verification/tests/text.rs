use wasm_pkg_client::text::{
    chars_of, contains_char, cut, cut_once, find_char, same_text, to_decimal, to_hex, trimmed,
    trimmed_end, without_prefix, CharClass,
};

#[test]
fn hexadecimal_notation_is_lower_case() {
    assert_eq!(to_hex(&vec![0x00, 0x0f, 0xa5, 0xff]), "000fa5ff");
    assert_eq!(to_hex(&vec![]), "");
}

#[test]
fn decimal_notation_has_no_leading_zeros() {
    assert_eq!(to_decimal(0), "0");
    assert_eq!(to_decimal(9), "9");
    assert_eq!(to_decimal(10), "10");
    assert_eq!(to_decimal(u64::MAX), "18446744073709551615");
}

#[test]
fn characters_are_counted_not_bytes() {
    let chars = chars_of("aé😀/");
    assert_eq!(chars, vec!['a', 'é', '😀', '/']);
    assert_eq!(find_char(&chars, '/'), 3);
    assert_eq!(find_char(&chars, 'x'), 4);
    assert!(contains_char("aé😀/", '😀'));
    assert!(!contains_char("", 'a'));
}

#[test]
fn texts_are_compared_by_their_characters() {
    assert!(same_text("é", "é"));
    assert!(!same_text("e", "E"));
    assert!(!same_text("", " "));
}

#[test]
fn text_is_cut_at_every_occurrence() {
    assert_eq!(cut("a/b//c", '/'), vec!["a", "b", "", "c"]);
    assert_eq!(cut("", '/'), vec![""]);
    assert_eq!(cut("/", '/'), vec!["", ""]);
}

#[test]
fn text_is_cut_at_the_first_occurrence() {
    assert_eq!(cut_once("k=v=w", '='), Some(("k", "v=w")));
    assert_eq!(cut_once("=", '='), Some(("", "")));
    assert_eq!(cut_once("k", '='), None);
}

#[test]
fn a_prefix_is_removed_where_it_is_there() {
    assert_eq!(without_prefix("Bearer x", "Bearer "), Some("x"));
    assert_eq!(without_prefix("Bearer", "Bearer "), None);
    assert_eq!(without_prefix("é!", "é"), Some("!"));
    assert_eq!(without_prefix("abc", ""), Some("abc"));
}

#[test]
fn trimming_removes_a_class_of_characters() {
    assert_eq!(trimmed("\u{3000} \ta b\r\n\u{a0}", CharClass::White), "a b");
    assert_eq!(trimmed(" \n", CharClass::White), "");
    assert_eq!(trimmed("\"a\"b\"", CharClass::Only('"')), "a\"b");
    assert_eq!(trimmed_end("/ghcr.io//", CharClass::Only('/')), "/ghcr.io");
}
