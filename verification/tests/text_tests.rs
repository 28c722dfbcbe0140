use orchid::text::chars_to_string;
use orchid::text::i64_to_chars;
use orchid::text::replace_chars;
use orchid::text::split_words;
use orchid::text::str_eq;
use orchid::text::str_to_chars;
use orchid::text::u64_to_chars;

fn chars(s: &str) -> Vec<char> {
    str_to_chars(s)
}

fn string_of(v: &Vec<char>) -> String {
    chars_to_string(v)
}

#[test]
fn string_round_trip() {
    let v = chars("héllo wörld");
    assert_eq!(string_of(&v), "héllo wörld");
}

#[test]
fn str_eq_decides_equality() {
    assert!(str_eq("abc", "abc"));
    assert!(!str_eq("abc", "abd"));
    assert!(!str_eq("abc", "ab"));
    assert!(str_eq("", ""));
}

#[test]
fn split_words_on_whitespace() {
    let words = split_words(&chars("  hello\tKappa \n world "));
    let words: Vec<String> = words.iter().map(|w| string_of(w)).collect();
    assert_eq!(words, vec!["hello", "Kappa", "world"]);
}

#[test]
fn split_words_empty_input() {
    assert_eq!(split_words(&chars("")).len(), 0);
    assert_eq!(split_words(&chars("   ")).len(), 0);
}

#[test]
fn replace_all_occurrences_left_to_right() {
    let r = replace_chars(&chars("aaa"), &chars("aa"), &chars("b"));
    assert_eq!(string_of(&r), "ba");
    let r = replace_chars(&chars("x y x"), &chars("x"), &chars("zz"));
    assert_eq!(string_of(&r), "zz y zz");
}

#[test]
fn replace_inside_longer_words_too() {
    let r = replace_chars(&chars("scar car"), &chars("car"), &chars("bus"));
    assert_eq!(string_of(&r), "sbus bus");
}

#[test]
fn decimal_rendering() {
    assert_eq!(string_of(&u64_to_chars(0)), "0");
    assert_eq!(string_of(&u64_to_chars(907)), "907");
    assert_eq!(string_of(&u64_to_chars(u64::MAX)), "18446744073709551615");
    assert_eq!(string_of(&i64_to_chars(-45)), "-45");
    assert_eq!(string_of(&i64_to_chars(i64::MIN)), "-9223372036854775808");
    assert_eq!(string_of(&i64_to_chars(7)), "7");
}
