use five33clip::instant::{days_before, is_before, Instant};
use five33clip::json::{get_bool, get_field, get_str, jclone, jnum, jobject, jstr, member, set_field, Json};
use five33clip::numtext::{decimal_string, json_int_chars, json_uint_chars, parse_u8_chars, signed_decimal_string};
use five33clip::sorted::{insert_sorted, insert_sorted_unique, sort_strings};
use five33clip::text::{
    eq_ignore_ascii_case_str, str_contains, str_eq, str_lt, trim,
};

fn chars(s: &str) -> Vec<char> {
    s.chars().collect()
}

fn strings(v: &[&str]) -> Vec<String> {
    v.iter().map(|s| s.to_string()).collect()
}

#[test]
fn instants_ordered_and_shifted() {
    let a = Instant { secs: 10, nanos: 5 };
    let b = Instant { secs: 10, nanos: 6 };
    assert!(is_before(a, b) && !is_before(b, a) && !is_before(a, a));
    assert_eq!(days_before(Instant { secs: 200_000, nanos: 7 }, 2), Some(Instant { secs: 27_200, nanos: 7 }));
    assert_eq!(days_before(Instant { secs: i64::MIN + 10, nanos: 0 }, 1), None);
}

#[test]
fn decimal_texts() {
    assert_eq!(decimal_string(0), "0");
    assert_eq!(decimal_string(u64::MAX), "18446744073709551615");
    assert_eq!(signed_decimal_string(-42), "-42");
    assert_eq!(signed_decimal_string(i64::MIN), "-9223372036854775808");
}

#[test]
fn number_parsing() {
    assert_eq!(parse_u8_chars(&chars("255")), Some(255));
    assert_eq!(parse_u8_chars(&chars("256")), None);
    assert_eq!(parse_u8_chars(&chars("+7")), Some(7));
    assert_eq!(parse_u8_chars(&chars("")), None);
    assert_eq!(json_uint_chars(&chars("4455")), Some(4455));
    assert_eq!(json_uint_chars(&chars("-1")), None);
    assert_eq!(json_uint_chars(&chars("1.5")), None);
    assert_eq!(json_int_chars(&chars("-4009")), Some(-4009));
    assert_eq!(json_int_chars(&chars("x")), None);
}

#[test]
fn json_fields() {
    let j = jobject(vec![member("a", jstr("x")), member("b", Json::Bool(true)), member("n", jnum("3"))]);
    assert_eq!(get_str(&j, "a").unwrap(), "x");
    assert_eq!(get_bool(&j, "b"), Some(true));
    assert_eq!(get_bool(&j, "a"), None);
    assert!(get_field(&j, "zz").is_none());
    let j2 = set_field(jclone(&j), "a", jstr("y"));
    assert_eq!(get_str(&j2, "a").unwrap(), "y");
    let j3 = set_field(j2, "c", Json::Null);
    assert!(matches!(get_field(&j3, "c"), Some(Json::Null)));
    assert_eq!(get_str(&j, "a").unwrap(), "x");
}

#[test]
fn text_helpers() {
    assert_eq!(trim("  a b \t\n"), "a b");
    assert!(eq_ignore_ascii_case_str("GaMe", "game"));
    assert!(!eq_ignore_ascii_case_str("Ä", "ä"));
    assert!(str_contains("hello world", "o w"));
    assert!(!str_contains("hello", "hello!"));
    assert!(str_eq("a", "a") && !str_eq("a", "b"));
    assert!(str_lt("abc", "abd") && str_lt("ab", "abc") && !str_lt("b", "abc"));
}

#[test]
fn sorted_string_lists() {
    let mut v = strings(&["a", "c"]);
    insert_sorted_unique(&mut v, "b".to_string());
    insert_sorted_unique(&mut v, "c".to_string());
    assert_eq!(v, strings(&["a", "b", "c"]));
    insert_sorted(&mut v, "b".to_string());
    assert_eq!(v, strings(&["a", "b", "b", "c"]));
    assert_eq!(sort_strings(strings(&["pear", "apple", "Zed", "apple"])), strings(&["Zed", "apple", "apple", "pear"]));
}
