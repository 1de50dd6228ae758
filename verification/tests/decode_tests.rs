use halcyon::decode::is_true_flag;
use halcyon::decode::try_parse_i64;
use halcyon::decode::unwrap_integer;
use halcyon::decode::unwrap_string_array;

#[test]
fn integer_empty_is_zero() {
    assert_eq!(unwrap_integer(&String::new()), 0);
}

#[test]
fn integer_plain_values() {
    assert_eq!(unwrap_integer(&"42".to_string()), 42);
    assert_eq!(unwrap_integer(&"-7".to_string()), -7);
    assert_eq!(unwrap_integer(&"+5".to_string()), 5);
    assert_eq!(unwrap_integer(&"0".to_string()), 0);
    assert_eq!(unwrap_integer(&"007".to_string()), 7);
}

#[test]
fn integer_garbage_is_zero() {
    assert_eq!(unwrap_integer(&"abc".to_string()), 0);
    assert_eq!(unwrap_integer(&"12x".to_string()), 0);
    assert_eq!(unwrap_integer(&" 5".to_string()), 0);
    assert_eq!(unwrap_integer(&"5 ".to_string()), 0);
    assert_eq!(unwrap_integer(&"+".to_string()), 0);
    assert_eq!(unwrap_integer(&"-".to_string()), 0);
    assert_eq!(unwrap_integer(&"1.5".to_string()), 0);
    assert_eq!(unwrap_integer(&"--3".to_string()), 0);
}

#[test]
fn integer_limits() {
    assert_eq!(unwrap_integer(&"9223372036854775807".to_string()), i64::MAX);
    assert_eq!(unwrap_integer(&"-9223372036854775808".to_string()), i64::MIN);
    assert_eq!(unwrap_integer(&"9223372036854775808".to_string()), 0);
    assert_eq!(unwrap_integer(&"-9223372036854775809".to_string()), 0);
    assert_eq!(unwrap_integer(&"99999999999999999999999".to_string()), 0);
}

#[test]
fn strict_parse_matches_std() {
    for text in [
        "", "42", "-7", "+5", "abc", "12x", " 5", "9223372036854775807",
        "9223372036854775808", "-9223372036854775808", "-9223372036854775809", "007", "-0",
    ] {
        assert_eq!(try_parse_i64(&text.to_string()), text.parse::<i64>().ok(), "on {:?}", text);
    }
}

#[test]
fn tag_list_empty_cases() {
    assert!(unwrap_string_array(&String::new()).is_empty());
    assert!(unwrap_string_array(&"abc".to_string()).is_empty());
    assert!(unwrap_string_array(&"[".to_string()).is_empty());
    assert!(unwrap_string_array(&"[]".to_string()).is_empty());
}

#[test]
fn tag_list_splits_without_trimming() {
    assert_eq!(unwrap_string_array(&"[a]".to_string()), vec!["a".to_string()]);
    assert_eq!(
        unwrap_string_array(&"[a, b]".to_string()),
        vec!["a".to_string(), " b".to_string()]
    );
    assert_eq!(
        unwrap_string_array(&"[a,,b]".to_string()),
        vec!["a".to_string(), "".to_string(), "b".to_string()]
    );
}

#[test]
fn tag_list_strips_one_bracket_pair() {
    assert_eq!(unwrap_string_array(&"[[a]]".to_string()), vec!["[a]".to_string()]);
    assert_eq!(unwrap_string_array(&"[ab".to_string()), vec!["ab".to_string()]);
}

#[test]
fn retweet_flag_is_exact() {
    assert!(is_true_flag(&"True".to_string()));
    assert!(!is_true_flag(&"true".to_string()));
    assert!(!is_true_flag(&"TRUE".to_string()));
    assert!(!is_true_flag(&"True ".to_string()));
    assert!(!is_true_flag(&String::new()));
}
