use openzeppelin_macros::text::{
    chars_equal, chars_less, chars_of, contains_chars, contains_str, find, first_non_whitespace,
    join_strings, last_non_whitespace, matches_at, prefix_before, push_all, push_range, push_str,
    str_equal, string_of, trimmed,
};

fn chars(s: &str) -> Vec<char> {
    s.chars().collect()
}

#[test]
fn chars_and_strings_convert_both_ways() {
    assert_eq!(chars_of("héllo"), vec!['h', 'é', 'l', 'l', 'o']);
    assert_eq!(string_of(&vec!['a', 'ß', 'c']), "aßc");
    assert_eq!(string_of(&chars_of("")), "");
    assert_eq!(string_of(&chars_of("fn main() {}")), "fn main() {}");
}

#[test]
fn pushing_appends_in_order() {
    let mut out = chars("ab");
    push_range(&mut out, &chars("0123456"), 2, 5);
    assert_eq!(out, chars("ab234"));
    push_all(&mut out, &chars("xy"));
    assert_eq!(out, chars("ab234xy"));
    push_str(&mut out, "!");
    assert_eq!(out, chars("ab234xy!"));
    push_range(&mut out, &chars("0123456"), 3, 3);
    assert_eq!(out, chars("ab234xy!"));
}

#[test]
fn equality_compares_whole_texts() {
    assert!(chars_equal(&chars("abc"), &chars("abc")));
    assert!(!chars_equal(&chars("abc"), &chars("abd")));
    assert!(!chars_equal(&chars("abc"), &chars("ab")));
    assert!(chars_equal(&chars(""), &chars("")));
    assert!(str_equal("Storage", "Storage"));
    assert!(!str_equal("Storage", "storage"));
}

#[test]
fn matches_at_looks_at_one_position() {
    let hay = chars("self.pausable.pause()");
    assert!(matches_at(&hay, 0, &chars("self")));
    assert!(matches_at(&hay, 5, &chars("pausable")));
    assert!(!matches_at(&hay, 4, &chars("pausable")));
    assert!(!matches_at(&hay, 18, &chars("e()x")));
    assert!(matches_at(&hay, 21, &chars("")));
    assert!(!matches_at(&hay, 22, &chars("")));
}

#[test]
fn find_gives_the_first_position() {
    let hay = chars("abcabcabc");
    assert_eq!(find(&hay, &chars("bca")), Some(1));
    assert_eq!(find(&hay, &chars("abc")), Some(0));
    assert_eq!(find(&hay, &chars("cab")), Some(2));
    assert_eq!(find(&hay, &chars("abcabcabc")), Some(0));
    assert_eq!(find(&hay, &chars("abcabcabcd")), None);
    assert_eq!(find(&hay, &chars("x")), None);
    assert_eq!(find(&hay, &chars("")), Some(0));
    assert_eq!(find(&chars(""), &chars("")), Some(0));
    assert_eq!(find(&hay, &chars("c")), Some(2));
    assert_eq!(find(&chars("aab"), &chars("ab")), Some(1));
}

#[test]
fn contains_is_a_plain_search() {
    let code = chars("fn pause() { self.pausable.pause(); }");
    assert!(contains_str(&code, "self.pausable.pause()"));
    assert!(!contains_str(&code, "self.pausable.unpause()"));
    assert!(!contains_str(&code, "self.pausable .pause()"));
    assert!(contains_chars(&code, &chars("}")));
    assert!(contains_str(&code, ""));
}

#[test]
fn prefix_before_stops_at_the_first_occurrence() {
    assert_eq!(prefix_before(&chars("ERC20Component"), &chars("Component")), chars("ERC20"));
    assert_eq!(
        prefix_before(&chars("ComponentComponent"), &chars("Component")),
        chars("")
    );
    assert_eq!(prefix_before(&chars("Ownable"), &chars("Component")), chars("Ownable"));
    assert_eq!(
        prefix_before(&chars("AComponentBComponent"), &chars("Component")),
        chars("A")
    );
}

#[test]
fn join_puts_the_separator_between() {
    let parts = vec!["a".to_string(), "b".to_string(), "c".to_string()];
    assert_eq!(join_strings(&parts, ", "), "a, b, c");
    assert_eq!(join_strings(&parts[..1].to_vec(), ", "), "a");
    assert_eq!(join_strings(&Vec::new(), ", "), "");
    assert_eq!(join_strings(&vec![String::new(), String::new()], "-"), "-");
}

#[test]
fn white_space_is_skipped_from_both_ends() {
    let s = chars(" \t\n ab c \u{a0}\r\n");
    assert_eq!(first_non_whitespace(&s, 0), 4);
    assert_eq!(first_non_whitespace(&s, 6), 7);
    assert_eq!(first_non_whitespace(&s, 5), 5);
    assert_eq!(last_non_whitespace(&s, s.len()), 8);
    assert_eq!(last_non_whitespace(&s, 4), 0);
    assert_eq!(first_non_whitespace(&s, s.len()), s.len());
}

#[test]
fn trimmed_takes_a_part_without_white_space_around() {
    let s = chars("felt252,  ClassHash , NftId");
    assert_eq!(trimmed(&s, 0, 7), chars("felt252"));
    assert_eq!(trimmed(&s, 8, 20), chars("ClassHash"));
    assert_eq!(trimmed(&s, 21, s.len()), chars("NftId"));
    assert_eq!(trimmed(&s, 8, 10), chars(""));
    assert_eq!(trimmed(&s, 3, 3), chars(""));
    assert_eq!(trimmed(&chars("a b"), 0, 3), chars("a b"));
}

#[test]
fn order_of_strings_goes_by_the_first_difference() {
    assert!(chars_less(&chars("a"), &chars("b")));
    assert!(!chars_less(&chars("b"), &chars("a")));
    assert!(!chars_less(&chars("abc"), &chars("abc")));
    assert!(chars_less(&chars("ab"), &chars("abc")));
    assert!(!chars_less(&chars("abc"), &chars("ab")));
    assert!(chars_less(&chars(""), &chars("a")));
    assert!(!chars_less(&chars(""), &chars("")));
    assert!(chars_less(&chars("\"NftId\""), &chars("\"TokenAmount\"")));
    assert!(chars_less(&chars("\"TokenAmount\""), &chars("\"u256\"")));
    assert!(chars_less(&chars("Z"), &chars("a")));
    assert!(chars_less(&chars("z"), &chars("é")));
    for (a, b) in [("abc", "abd"), ("", "x"), ("a\u{10000}", "a\u{10001}"), ("Zz", "a")] {
        assert_eq!(chars_less(&chars(a), &chars(b)), a < b);
        assert_eq!(chars_less(&chars(b), &chars(a)), b < a);
    }
}

#[test]
fn white_space_is_the_characters_with_that_property() {
    let listed = |code: u32| -> bool {
        (0x09..=0x0D).contains(&code)
            || (0x2000..=0x200A).contains(&code)
            || [0x20, 0x85, 0xA0, 0x1680, 0x2028, 0x2029, 0x202F, 0x205F, 0x3000].contains(&code)
    };
    let mut one = vec!['a'];
    let mut found: u32 = 0;
    for code in 0..=0x10FFFF_u32 {
        if let Some(c) = char::from_u32(code) {
            one[0] = c;
            let skipped = first_non_whitespace(&one, 0) == 1;
            assert_eq!(skipped, listed(code), "U+{code:04X}");
            if skipped {
                found += 1;
            }
        }
    }
    assert_eq!(found, 25);
}
