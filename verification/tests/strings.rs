use git_ignore::text::{chars_of, comes_before, is_part};

fn chars(s: &str) -> Vec<char> {
    s.chars().collect()
}

#[test]
fn chars_of_gives_the_characters_of_a_string() {
    assert_eq!(chars_of("a+b"), vec!['a', '+', 'b']);
    assert_eq!(chars_of("日本é"), vec!['日', '本', 'é']);
    assert!(chars_of("").is_empty());
}

#[test]
fn strings_are_ordered_as_std_orders_them() {
    let samples = [
        "", "a", "A", "ab", "abc", "b", "aB", "ä", "z", "日本", "é", "10", "9", "a+b", "\u{fffd}",
        "\u{1f600}", "a\u{1f600}", "a\u{fffd}",
    ];
    for a in samples {
        for b in samples {
            assert_eq!(comes_before(&chars(a), &chars(b)), a <= b, "{:?} and {:?}", a, b);
        }
    }
}

#[test]
fn a_string_stands_before_its_extensions() {
    assert!(comes_before(&chars("intellij"), &chars("intellij+all")));
    assert!(!comes_before(&chars("intellij+all"), &chars("intellij")));
    assert!(comes_before(&chars("rust"), &chars("rust")));
}

#[test]
fn a_part_is_found_anywhere_in_the_whole() {
    assert!(is_part(&chars("rust"), &chars("rust")));
    assert!(is_part(&chars("rust"), &chars("trusty")));
    assert!(is_part(&chars("ty"), &chars("trusty")));
    assert!(is_part(&chars("t"), &chars("trusty")));
    assert!(is_part(&chars(""), &chars("trusty")));
    assert!(is_part(&chars(""), &chars("")));
    assert!(is_part(&chars("本"), &chars("日本語")));
}

#[test]
fn a_part_is_not_found_where_it_does_not_stand() {
    assert!(!is_part(&chars("rusty"), &chars("rust")));
    assert!(!is_part(&chars("Rust"), &chars("rust")));
    assert!(!is_part(&chars("tt"), &chars("trusty")));
    assert!(!is_part(&chars("a"), &chars("")));
    assert!(!is_part(&chars("rt"), &chars("rust")));
}

#[test]
fn parts_are_found_as_std_finds_them() {
    let samples = ["", "a", "aa", "aaa", "ab", "ba", "aab", "abab", "bab", "é", "aé", "éa"];
    for part in samples {
        for whole in samples {
            assert_eq!(
                is_part(&chars(part), &chars(whole)),
                whole.contains(part),
                "{:?} in {:?}",
                part,
                whole
            );
        }
    }
}
