use notestore::numbering::{numbered_key, push_decimal};
use notestore::offsets::{index_at, offset_of, utf8_width};
use notestore::order::{rank, Rank};
use notestore::text::{blank_prefix, prefix_is, text_of, to_chars};

fn chars(s: &str) -> Vec<char> {
    s.chars().collect()
}

fn text(v: &[char]) -> String {
    v.iter().collect()
}

#[test]
fn decimal_digits_are_appended() {
    for n in [0usize, 1, 9, 10, 11, 99, 100, 101, 1234567890, usize::MAX] {
        let mut out = chars("n=");
        push_decimal(&mut out, n);
        assert_eq!(text(&out), format!("n={}", n));
    }
}

#[test]
fn numbered_keys_start_at_the_base() {
    assert_eq!(text(&numbered_key(&chars("new file"), 0)), "new file");
    assert_eq!(text(&numbered_key(&chars("new file"), 1)), "new file 1");
    assert_eq!(text(&numbered_key(&chars("new file"), 10)), "new file 10");
    assert_eq!(text(&numbered_key(&chars(""), 7)), " 7");
}

#[test]
fn widths_are_those_of_utf8() {
    for c in ['\0', 'a', '\u{7f}', '\u{80}', 'é', '\u{7ff}', '\u{800}', '€', '\u{ffff}', '\u{10000}', '😀', '\u{10ffff}'] {
        assert_eq!(utf8_width(c), c.len_utf8());
    }
}

#[test]
fn offsets_and_indices_agree() {
    let s = "a€😀xé";
    let v = chars(s);
    let mut expected = vec![];
    let mut at = 0;
    for c in s.chars() {
        expected.push(at);
        at += c.len_utf8();
    }
    expected.push(at);
    for k in 0..=v.len() {
        assert_eq!(offset_of(s, k), expected[k]);
        assert_eq!(index_at(&v, expected[k]), k);
    }
    assert_eq!(index_at(&v, 2), 2);
    assert_eq!(index_at(&v, 3), 2);
    assert_eq!(index_at(&v, 5), 3);
    assert_eq!(index_at(&v, 1000), 5);
    assert_eq!(index_at(&chars(""), 3), 0);
}

#[test]
fn rank_is_the_order_of_strings() {
    let samples = ["", "a", "A", "ab", "b", "a/b", "a b", "é", "e", "€", "😀", "aa", "a\u{0}"];
    for x in samples {
        for y in samples {
            let expected = if x < y {
                Rank::Before
            } else if x == y {
                Rank::Same
            } else {
                Rank::After
            };
            assert_eq!(rank(&chars(x), &chars(y)), expected);
        }
    }
}

#[test]
fn texts_convert_both_ways() {
    for s in ["", "abc", "é€😀", "a\nb"] {
        assert_eq!(to_chars(s), chars(s));
        let v = chars(s);
        assert_eq!(text_of(&v, 0, v.len()), s);
    }
    let v = chars("hello");
    assert_eq!(text_of(&v, 1, 3), "el");
    assert_eq!(text_of(&v, 2, 2), "");
}

#[test]
fn prefixes_are_compared_by_their_characters() {
    assert!(prefix_is(&chars("abcdef"), 3, &chars("abc")));
    assert!(!prefix_is(&chars("abcdef"), 3, &chars("abd")));
    assert!(!prefix_is(&chars("abcdef"), 3, &chars("abcd")));
    assert!(prefix_is(&chars("abc"), 0, &chars("")));
}

#[test]
fn blank_is_empty_or_white_space_only() {
    assert!(blank_prefix(&chars(""), 0));
    assert!(blank_prefix(&chars(" \t\n\u{a0}\u{3000}"), 5));
    assert!(!blank_prefix(&chars(" a "), 3));
    assert!(blank_prefix(&chars(" a "), 1));
    assert!(!blank_prefix(&chars("_"), 1));
    assert!(!blank_prefix(&chars("\u{200b}"), 1));
}
