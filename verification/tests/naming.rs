use regex::Regex;
use rustdsplit::decimal::decimal_string;
use rustdsplit::naming::{half_file_name, strip_range_prefix};
use rustdsplit::signature::Signature;

#[test]
fn decimal_of_small_and_large_numbers() {
    assert_eq!(decimal_string(0), "0");
    assert_eq!(decimal_string(7), "7");
    assert_eq!(decimal_string(10), "10");
    assert_eq!(decimal_string(109), "109");
    assert_eq!(decimal_string(4_294_967_295), "4294967295");
}

#[test]
fn decimal_agrees_with_the_standard_rendering() {
    let mut n: u32 = 1;
    for _ in 0..40 {
        assert_eq!(decimal_string(n), n.to_string());
        n = n.wrapping_mul(2_654_435_761).wrapping_add(12_345);
    }
}

#[test]
fn strip_takes_one_range_off_the_front() {
    assert_eq!(strip_range_prefix("0-50-test"), "test");
    assert_eq!(strip_range_prefix("51-100-test"), "test");
    assert_eq!(strip_range_prefix("007-0-x"), "x");
    assert_eq!(strip_range_prefix("1-2-"), "");
    assert_eq!(strip_range_prefix("1-2-3-4-x"), "3-4-x");
    assert_eq!(strip_range_prefix("0-50--test"), "-test");
}

#[test]
fn strip_leaves_other_stems_alone() {
    for stem in [
        "", "test", "0", "0-", "0-50", "0-50test", "-50-test", "0--test", "a0-50-test",
        "0-5a-test", "0a-50-test", " 0-50-test", "0_50_test", "12345", "1-2",
    ] {
        assert_eq!(strip_range_prefix(stem), stem);
    }
}

#[test]
fn strip_counts_characters_not_bytes() {
    assert_eq!(strip_range_prefix("1-2-\u{e9}t\u{e9}"), "\u{e9}t\u{e9}");
    assert_eq!(strip_range_prefix("\u{e9}1-2-x"), "\u{e9}1-2-x");
    assert_eq!(strip_range_prefix("1-\u{e9}2-x"), "1-\u{e9}2-x");
    assert_eq!(strip_range_prefix("\u{663}-\u{664}-x"), "\u{663}-\u{664}-x");
}

#[test]
fn strip_agrees_with_the_regular_expression() {
    let pattern = Regex::new(r"^[0-9]+-[0-9]+-").unwrap();
    let alphabet = ['0', '7', '9', '-', 'a', '.', '\u{e9}'];
    let mut stems = vec![String::new()];
    let mut at = 0;
    while at < stems.len() {
        if stems[at].chars().count() < 6 {
            for c in alphabet {
                let mut longer = stems[at].clone();
                longer.push(c);
                stems.push(longer);
            }
        }
        at += 1;
    }
    assert!(stems.len() > 100_000);
    for stem in &stems {
        assert_eq!(strip_range_prefix(stem), pattern.replace(stem, ""));
    }
}

#[test]
fn name_is_range_then_stem_then_extension() {
    assert_eq!(half_file_name(&Signature::new(0, 50), "test"), "0-50-test.bin");
    assert_eq!(half_file_name(&Signature::new(51, 100), "test"), "51-100-test.bin");
    assert_eq!(half_file_name(&Signature::new(3, 4), ""), "3-4-.bin");
    assert_eq!(half_file_name(&Signature::new(3, 4), "a.tar"), "3-4-a.tar.bin");
}

#[test]
fn name_replaces_an_earlier_range() {
    assert_eq!(half_file_name(&Signature::new(0, 25), "0-50-test"), "0-25-test.bin");
    assert_eq!(half_file_name(&Signature::new(25, 50), "0-50-test"), "25-50-test.bin");
}

#[test]
fn names_do_not_grow_from_split_to_split() {
    let ranges = [
        Signature::new(0, 50),
        Signature::new(0, 25),
        Signature::new(12, 25),
        Signature::new(4_000_000_000, 4_294_967_295),
    ];
    for stem in ["test", "1-2-3-4-x", "", "0-50", "9-9-9"] {
        let direct: Vec<String> = ranges.iter().map(|r| half_file_name(r, stem)).collect();
        let mut current = stem.to_string();
        for (range, expected) in ranges.iter().zip(&direct) {
            let name = half_file_name(range, &current);
            assert_eq!(&name, expected);
            current = name.strip_suffix(".bin").unwrap().to_string();
            assert_eq!(strip_range_prefix(&current), strip_range_prefix(stem));
        }
    }
}
