use picopb::randomizer::{
    none_or_random, printable_text, random_values, randomized, sequence_length, string_length,
    Randomize, MAX_BYTES_LEN, MAX_STRING_LEN,
};
use picopb::text::{push_decimal, push_decimal_u32, str_before, str_eq};

fn decimal_of(n: usize) -> String {
    let mut out = String::new();
    push_decimal(&mut out, n);
    out
}

#[test]
fn decimal_form_of_numbers() {
    assert_eq!(decimal_of(0), "0");
    assert_eq!(decimal_of(7), "7");
    assert_eq!(decimal_of(10), "10");
    assert_eq!(decimal_of(128), "128");
    assert_eq!(decimal_of(1090), "1090");
    assert_eq!(decimal_of(usize::MAX), usize::MAX.to_string());
    let mut out = String::from("n = ");
    push_decimal_u32(&mut out, u32::MAX);
    assert_eq!(out, "n = 4294967295");
}

#[test]
fn equality_of_texts() {
    assert!(str_eq("", ""));
    assert!(str_eq("proto2", "proto2"));
    assert!(str_eq("é", "é"));
    assert!(!str_eq("proto2", "proto3"));
    assert!(!str_eq("proto2", "proto"));
    assert!(!str_eq("", "a"));
    assert!(!str_eq("A", "a"));
}

#[test]
fn order_of_texts_is_that_of_strings() {
    let texts = ["", "A", "B", "a", "ab", "abc", "b", "é", "z", "Z", "_", "a_", "0", "10", "9"];
    for a in texts.iter() {
        for b in texts.iter() {
            assert_eq!(str_before(a, b), a < b);
        }
    }
}

#[test]
fn length_of_random_values() {
    assert_eq!(MAX_STRING_LEN, 100);
    assert_eq!(MAX_BYTES_LEN, 100);
    assert_eq!(string_length(0), 0);
    assert_eq!(string_length(99), 99);
    assert_eq!(string_length(100), 0);
    assert_eq!(string_length(250), 50);
    assert_eq!(string_length(usize::MAX), usize::MAX % 100);
    assert_eq!(sequence_length(0), 0);
    assert_eq!(sequence_length(99), 99);
    assert_eq!(sequence_length(100), 100);
    assert_eq!(sequence_length(101), 100);
    assert_eq!(sequence_length(usize::MAX), 100);
}

#[test]
fn random_strings_are_short_and_printable() {
    for _ in 0..200 {
        let text = randomized::<String>();
        assert!(text.chars().count() < 100);
        assert!(text.chars().all(|c| ' ' <= c && c < '~'));
    }
}

#[test]
fn random_sequences_are_short() {
    for _ in 0..50 {
        assert!(randomized::<Vec<i32>>().len() <= 100);
        assert!(randomized::<Vec<u64>>().len() <= 100);
        assert!(randomized::<bytes::Bytes>().len() <= 100);
        let slice: &'static [u8] = <&'static [u8] as Randomize<&'static [u8]>>::randomized();
        assert!(slice.len() <= 100);
    }
}

#[test]
fn random_values_vary() {
    let numbers: Vec<u64> = (0..20).map(|_| randomized::<u64>()).collect();
    assert!(numbers.iter().any(|n| *n != numbers[0]));
    let options: Vec<Option<u8>> = (0..200).map(|_| randomized::<Option<u8>>()).collect();
    assert!(options.iter().any(|o| o.is_none()));
    assert!(options.iter().any(|o| o.is_some()));
    let _: i32 = randomized::<i32>();
    let _: u32 = randomized::<u32>();
    let _: i64 = randomized::<i64>();
    let texts: Vec<String> = (0..20).map(|_| randomized::<String>()).collect();
    assert!(texts.iter().any(|t| *t != texts[0]));
}

#[test]
fn random_text_has_the_length_asked_for() {
    for len in [0usize, 1, 5, 99, 250] {
        let text = printable_text(len);
        assert_eq!(text.chars().count(), len);
        assert!(text.chars().all(|c| ' ' <= c && c < '~'));
    }
}

#[test]
fn random_values_are_as_many_as_asked_for() {
    assert_eq!(random_values::<u8>(0).len(), 0);
    assert_eq!(random_values::<u8>(3).len(), 3);
    assert_eq!(random_values::<i64>(100).len(), 100);
    let texts = random_values::<String>(4);
    assert_eq!(texts.len(), 4);
    assert!(texts.iter().all(|t| t.chars().count() < 100));
}

#[test]
fn truth_value_decides_whether_there_is_a_value() {
    assert_eq!(none_or_random::<String>(true), None);
    assert!(none_or_random::<u32>(false).is_some());
    assert!(none_or_random::<Vec<u8>>(false).unwrap().len() <= 100);
}
