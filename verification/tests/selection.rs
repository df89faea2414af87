use fundamentals::render::{classify_number, describe_option, int_to_decimal};
use fundamentals::util::{find_even, largest, push_value};

#[test]
fn test_find_even() {
    assert_eq!(find_even(&[1, 3, 5]), None);
    assert_eq!(find_even(&[1, 4, 6]), Some(4));
}

#[test]
fn test_classify_number() {
    assert_eq!(classify_number(-10), "negative");
    assert_eq!(classify_number(0), "zero");
    assert_eq!(classify_number(50), "small positive");
    assert_eq!(classify_number(200), "large positive");
}

#[test]
fn test_largest() {
    assert_eq!(largest(3, 7), 7);
    assert_eq!(largest(10, 2), 10);
    assert_eq!(largest('a', 'z'), 'z');
}

#[test]
fn classification_boundaries() {
    assert_eq!(classify_number(-1), "negative");
    assert_eq!(classify_number(1), "small positive");
    assert_eq!(classify_number(100), "small positive");
    assert_eq!(classify_number(101), "large positive");
    assert_eq!(classify_number(i32::MIN), "negative");
    assert_eq!(classify_number(i32::MAX), "large positive");
}

#[test]
fn describe_option_spells_out_the_value() {
    assert_eq!(describe_option(Some(10)), "positive value: 10");
    assert_eq!(describe_option(Some(0)), "zero");
    assert_eq!(describe_option(Some(-3)), "negative value: -3");
    assert_eq!(describe_option(None), "nothing");
}

#[test]
fn decimal_rendering_matches_formatting() {
    assert_eq!(int_to_decimal(0), "0");
    assert_eq!(int_to_decimal(7), "7");
    assert_eq!(int_to_decimal(-7), "-7");
    assert_eq!(int_to_decimal(1234567890), "1234567890");
    assert_eq!(int_to_decimal(i32::MAX), "2147483647");
    assert_eq!(int_to_decimal(i32::MIN), "-2147483648");
}

#[test]
fn find_even_takes_the_first_even_value() {
    assert_eq!(find_even(&[]), None);
    assert_eq!(find_even(&[2]), Some(2));
    assert_eq!(find_even(&[-3, -4, 6]), Some(-4));
    assert_eq!(find_even(&[0, 1]), Some(0));
}

#[test]
fn push_value_appends_at_the_end() {
    let mut numbers = vec![1, 2, 3];
    push_value(&mut numbers, 4);
    assert_eq!(numbers, vec![1, 2, 3, 4]);
    push_value(&mut numbers, -1);
    assert_eq!(numbers, vec![1, 2, 3, 4, -1]);
}

#[test]
fn largest_on_ties_and_negatives() {
    assert_eq!(largest(5, 5), 5);
    assert_eq!(largest(-2, -9), -2);
    assert_eq!(largest(0u64, u64::MAX), u64::MAX);
}
