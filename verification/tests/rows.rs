use sudoku::rows::token_digit;
use sudoku::rows::valid_row;

fn row(tokens: &[&str]) -> Vec<String> {
    tokens.iter().map(|s| s.to_string()).collect()
}

#[test]
fn valid_row_accepts_nine_digits() {
    let r = row(&["5", "3", "0", "0", "7", "0", "0", "0", "0"]);
    assert!(valid_row(&r));
}

#[test]
fn valid_row_rejects_wrong_count() {
    assert!(!valid_row(&row(&["1", "2", "3", "4", "5", "6", "7", "8"])));
    assert!(!valid_row(&row(&["1", "2", "3", "4", "5", "6", "7", "8", "9", "0"])));
    assert!(!valid_row(&row(&[])));
}

#[test]
fn valid_row_rejects_out_of_range_and_junk() {
    assert!(!valid_row(&row(&["1", "2", "3", "4", "10", "6", "7", "8", "9"])));
    assert!(!valid_row(&row(&["1", "2", "3", "4", "abc", "6", "7", "8", "9"])));
    assert!(!valid_row(&row(&["1", "2", "3", "4", "", "6", "7", "8", "9"])));
    assert!(!valid_row(&row(&["1", "2", "3", "4", "-1", "6", "7", "8", "9"])));
    assert!(!valid_row(&row(&["1", "2", "3", "4", "+", "6", "7", "8", "9"])));
}

#[test]
fn valid_row_accepts_integer_spellings_of_small_digits() {
    // a plus sign and leading zeros parse like any unsigned integer
    assert!(valid_row(&row(&["+5", "007", "0", "9", "1", "2", "3", "4", "6"])));
    assert!(!valid_row(&row(&["+", "007", "0", "9", "1", "2", "3", "4", "6"])));
    assert!(!valid_row(&row(&["017", "0", "0", "9", "1", "2", "3", "4", "6"])));
}

#[test]
fn token_digit_reads_the_value() {
    assert_eq!(token_digit("0"), 0);
    assert_eq!(token_digit("7"), 7);
    assert_eq!(token_digit("007"), 7);
    assert_eq!(token_digit("+3"), 3);
    assert_eq!(token_digit("+09"), 9);
}
