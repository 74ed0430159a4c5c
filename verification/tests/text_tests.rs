use ly::order::{arrange, sort_positions};
use ly::text::{append_integer, chars_of, parse_integer, split_lines};

fn chars(text: &str) -> Vec<char> {
    text.chars().collect()
}

fn written(n: i64) -> String {
    let mut text = String::from("n=");
    append_integer(&mut text, n);
    text
}

#[test]
fn integers_are_written_in_decimal() {
    assert_eq!(written(0), "n=0");
    assert_eq!(written(7), "n=7");
    assert_eq!(written(10), "n=10");
    assert_eq!(written(-1), "n=-1");
    assert_eq!(written(1_000_000), "n=1000000");
    assert_eq!(written(i64::MAX), "n=9223372036854775807");
    assert_eq!(written(i64::MIN), "n=-9223372036854775808");
}

#[test]
fn integers_are_written_as_std_writes_them() {
    for n in [0, 1, 9, 10, 11, 99, 100, 101, -9, -10, -99, -100, 123_456_789, i64::MAX - 1, i64::MIN + 1] {
        assert_eq!(written(n), format!("n={}", n));
        assert_eq!(parse_integer(&chars(&format!("{}", n))), Some(n));
    }
}

#[test]
fn integers_are_read_as_std_reads_them() {
    for text in [
        "", "0", "-0", "+0", "00", "+", "-", "--1", "+-1", "1+", "12a", "a12", " 1", "1 ", "0x10",
        "9223372036854775807", "9223372036854775808", "-9223372036854775808",
        "-9223372036854775809", "99999999999999999999999999999", "+9223372036854775807",
        "000000000000000000000000000001", "1.0", "١",
    ] {
        assert_eq!(parse_integer(&chars(text)), text.parse::<i64>().ok(), "{:?}", text);
    }
}

#[test]
fn the_characters_of_a_text() {
    assert_eq!(chars_of(""), Vec::<char>::new());
    assert_eq!(chars_of("a\tb"), vec!['a', '\t', 'b']);
    assert_eq!(chars_of("日本語"), vec!['日', '本', '語']);
}

fn lines(text: &str) -> Vec<String> {
    split_lines(&chars(text)).iter().map(|line| line.iter().collect()).collect()
}

#[test]
fn a_text_is_split_into_its_lines() {
    assert_eq!(lines(""), Vec::<String>::new());
    assert_eq!(lines("a"), vec!["a"]);
    assert_eq!(lines("a\n"), vec!["a"]);
    assert_eq!(lines("a\nb"), vec!["a", "b"]);
    assert_eq!(lines("\n"), vec![""]);
    assert_eq!(lines("\n\n"), vec!["", ""]);
    assert_eq!(lines("a\r\nb\r\n"), vec!["a", "b"]);
    assert_eq!(lines("a\rb\n"), vec!["a\rb"]);
    assert_eq!(lines("a\r"), vec!["a\r"]);
    assert_eq!(lines("\r\n"), vec![""]);
    assert_eq!(lines("a\r\r\n"), vec!["a\r"]);
}

#[test]
fn a_text_is_split_as_std_splits_it() {
    for text in ["", "a", "a\n", "\n", "\n\n\n", "a\r\nb", "x\ny\r\n\r\nz\r", "\r", "\r\r\n\n"] {
        let expected: Vec<String> = text.lines().map(String::from).collect();
        assert_eq!(lines(text), expected, "{:?}", text);
    }
}

#[test]
fn positions_are_sorted_by_key_and_stay_in_order_where_keys_are_equal() {
    assert_eq!(sort_positions(&vec![]), Vec::<usize>::new());
    assert_eq!(sort_positions(&vec![5]), vec![0]);
    assert_eq!(sort_positions(&vec![3, 1, 2]), vec![1, 2, 0]);
    assert_eq!(sort_positions(&vec![2, 1, 2, 1, 2]), vec![1, 3, 0, 2, 4]);
    assert_eq!(sort_positions(&vec![0, 1, 2, 3]), vec![0, 1, 2, 3]);
    assert_eq!(sort_positions(&vec![i128::MAX, i128::MIN, 0]), vec![1, 2, 0]);
}

#[test]
fn rows_are_arranged_by_their_keys() {
    assert_eq!(arrange(&vec!['c', 'a', 'b'], &vec![3, 1, 2]), vec!['a', 'b', 'c']);
    assert_eq!(arrange(&vec!['x', 'y', 'z'], &vec![1, 1, 0]), vec!['z', 'x', 'y']);
}
