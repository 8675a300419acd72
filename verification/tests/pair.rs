use asciiforger::pair::{chars_of, find_first, parse_number, parse_pair};

fn chars(text: &str) -> Vec<char> {
    text.chars().collect()
}

#[test]
fn width_and_height() {
    assert_eq!(parse_pair("80x40", 'x'), Some((80, 40)));
    assert_eq!(parse_pair("1x1", 'x'), Some((1, 1)));
    assert_eq!(parse_pair("0x0", 'x'), Some((0, 0)));
    assert_eq!(parse_pair("640,480", ','), Some((640, 480)));
}

#[test]
fn missing_separator() {
    assert_eq!(parse_pair("8040", 'x'), None);
    assert_eq!(parse_pair("", 'x'), None);
    assert_eq!(parse_pair("80X40", 'x'), None);
}

#[test]
fn missing_number() {
    assert_eq!(parse_pair("x", 'x'), None);
    assert_eq!(parse_pair("80x", 'x'), None);
    assert_eq!(parse_pair("x40", 'x'), None);
    assert_eq!(parse_pair("+x+", 'x'), None);
}

#[test]
fn first_separator_parts_the_pair() {
    assert_eq!(parse_pair("1x2x3", 'x'), None);
    assert_eq!(parse_pair("xx", 'x'), None);
}

#[test]
fn signs_and_leading_zeros() {
    assert_eq!(parse_pair("+8x08", 'x'), Some((8, 8)));
    assert_eq!(parse_pair("000000000000000000007x+0", 'x'), Some((7, 0)));
    assert_eq!(parse_pair("-8x8", 'x'), None);
    assert_eq!(parse_pair("8x-8", 'x'), None);
    assert_eq!(parse_pair("++8x8", 'x'), None);
    assert_eq!(parse_pair("8+x8", 'x'), None);
}

#[test]
fn stray_characters() {
    assert_eq!(parse_pair(" 80x40", 'x'), None);
    assert_eq!(parse_pair("80 x40", 'x'), None);
    assert_eq!(parse_pair("80x40 ", 'x'), None);
    assert_eq!(parse_pair("8_0x40", 'x'), None);
    assert_eq!(parse_pair("80x4.0", 'x'), None);
    assert_eq!(parse_pair("80x4a", 'x'), None);
    assert_eq!(parse_pair("٣x٣", 'x'), None);
}

#[test]
fn largest_number() {
    assert_eq!(parse_pair("4294967295x4294967295", 'x'), Some((u32::MAX, u32::MAX)));
    assert_eq!(parse_pair("4294967296x1", 'x'), None);
    assert_eq!(parse_pair("1x4294967296", 'x'), None);
    assert_eq!(parse_pair("1x99999999999999999999999999999999", 'x'), None);
    assert_eq!(parse_pair("1x42949672950", 'x'), None);
}

#[test]
fn separator_beyond_ascii() {
    assert_eq!(parse_pair("12×34", '×'), Some((12, 34)));
}

#[test]
fn agrees_with_the_standard_reading_of_numbers() {
    let samples = [
        "0", "7", "42", "007", "+5", "+", "", "-1", "4294967295", "4294967296", "12a", "a12", " 1",
        "1 ", "+-1", "１２",
    ];
    for left in samples {
        for right in samples {
            let text = format!("{}x{}", left, right);
            let expected = match (left.parse::<u32>(), right.parse::<u32>()) {
                (Ok(l), Ok(r)) => Some((l, r)),
                _ => None,
            };
            assert_eq!(parse_pair(&text, 'x'), expected);
        }
    }
}

#[test]
fn number_in_a_range_of_characters() {
    let text = chars("ab123cd");
    assert_eq!(parse_number(&text, 2, 5), Some(123));
    assert_eq!(parse_number(&text, 2, 4), Some(12));
    assert_eq!(parse_number(&text, 1, 5), None);
    assert_eq!(parse_number(&text, 2, 6), None);
    assert_eq!(parse_number(&text, 3, 3), None);
}

#[test]
fn first_occurrence_is_found() {
    assert_eq!(find_first(&chars("abcabc"), 'b'), Some(1));
    assert_eq!(find_first(&chars("abcabc"), 'a'), Some(0));
    assert_eq!(find_first(&chars("abcabc"), 'z'), None);
    assert_eq!(find_first(&chars(""), 'a'), None);
}

#[test]
fn characters_of_a_text() {
    assert_eq!(chars_of("8x×"), vec!['8', 'x', '×']);
    assert_eq!(chars_of(""), Vec::<char>::new());
}
