use airfoil_catalog::codec::{collect_values, join_fields, split_fields};
use airfoil_catalog::text::{same_when_trimmed, to_chars, trim_bounds, white_space};
use airfoil_catalog::{AirfoilError, Binary64};

fn strings(items: &[&str]) -> Vec<String> {
    items.iter().map(|s| s.to_string()).collect()
}

#[test]
fn tokens_are_joined_by_commas() {
    assert_eq!(join_fields(&strings(&["0", "0.5", "1", "-0.1"])), "0,0.5,1,-0.1");
    assert_eq!(join_fields(&strings(&["0.25"])), "0.25");
    assert_eq!(join_fields(&strings(&[])), "");
    assert_eq!(join_fields(&strings(&["", ""])), ",");
}

#[test]
fn text_is_cut_at_commas() {
    assert_eq!(split_fields("0,0.5,1,-0.1"), strings(&["0", "0.5", "1", "-0.1"]));
    assert_eq!(split_fields("0.25"), strings(&["0.25"]));
    assert_eq!(split_fields(""), strings(&[""]));
    assert_eq!(split_fields(","), strings(&["", ""]));
    assert_eq!(split_fields("1,,2,"), strings(&["1", "", "2", ""]));
    assert_eq!(split_fields("é,ü"), strings(&["é", "ü"]));
}

#[test]
fn cutting_agrees_with_the_standard_split() {
    for text in ["", "a", ",", "a,b", ",a,,b,", "1.5,-2e10,NaN,inf", "äö,ü,,"] {
        let expected: Vec<String> = text.split(',').map(|s| s.to_string()).collect();
        assert_eq!(split_fields(text), expected, "{:?}", text);
    }
}

#[test]
fn cutting_undoes_joining() {
    for tokens in [
        strings(&["1"]),
        strings(&["1", "2", "3"]),
        strings(&["0.1", "-0.25", "1e-7", "NaN"]),
        strings(&["", "", ""]),
    ] {
        assert_eq!(split_fields(&join_fields(&tokens)), tokens);
    }
    // No tokens at all come back as one empty token.
    assert_eq!(split_fields(&join_fields(&strings(&[]))), strings(&[""]));
}

#[test]
fn joining_undoes_cutting() {
    for text in ["", "a", ",", "a,b", ",a,,b,"] {
        assert_eq!(join_fields(&split_fields(text)), text);
    }
}

#[test]
fn one_unread_token_spoils_the_column() {
    let one = Binary64::from_bits(1.0f64.to_bits());
    let two = Binary64::from_bits(2.0f64.to_bits());
    assert_eq!(collect_values(&vec![Some(one), Some(two)]), Ok(vec![one, two]));
    assert_eq!(collect_values(&Vec::new()), Ok(Vec::new()));
    assert_eq!(collect_values(&vec![Some(one), None, Some(two)]), Err(AirfoilError::ParseError));
    assert_eq!(collect_values(&vec![None]), Err(AirfoilError::ParseError));
}

#[test]
fn characters_are_read_in_order() {
    assert_eq!(to_chars("aé,"), vec!['a', 'é', ',']);
    assert_eq!(to_chars(""), Vec::<char>::new());
}

#[test]
fn white_space_agrees_with_the_standard_library() {
    for code in 0u32..0x4000 {
        if let Some(c) = char::from_u32(code) {
            assert_eq!(white_space(c), c.is_whitespace(), "{:#x}", code);
        }
    }
    assert!(!white_space('\u{feff}'));
    assert!(white_space('\u{3000}'));
}

#[test]
fn trimming_agrees_with_the_standard_library() {
    for text in ["", " ", "a", "  a b \n", "\t\n x", "x\u{a0}", "\u{2003}é \u{3000}", "   "] {
        let chars: Vec<char> = text.chars().collect();
        let (from, to) = trim_bounds(&chars);
        let got: String = chars[from..to].iter().collect();
        assert_eq!(got, text.trim(), "{:?}", text);
    }
}

#[test]
fn texts_are_compared_without_their_outer_white_space() {
    assert!(same_when_trimmed("  a b\n", "a b"));
    assert!(same_when_trimmed("", " \t "));
    assert!(!same_when_trimmed("a  b", "a b"));
    assert!(!same_when_trimmed("a b", "a bc"));
    assert!(!same_when_trimmed("ab", "ac"));
}
