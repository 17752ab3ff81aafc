use cda_parser::text::char_is_whitespace;
use cda_parser::text::chars_of;
use cda_parser::text::collapse_whitespace;
use cda_parser::text::contains;
use cda_parser::text::eq_ignore_ascii_case;
use cda_parser::text::has_text;
use cda_parser::text::is_blank_text;
use cda_parser::text::parse_leading_year;
use cda_parser::text::same_text;
use cda_parser::text::text_le;
use cda_parser::text::trim;

const SAMPLES: [&str; 16] = [
    "",
    " ",
    "a",
    "  Ana  María ",
    "\tJosé\n\nLuis\r\n",
    "\u{a0}x\u{2003}y\u{3000}",
    "Pérez  ",
    "  Pérez",
    "a b",
    "a  b   c",
    "\u{85}\u{1680}\u{2028}\u{2029}\u{202f}\u{205f}",
    "ab",
    "Ab",
    "aB",
    "AB",
    "metformina 850 mg",
];

#[test]
fn whitespace_is_what_the_standard_library_takes_for_it() {
    let mut code: u32 = 0;
    while code <= 0x10ffff {
        if let Some(c) = char::from_u32(code) {
            assert_eq!(char_is_whitespace(c), c.is_whitespace(), "U+{:04X}", code);
        }
        code += 1;
    }
}

#[test]
fn chars_of_gives_the_characters_in_order() {
    assert_eq!(chars_of("año"), vec!['a', 'ñ', 'o']);
    assert_eq!(chars_of(""), Vec::<char>::new());
}

#[test]
fn trim_agrees_with_the_standard_library() {
    for s in SAMPLES {
        assert_eq!(trim(s), s.trim(), "{:?}", s);
    }
}

#[test]
fn blank_texts_are_those_that_trim_to_nothing() {
    for s in SAMPLES {
        assert_eq!(is_blank_text(s), s.trim().is_empty(), "{:?}", s);
    }
}

#[test]
fn collapse_joins_the_words_with_single_spaces() {
    for s in SAMPLES {
        let expected = s.split_whitespace().collect::<Vec<&str>>().join(" ");
        assert_eq!(collapse_whitespace(s), expected, "{:?}", s);
    }
    assert_eq!(collapse_whitespace("  Ana   María \t Pérez "), "Ana María Pérez");
    assert_eq!(collapse_whitespace(" \n "), "");
}

#[test]
fn collapse_twice_is_collapse_once() {
    for s in SAMPLES {
        let once = collapse_whitespace(s);
        assert_eq!(collapse_whitespace(&once), once);
    }
}

#[test]
fn contains_agrees_with_the_standard_library() {
    for s in SAMPLES {
        for p in SAMPLES {
            assert_eq!(contains(s, p), s.contains(p), "{:?} in {:?}", p, s);
        }
    }
    assert!(contains("paciente con asma leve", "asma"));
    assert!(!contains("paciente", "asma"));
    assert!(contains("abc", ""));
    assert!(!contains("ab", "abc"));
}

#[test]
fn order_of_texts_agrees_with_the_standard_library() {
    for a in SAMPLES {
        for b in SAMPLES {
            assert_eq!(text_le(a, b), a <= b, "{:?} <= {:?}", a, b);
        }
    }
    assert!(text_le("Aspirin", "aspirin"));
    assert!(!text_le("aspirin", "Aspirin"));
    assert!(text_le("Asma", "Asma bronquial"));
    assert!(text_le("z", "é"));
}

#[test]
fn ascii_case_is_ignored_and_nothing_else() {
    assert!(eq_ignore_ascii_case(&chars_of("MaLe"), "MALE"));
    assert!(eq_ignore_ascii_case(&chars_of("f"), "F"));
    assert!(!eq_ignore_ascii_case(&chars_of("fe"), "F"));
    assert!(!eq_ignore_ascii_case(&chars_of("É"), "é"));
    assert!(!eq_ignore_ascii_case(&chars_of("@"), "`"));
    assert!(!eq_ignore_ascii_case(&chars_of("["), "{"));
}

#[test]
fn leading_year_needs_four_digits() {
    assert_eq!(parse_leading_year("19800101"), Some(1980));
    assert_eq!(parse_leading_year("2024"), Some(2024));
    assert_eq!(parse_leading_year("0007x"), Some(7));
    assert_eq!(parse_leading_year("198"), None);
    assert_eq!(parse_leading_year("+198"), None);
    assert_eq!(parse_leading_year("19a0"), None);
    assert_eq!(parse_leading_year("١٩٨٠0101"), None);
    assert_eq!(parse_leading_year(""), None);
}

#[test]
fn same_text_compares_whole_texts() {
    assert!(same_text("code", "code"));
    assert!(!same_text("code", "Code"));
    assert!(!same_text("code", "codes"));
    assert!(same_text("", ""));
}

#[test]
fn has_text_looks_for_a_whole_element() {
    let path = vec!["clinicaldocument".to_string(), "patientrole".to_string()];
    assert!(has_text(&path, "patientrole"));
    assert!(!has_text(&path, "patient"));
    assert!(!has_text(&Vec::new(), "patient"));
}
