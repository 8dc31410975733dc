use poll_registry::error::PollError;
use poll_registry::options::{insert_label, parse_options};
use poll_registry::order::label_lt;
use poll_registry::text::{char_is_space, same_text, to_chars, trim_range};

fn parsed(raw: &str) -> Vec<String> {
    parse_options(raw).expect("the input names a label")
}

#[test]
fn repeated_and_empty_entries_collapse() {
    assert_eq!(parsed("b,a,a,,b"), vec!["a".to_string(), "b".to_string()]);
}

#[test]
fn single_option() {
    assert_eq!(parsed("yes"), vec!["yes".to_string()]);
}

#[test]
fn options_come_out_in_dictionary_order() {
    assert_eq!(
        parsed("pear,apple,fig,banana"),
        vec!["apple".to_string(), "banana".to_string(), "fig".to_string(), "pear".to_string()]
    );
}

#[test]
fn upper_case_sorts_before_lower_case() {
    assert_eq!(
        parsed("b,a,B,ab,A"),
        vec!["A".to_string(), "B".to_string(), "a".to_string(), "ab".to_string(), "b".to_string()]
    );
}

#[test]
fn a_prefix_sorts_before_its_extensions() {
    assert_eq!(
        parsed("abc,ab,a,abcd"),
        vec!["a".to_string(), "ab".to_string(), "abc".to_string(), "abcd".to_string()]
    );
}

#[test]
fn entries_are_trimmed() {
    assert_eq!(parsed("  b , a\t,\na "), vec!["a".to_string(), "b".to_string()]);
}

#[test]
fn inner_white_space_stays() {
    assert_eq!(parsed(" red wine , white wine "), vec![
        "red wine".to_string(),
        "white wine".to_string()
    ]);
}

#[test]
fn entries_of_white_space_are_dropped() {
    assert_eq!(parsed("a, ,\t,b,   "), vec!["a".to_string(), "b".to_string()]);
}

#[test]
fn unicode_white_space_is_trimmed() {
    assert_eq!(parsed("\u{a0}a\u{3000},\u{2003}b\u{2028}"), vec!["a".to_string(), "b".to_string()]);
}

#[test]
fn non_ascii_labels_sort_by_scalar_value() {
    assert_eq!(
        parsed("é,z,e,\u{1F600},\u{FFFD}"),
        vec![
            "e".to_string(),
            "z".to_string(),
            "é".to_string(),
            "\u{FFFD}".to_string(),
            "\u{1F600}".to_string()
        ]
    );
}

#[test]
fn empty_input_names_no_option() {
    assert_eq!(parse_options(""), Err(PollError::NoOptions));
}

#[test]
fn commas_alone_name_no_option() {
    assert_eq!(parse_options(",,,"), Err(PollError::NoOptions));
}

#[test]
fn white_space_alone_names_no_option() {
    assert_eq!(parse_options("  , \t ,\n"), Err(PollError::NoOptions));
}

#[test]
fn order_and_repetition_of_tokens_do_not_matter() {
    let expected = parsed("a,b,c");
    for raw in ["c,b,a", "b,a,c", "a,,b,,c", ",c,a,b,", "a,b,c,a,b,c", "c,c,c,b,a"] {
        assert_eq!(parsed(raw), expected, "input {:?}", raw);
    }
}

#[test]
fn parsing_agrees_with_sort_and_dedup() {
    let inputs = [
        "b,a,a,,b",
        "zeta,alpha, beta ,alpha,gamma,,delta",
        "10,9,1,2,100",
        " x ,x, x,x ",
        "Ab,aB,AB,ab",
        "one",
    ];
    for raw in inputs {
        let mut expected: Vec<String> =
            raw.split(',').map(|s| s.trim().to_string()).filter(|s| !s.is_empty()).collect();
        expected.sort();
        expected.dedup();
        assert_eq!(parsed(raw), expected, "input {:?}", raw);
    }
}

#[test]
fn white_space_is_what_std_calls_white_space() {
    for code in 0u32..=0x10FFFF {
        if let Some(c) = char::from_u32(code) {
            assert_eq!(char_is_space(c), c.is_whitespace(), "U+{:04X}", code);
        }
    }
}

#[test]
fn label_order_is_the_order_of_strings() {
    let samples = ["", "a", "A", "ab", "abc", "b", "ba", "é", "z", "\u{1F600}", "\u{FFFD}", "a b"];
    for a in samples {
        for b in samples {
            assert_eq!(label_lt(a, b), a < b, "{:?} < {:?}", a, b);
            assert_eq!(same_text(a, b), a == b, "{:?} == {:?}", a, b);
        }
    }
}

#[test]
fn to_chars_gives_each_character() {
    assert_eq!(to_chars("aé\u{1F600}"), vec!['a', 'é', '\u{1F600}']);
    assert_eq!(to_chars(""), Vec::<char>::new());
}

#[test]
fn trim_range_bounds_the_trimmed_piece() {
    let chars = to_chars("x,  ab c \t,y");
    assert_eq!(trim_range(&chars, 2, 10), (4, 8));
    assert_eq!(trim_range(&chars, 0, 1), (0, 1));
    let blank = to_chars("   ");
    let (lo, hi) = trim_range(&blank, 0, 3);
    assert_eq!(lo, hi);
}

#[test]
fn insert_label_keeps_the_list_ascending() {
    let mut list: Vec<String> = Vec::new();
    for label in ["m", "c", "x", "c", "a", "m", "z"] {
        insert_label(&mut list, label.to_string());
    }
    assert_eq!(
        list,
        vec!["a".to_string(), "c".to_string(), "m".to_string(), "x".to_string(), "z".to_string()]
    );
}
