use xml_to_tree::scalar::{float_check, parse_boolean, parse_integer};
use xml_to_tree::text::{chars_of, same_text};
use xml_to_tree::xml_node::Primitive;

fn text(s: &str) -> Primitive {
    Primitive::String(s.to_string())
}

fn float(s: &str) -> Primitive {
    Primitive::Float(s.to_string())
}

#[test]
fn coerce_integer() {
    assert_eq!(Primitive::parse("42"), Primitive::Integer(42));
}

#[test]
fn coerce_float() {
    assert_eq!(Primitive::parse("4.2"), float("4.2"));
    match Primitive::parse("4.2") {
        Primitive::Float(written) => assert_eq!(written.parse::<f64>().unwrap(), 4.2),
        other => panic!("not a float: {:?}", other),
    }
}

#[test]
fn coerce_boolean() {
    assert_eq!(Primitive::parse("true"), Primitive::Boolean(true));
    assert_eq!(Primitive::parse("false"), Primitive::Boolean(false));
}

#[test]
fn coerce_empty_string() {
    assert_eq!(Primitive::parse(""), text(""));
}

#[test]
fn coerce_falls_back_to_the_text() {
    assert_eq!(Primitive::parse("42x"), text("42x"));
    assert_eq!(Primitive::parse("hello world"), text("hello world"));
    assert_eq!(Primitive::parse("TRUE"), text("TRUE"));
    assert_eq!(Primitive::parse("True"), text("True"));
    assert_eq!(Primitive::parse(" 42"), text(" 42"));
    assert_eq!(Primitive::parse("42 "), text("42 "));
    assert_eq!(Primitive::parse("0x10"), text("0x10"));
    assert_eq!(Primitive::parse("1_000"), text("1_000"));
    assert_eq!(Primitive::parse("é"), text("é"));
    assert_eq!(Primitive::parse("٤٢"), text("٤٢"));
}

#[test]
fn integer_signs_and_leading_zeros() {
    assert_eq!(Primitive::parse("+5"), Primitive::Integer(5));
    assert_eq!(Primitive::parse("-5"), Primitive::Integer(-5));
    assert_eq!(Primitive::parse("-0"), Primitive::Integer(0));
    assert_eq!(Primitive::parse("007"), Primitive::Integer(7));
    assert_eq!(Primitive::parse("0"), Primitive::Integer(0));
    assert_eq!(
        Primitive::parse("00000000000000000000000000000012"),
        Primitive::Integer(12)
    );
}

#[test]
fn integer_range_is_32_bits() {
    assert_eq!(Primitive::parse("2147483647"), Primitive::Integer(i32::MAX));
    assert_eq!(Primitive::parse("-2147483648"), Primitive::Integer(i32::MIN));
    assert_eq!(Primitive::parse("+2147483647"), Primitive::Integer(i32::MAX));
    assert_eq!(Primitive::parse("2147483648"), float("2147483648"));
    assert_eq!(Primitive::parse("-2147483649"), float("-2147483649"));
    assert_eq!(
        Primitive::parse("99999999999999999999999999"),
        float("99999999999999999999999999")
    );
}

#[test]
fn a_sign_alone_is_text() {
    assert_eq!(Primitive::parse("+"), text("+"));
    assert_eq!(Primitive::parse("-"), text("-"));
    assert_eq!(Primitive::parse("+-1"), text("+-1"));
    assert_eq!(Primitive::parse("--1"), text("--1"));
}

#[test]
fn float_forms() {
    for written in [
        "1.", ".5", "1.5", "-1.5", "+1.5", "1e5", "1E5", "1e+5", "1e-5", "1.e5", ".5e5", "-.5",
        "inf", "INF", "Inf", "-inf", "+inf", "infinity", "Infinity", "-INFINITY", "nan", "NaN",
        "-nan", "+NAN", "0.0", "-0.0", "1e400", "1e-400", "00.5",
    ] {
        assert!(written.parse::<f64>().is_ok(), "{:?}", written);
        assert_eq!(Primitive::parse(written), float(written), "{:?}", written);
    }
}

#[test]
fn forms_that_are_no_float() {
    for written in [
        ".", "e5", "1e", "1e+", "1e-", "1e5.", "1.5.5", "1.5e5e5", "in", "infinit", "infinityy",
        "na", "nan1", "1nan", "+.", "-e1", "1 e5", "1,5", "1f", "1.0f64", "e", "E", "..", "1..",
    ] {
        assert!(written.parse::<f64>().is_err(), "{:?}", written);
        assert_eq!(Primitive::parse(written), text(written), "{:?}", written);
    }
}

fn expected(written: &str) -> Primitive {
    if let Ok(value) = written.parse::<i32>() {
        Primitive::Integer(value)
    } else if written.parse::<f64>().is_ok() {
        Primitive::Float(written.to_string())
    } else if let Ok(value) = written.parse::<bool>() {
        Primitive::Boolean(value)
    } else {
        Primitive::String(written.to_string())
    }
}

#[test]
fn coerce_agrees_with_the_standard_parsers() {
    let alphabet = ['0', '1', '9', '+', '-', '.', 'e', 'E', 'i', 'n', 'f', 'a', ' ', 'N'];
    let mut words: Vec<String> = vec![String::new()];
    let mut start = 0;
    for _ in 0..5 {
        let end = words.len();
        for i in start..end {
            for c in alphabet {
                let mut word = words[i].clone();
                word.push(c);
                words.push(word);
            }
        }
        start = end;
    }
    assert_eq!(words.len(), 1 + 14 + 196 + 2744 + 38416 + 537824);
    for word in &words {
        assert_eq!(Primitive::parse(word), expected(word), "{:?}", word);
    }
}

#[test]
fn coerce_agrees_with_the_standard_parsers_on_long_words() {
    let stems = [
        "infinity", "INFINITY", "iNfInItY", "infinitx", "nfinity", "true", "false", "truee",
        "fals", "2147483647", "2147483648", "-2147483648", "-2147483649", "1e10", "1E-10",
        "123456789012", "0.000000001", "12.5e+3", "12.5e+", "tru", "t", "f",
    ];
    for stem in stems {
        for prefix in ["", "+", "-", " ", "0"] {
            for suffix in ["", "0", ".", "e1", " ", "y"] {
                let word = format!("{}{}{}", prefix, stem, suffix);
                assert_eq!(Primitive::parse(&word), expected(&word), "{:?}", word);
            }
        }
    }
}

#[test]
fn integer_reader() {
    assert_eq!(parse_integer(&chars_of("42")), Some(42));
    assert_eq!(parse_integer(&chars_of("-17")), Some(-17));
    assert_eq!(parse_integer(&chars_of("")), None);
    assert_eq!(parse_integer(&chars_of("4.2")), None);
    assert_eq!(parse_integer(&chars_of("4294967296")), None);
}

#[test]
fn float_recognizer() {
    assert!(float_check(&chars_of("4.2")));
    assert!(float_check(&chars_of("42")));
    assert!(!float_check(&chars_of("")));
    assert!(!float_check(&chars_of("4.2.1")));
}

#[test]
fn boolean_reader() {
    assert_eq!(parse_boolean(&chars_of("true")), Some(true));
    assert_eq!(parse_boolean(&chars_of("false")), Some(false));
    assert_eq!(parse_boolean(&chars_of("yes")), None);
    assert_eq!(parse_boolean(&chars_of("")), None);
}

#[test]
fn characters_of_a_string() {
    assert_eq!(chars_of("aé€"), vec!['a', 'é', '€']);
    assert_eq!(chars_of(""), Vec::<char>::new());
}

#[test]
fn strings_compare_by_their_characters() {
    assert!(same_text("abc", "abc"));
    assert!(same_text("", ""));
    assert!(!same_text("abc", "abd"));
    assert!(!same_text("abc", "ab"));
    assert!(same_text("é", "é"));
    assert!(!same_text("$", "_"));
}
