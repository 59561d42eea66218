use vxl::{
    address, boolean, identifier, line_comment, number, numeric, percentage, single_line_string,
    string, Decimal, Node, Outcome, Source,
    Token, N,
};

fn read(f: fn(&Source, usize) -> Outcome, input: &str) -> Option<(Token, usize)> {
    let src = Source::new(input);
    match f(&src, 0) {
        Outcome::Done(n, j) => Some((n.token, j)),
        _ => None,
    }
}

fn whole(f: fn(&Source, usize) -> Outcome, input: &str) -> Token {
    let src = Source::new(input);
    match f(&src, 0) {
        Outcome::Done(n, j) => {
            assert_eq!(j, src.len(), "input {:?} not read to its end", input);
            n.token
        }
        _ => panic!("input {:?} did not parse", input),
    }
}

fn dec(mantissa: i128, scale: u32) -> N {
    N::Decimal(Decimal { mantissa, scale })
}

fn ident(s: &str) -> Token {
    Token::Identifier(String::from(s))
}

#[test]
fn test_n() {
    let cases: Vec<(&str, N)> = vec![
        ("1.23", dec(123, 2)),
        ("47", N::Int(47)),
        ("17.3809", dec(173809, 4)),
        ("17892037", N::Int(17892037)),
        ("1_0", N::Int(10)),
        ("1_000_000_00", N::Int(100000000)),
        ("1_000.0_100_001", dec(10000100001, 7)),
        ("-38", N::Int(-38)),
        ("-471.399", dec(-471399, 3)),
        ("1.7e8", N::Int(170000000)),
        ("-17E10", N::Int(-170000000000)),
        ("8.6e-6", dec(86, 7)),
        ("1e-4", dec(1, 4)),
        ("-1e-4", dec(-1, 4)),
        ("-1_000e-4", dec(-1000, 4)),
        ("-1e0_1", N::Int(-10)),
        ("0.333333333333333334", dec(333333333333333334, 18)),
    ];
    for (input, expected) in cases {
        assert_eq!(whole(numeric, input), Token::Number(expected), "input {:?}", input);
    }
}

#[test]
fn test_percentage() {
    let cases: Vec<(&str, N)> = vec![
        ("1.23%", dec(123, 2)),
        ("47%", N::Int(47)),
        ("1_000.0_100_001%", dec(10000100001, 7)),
        ("-38%", N::Int(-38)),
        ("1.7e8%", N::Int(170000000)),
        ("-17E10%", N::Int(-170000000000)),
        ("8.6e-6%", dec(86, 7)),
        ("-1e0_1%", N::Int(-10)),
        ("0.3333333333333333%", dec(3333333333333333, 16)),
    ];
    for (input, expected) in cases {
        assert_eq!(whole(numeric, input), Token::Percentage(expected), "input {:?}", input);
    }
}

#[test]
fn percentage_needs_adjacent_sign() {
    assert_eq!(whole(numeric, "3%"), Token::Percentage(N::Int(3)));
    assert_eq!(read(numeric, "3 %"), Some((Token::Number(N::Int(3)), 1)));
}

#[test]
fn underscores_group_digits() {
    assert_eq!(whole(numeric, "1_000_000_00"), whole(numeric, "100000000"));
    assert_eq!(whole(numeric, "1_2.3_4"), whole(numeric, "12.34"));
}

#[test]
fn exponent_keeps_or_narrows() {
    assert_eq!(whole(numeric, "12e3"), Token::Number(N::Int(12000)));
    assert_eq!(whole(numeric, "12e-3"), Token::Number(dec(12, 3)));
    assert_eq!(whole(numeric, "1.5e1"), Token::Number(N::Int(15)));
    assert_eq!(whole(numeric, "1.25e1"), Token::Number(dec(1250, 2)));
    assert_eq!(whole(numeric, "0e400"), Token::Number(N::Int(0)));
}

#[test]
fn integer_text_round_trips() {
    for n in [0i64, 7, 42, 1_000_000, i64::MAX, -1, -38, i64::MIN + 1, i64::MIN] {
        let text = n.to_string();
        assert_eq!(whole(numeric, &text), Token::Number(N::Int(n)), "input {:?}", text);
        let with_fraction = format!("{}.0", n);
        assert_eq!(
            whole(numeric, &with_fraction),
            Token::Number(dec(n as i128 * 10, 1)),
            "input {:?}",
            with_fraction
        );
    }
}

#[test]
fn numbers_too_large_abort() {
    let src = Source::new("99999999999999999999999999999999");
    assert!(matches!(numeric(&src, 0), Outcome::Fail(0)));
    let src = Source::new("1e99999999999999999999");
    assert!(matches!(numeric(&src, 0), Outcome::Fail(0)));
    let src = Source::new("5e19");
    assert!(matches!(numeric(&src, 0), Outcome::Fail(0)));
    let src = Source::new("1e-29");
    assert!(matches!(numeric(&src, 0), Outcome::Fail(0)));
}

#[test]
fn integers_beyond_i64_abort() {
    let src = Source::new("9223372036854775808");
    assert!(matches!(numeric(&src, 0), Outcome::Fail(0)));
    let src = Source::new("-9223372036854775809");
    assert!(matches!(numeric(&src, 0), Outcome::Fail(0)));
    assert_eq!(whole(numeric, "-9223372036854775808"), Token::Number(N::Int(i64::MIN)));
    assert_eq!(whole(numeric, "-9223372036854775808e0"), Token::Number(N::Int(i64::MIN)));
}

#[test]
fn number_not_followed_by_letter() {
    assert_eq!(read(numeric, "1inch"), None);
    assert_eq!(read(numeric, "11abc"), None);
    assert_eq!(read(numeric, "1e"), None);
    assert_eq!(read(numeric, "1e5x"), None);
    assert_eq!(read(numeric, "1.5e"), None);
}

#[test]
fn digit_runs_end_with_digits() {
    assert_eq!(read(numeric, "1_"), None);
    assert_eq!(read(numeric, "1._5"), None);
    assert_eq!(read(numeric, "1.5_"), None);
    assert_eq!(read(numeric, "1e5_"), None);
    assert_eq!(whole(numeric, "1_2.3_4e1_0"), Token::Number(N::Int(123400000000)));
}

#[test]
fn zero_past_the_largest_scale() {
    assert_eq!(whole(numeric, "0e-30"), Token::Number(dec(0, 28)));
    assert_eq!(whole(numeric, "0.0e-30"), Token::Number(dec(0, 28)));
    let src = Source::new("1e-30");
    assert!(matches!(numeric(&src, 0), Outcome::Fail(0)));
}

#[test]
fn test_boolean() {
    assert_eq!(whole(boolean, "true"), Token::Boolean(true));
    assert_eq!(whole(boolean, "false"), Token::Boolean(false));
    assert_eq!(whole(boolean, "TRUE"), Token::Boolean(true));
    assert_eq!(whole(boolean, "False"), Token::Boolean(false));
    assert_eq!(read(boolean, "tru"), None);
}

#[test]
fn test_identifier() {
    let cases = [
        ("test", "test"),
        ("TEST_LOWERCASING", "test_lowercasing"),
        ("test_with_underscores", "test_with_underscores"),
        ("test-with-dashes", "test-with-dashes"),
        ("test-14_with_numbers", "test-14_with_numbers"),
        ("1test", "1test"),
        ("a", "a"),
        ("a_", "a_"),
        ("1a", "1a"),
        ("1foo", "1foo"),
        ("1inch", "1inch"),
        ("_fun", "_fun"),
    ];
    for (input, expected) in cases {
        assert_eq!(whole(identifier, input), ident(expected), "input {:?}", input);
    }
}

#[test]
fn identifier_case_folds() {
    assert_eq!(whole(identifier, "TEST_1"), whole(identifier, "test_1"));
    assert_eq!(whole(identifier, "TEST_1"), ident("test_1"));
}

#[test]
fn test_identifier_invalid() {
    for input in ["1_", "11abc", "11111a", "", "-a"] {
        assert_eq!(read(identifier, input), None, "input {:?}", input);
    }
    assert_eq!(read(identifier, "1foo1"), Some((ident("1foo"), 4)));
}

#[test]
fn test_address_valid() {
    let a = "0xcac725bef4f114f728cbcfd744a731c2a463c3fc";
    assert_eq!(whole(address, a), Token::Address(String::from(a)));
    let b = "0XCAC725BEF4F114F728CBCFD744A731C2A463C3FC";
    assert_eq!(whole(address, b), Token::Address(String::from(b)));
}

#[test]
fn test_address_invalid() {
    for input in ["", "0x", "0X", "0xcac725bef4f114f7a463c3fc", "0xcac725bef4f114f728cbcfd744a731c2a463c3fg",
        "0xcac725bef4f114f728cbcfd744a731c2a463c3fc0",
    ] {
        assert_eq!(read(address, input), None, "input {:?}", input);
    }
}

#[test]
fn test_single_line_string() {
    let cases = [
        (r#""""#, ""),
        (r#""  ""#, "  "),
        (r#""hello there""#, "hello there"),
        (r#""with numbers 1 2 3""#, "with numbers 1 2 3"),
        (r#""escaped \"""#, "escaped \\\""),
        (r#""escaped \n""#, "escaped \\n"),
    ];
    for (input, expected) in cases {
        assert_eq!(whole(string, input), Token::String(String::from(expected)), "input {:?}", input);
    }
}

#[test]
fn strings_that_fail() {
    for input in ["\"open", "\"two\nlines\"", "\"bad \\q escape\"", "plain"] {
        assert_eq!(read(string, input), None, "input {:?}", input);
    }
}

#[test]
fn string_node_is_at_its_quote() {
    let src = Source::new("\"abc\"");
    match string(&src, 0) {
        Outcome::Done(Node { offset, column, .. }, 5) => {
            assert_eq!(offset, 0);
            assert_eq!(column, 1);
        }
        _ => panic!("string did not parse"),
    }
}

#[test]
fn test_line_comment() {
    assert_eq!(whole(line_comment, "# this is a comment"), Token::LineComment(String::from("this is a comment")));
    assert_eq!(whole(line_comment, "#this is a comment"), Token::LineComment(String::from("this is a comment")));
}

#[test]
fn test_number() {
    assert_eq!(whole(number, "-471.399"), Token::Number(dec(-471399, 3)));
    assert_eq!(read(number, "3%"), Some((Token::Number(N::Int(3)), 1)));
    assert_eq!(whole(percentage, "3%"), Token::Percentage(N::Int(3)));
    assert_eq!(read(percentage, "3"), None);
}

#[test]
fn test_strings() {
    assert_eq!(whole(single_line_string, r#""single line string""#), Token::String(String::from("single line string")));
    assert_eq!(whole(string, r#""""#), Token::String(String::new()));
    assert_eq!(read(string, "x"), None);
}

#[test]
fn sign_applies_to_the_whole_value() {
    assert_eq!(whole(numeric, "+5"), Token::Number(N::Int(5)));
    assert_eq!(whole(numeric, "+1.5"), Token::Number(dec(15, 1)));
    assert_eq!(whole(numeric, "-1.5e1"), Token::Number(N::Int(-15)));
    assert_eq!(whole(numeric, "-1.25e1"), Token::Number(dec(-1250, 2)));
    assert_eq!(whole(numeric, "-12e-3"), Token::Number(dec(-12, 3)));
}

#[test]
fn from_str_reads_large_integer_text_as_decimal() {
    let big: i128 = 1 << 70;
    assert_eq!(N::from_str(&big.to_string()), Ok(N::Decimal(Decimal { mantissa: big, scale: 0 })));
    assert_eq!(N::from_str(&(-big).to_string()), Ok(N::Decimal(Decimal { mantissa: -big, scale: 0 })));
    let d = Decimal { mantissa: big, scale: 0 };
    assert_eq!(N::from_str(&d.to_text()).map(|n| n.to_text()), Ok(d.to_text()));
    assert!(N::from_str("99999999999999999999999999999999").is_err());
    assert!(N::from_str("-").is_err());
    assert_eq!(N::from_str("-42"), Ok(N::Int(-42)));
}
