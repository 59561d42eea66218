use vxl::{console_log_build_info, numeric, BuildInfo, Decimal, Node, Outcome, Source, Token, N};

fn dec(mantissa: i128, scale: u32) -> N {
    N::Decimal(Decimal { mantissa, scale })
}

#[test]
fn test_serialize() {
    let cases: Vec<(N, &str, &str)> = vec![
        (N::Int(47), "int", "47"),
        (N::Int(17892037), "int", "17892037"),
        (N::Int(-38), "int", "-38"),
        (N::Int(170000000), "int", "170000000"),
        (N::Int(-170000000000), "int", "-170000000000"),
        (N::Int(10), "int", "10"),
        (N::Int(-10), "int", "-10"),
        (N::Int(0), "int", "0"),
        (N::Int(i64::MIN), "int", "-9223372036854775808"),
        (dec(1, 0), "decimal", "1"),
        (dec(10, 1), "decimal", "1.0"),
        (dec(100, 2), "decimal", "1.00"),
        (dec(123, 2), "decimal", "1.23"),
        (dec(173809, 4), "decimal", "17.3809"),
        (dec(-471399, 3), "decimal", "-471.399"),
        (dec(8599999999999999, 21), "decimal", "0.000008599999999999999"),
        (dec(3333333333333333333333333333, 28), "decimal", "0.3333333333333333333333333333"),
        (dec(-123, 7), "decimal", "-0.0000123"),
        (dec(-100000000123, 7), "decimal", "-10000.0000123"),
    ];
    for (n, kind, text) in cases {
        assert_eq!(n.kind(), kind);
        assert_eq!(n.to_text(), text);
    }
}

#[test]
fn decimal_text_reads_back() {
    for d in [
        Decimal { mantissa: 10, scale: 1 },
        Decimal { mantissa: -123, scale: 7 },
        Decimal { mantissa: 3333333333333333333333333333, scale: 28 },
    ] {
        let text = d.to_text();
        let src = Source::new(&text);
        match numeric(&src, 0) {
            Outcome::Done(n, j) => {
                assert_eq!(j, src.len());
                assert_eq!(n.token, Token::Number(N::Decimal(d)));
            }
            _ => panic!("{} did not read back", text),
        }
    }
}

#[test]
fn scale_zero_text_reads_as_integer() {
    let src = Source::new(&Decimal { mantissa: -42, scale: 0 }.to_text());
    assert!(matches!(numeric(&src, 0), Outcome::Done(Node { token: Token::Number(N::Int(-42)), .. }, 3)));
    let src = Source::new(&Decimal { mantissa: 9223372036854775808, scale: 0 }.to_text());
    assert!(matches!(numeric(&src, 0), Outcome::Fail(0)));
}

#[test]
fn build_info_line() {
    let info = BuildInfo {
        git_sha: String::from("abc1234"),
        build_timestamp: String::from("2021-06-01T00:00:00Z"),
        build_semver: String::from("0.1.0"),
        profile: String::from("release"),
    };
    assert_eq!(
        console_log_build_info(&info),
        "VXL BuildInfo { git_sha: \"abc1234\", build_timestamp: \"2021-06-01T00:00:00Z\", build_semver: \"0.1.0\", profile: \"release\" }"
    );
    let quoted = BuildInfo {
        git_sha: String::from("a\"b"),
        build_timestamp: String::new(),
        build_semver: String::new(),
        profile: String::new(),
    };
    assert_eq!(
        console_log_build_info(&quoted),
        "VXL BuildInfo { git_sha: \"a\\\"b\", build_timestamp: \"\", build_semver: \"\", profile: \"\" }"
    );
    assert_eq!(info.git_sha(), "abc1234");
    assert_eq!(info.profile(), "release");
}
