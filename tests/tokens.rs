use vxl::{Token, Operator};

#[test]
fn as_identifier() {
    assert_eq!(Token::Identifier(String::from("test_ident")).as_identifier(), Some("test_ident"));
}

#[test]
fn as_boolean() {
    let t = Token::Boolean(true);
    assert_eq!(t.as_boolean(), Some(true));
    assert_eq!(t.as_true(), Some(()));

    let f = Token::Boolean(false);
    assert_eq!(f.as_boolean(), Some(false));
    assert_eq!(f.as_false(), Some(()));
}

#[test]
fn operator_symbols_round_trip() {
    for op in [Operator::Plus, Operator::NotIn, Operator::FullSplat, Operator::Pipe, Operator::Elipsis] {
        assert_eq!(Operator::from_symbol(op.symbol()), Ok(op));
    }
    assert!(Operator::from_symbol("<>").is_err());
}
