use vxl::{
    attribute, Attribute,
    expr_term, expression, function, if_statement, list, parse, BinaryOp, Conditional, Decimal,
    ErrorKind, ForLoop, Function, Node, ObjectItem, Operator, Opt, Outcome, Source, Token,
    UnaryOp, N,
};

fn strip(n: Node) -> Node {
    Node { offset: 0, line: 0, column: 0, token: strip_token(n.token) }
}

fn strip_box(b: Box<Node>) -> Box<Node> {
    Box::new(strip(*b))
}

fn strip_opt(b: Option<Box<Node>>) -> Option<Box<Node>> {
    b.map(strip_box)
}

fn strip_all(v: Vec<Node>) -> Vec<Node> {
    v.into_iter().map(strip).collect()
}

fn strip_token(t: Token) -> Token {
    match t {
        Token::Option(o) => Token::Option(Opt { key: strip_box(o.key), value: strip_box(o.value) }),
        Token::Function(f) => Token::Function(Function {
            name: strip_box(f.name),
            subfunction: strip_opt(f.subfunction),
            args: strip_all(f.args),
        }),
        Token::Conditional(c) => Token::Conditional(Conditional {
            condition: strip_box(c.condition),
            if_true: strip_box(c.if_true),
            if_false: strip_opt(c.if_false),
        }),
        Token::BinaryOp(b) => Token::BinaryOp(BinaryOp {
            operator: strip_box(b.operator),
            left: strip_box(b.left),
            right: strip_box(b.right),
        }),
        Token::UnaryOp(u) => Token::UnaryOp(UnaryOp {
            operator: strip_box(u.operator),
            operand: strip_box(u.operand),
        }),
        Token::List(items) => Token::List(strip_all(items)),
        Token::Attribute(a) => Token::Attribute(Attribute { ident: strip_box(a.ident), expr: strip_box(a.expr) }),
        Token::ForLoop(ForLoop::Tuple { binds, expr, body, cond }) => Token::ForLoop(ForLoop::Tuple {
            binds: strip_all(binds),
            expr: strip_box(expr),
            body: strip_box(body),
            cond: strip_opt(cond),
        }),
        Token::ForLoop(ForLoop::Object { binds, expr, body, cond, grouping }) => {
            Token::ForLoop(ForLoop::Object {
                binds: strip_all(binds),
                expr: strip_box(expr),
                body: Box::new(ObjectItem { key: strip_box(body.key), val: strip_box(body.val) }),
                cond: strip_opt(cond),
                grouping,
            })
        }
        other => other,
    }
}

fn node(t: Token) -> Node {
    Node { offset: 0, line: 0, column: 0, token: t }
}

fn bx(t: Token) -> Box<Node> {
    Box::new(node(t))
}

fn ident(s: &str) -> Token {
    Token::Identifier(String::from(s))
}

fn num(i: i64) -> Token {
    Token::Number(N::Int(i))
}

fn decimal(mantissa: i128, scale: u32) -> Token {
    Token::Number(N::Decimal(Decimal { mantissa, scale }))
}

fn pct(i: i64) -> Token {
    Token::Percentage(N::Int(i))
}

fn boolean(b: bool) -> Token {
    Token::Boolean(b)
}

fn string(s: &str) -> Token {
    Token::String(String::from(s))
}

fn op(o: Operator) -> Token {
    Token::Operator(o)
}

fn sym(s: &str) -> Operator {
    Operator::from_symbol(s).unwrap()
}

fn bin(l: Token, o: &str, r: Token) -> Token {
    Token::BinaryOp(BinaryOp { operator: bx(op(sym(o))), left: bx(l), right: bx(r) })
}

fn un(o: &str, x: Token) -> Token {
    Token::UnaryOp(UnaryOp { operator: bx(op(sym(o))), operand: bx(x) })
}

fn neg(x: Token) -> Token {
    un("-", x)
}

fn func(name: &str, sub: Option<&str>, args: Vec<Token>) -> Token {
    Token::Function(Function {
        name: bx(ident(name)),
        subfunction: sub.map(|s| bx(ident(s))),
        args: args.into_iter().map(node).collect(),
    })
}

fn opt(key: &str, value: Token) -> Token {
    Token::Option(Opt { key: bx(ident(key)), value: bx(value) })
}

fn cond(c: Token, t: Token, f: Option<Token>) -> Token {
    Token::Conditional(Conditional { condition: bx(c), if_true: bx(t), if_false: f.map(bx) })
}

fn list_of(items: Vec<Token>) -> Token {
    Token::List(items.into_iter().map(node).collect())
}

fn whole(f: fn(&Source, usize, usize) -> Outcome, input: &str) -> Token {
    let src = Source::new(input);
    match f(&src, 0, 128) {
        Outcome::Done(n, j) => {
            assert_eq!(j, src.len(), "input {:?} not read to its end", input);
            strip(n).token
        }
        Outcome::Miss => panic!("input {:?} did not match", input),
        Outcome::Fail(p) => panic!("input {:?} aborted at {}", input, p),
    }
}

fn program(input: &str) -> Vec<Token> {
    match parse(input) {
        Ok(tree) => tree.into_iter().map(|n| strip(n).token).collect(),
        Err(e) => panic!("input {:?} failed: {:?}", input, e),
    }
}

#[test]
fn test_function() {
    let cases: Vec<(&str, Token)> = vec![
        ("fun()", func("fun", None, vec![])),
        ("_fun()", func("_fun", None, vec![])),
        ("fun.sub()", func("fun", Some("sub"), vec![])),
        ("FuN.sUB()", func("fun", Some("sub"), vec![])),
        (
            "fun(1, 2%, false, none, 1dent)",
            func("fun", None, vec![num(1), pct(2), boolean(false), Token::NoneValue, ident("1dent")]),
        ),
        ("fun.sub(1, 2, 3)", func("fun", Some("sub"), vec![num(1), num(2), num(3)])),
        ("fun.sub( 1 , 2 , 3 )", func("fun", Some("sub"), vec![num(1), num(2), num(3)])),
        ("_fun.sub(1, 2%, 3)", func("_fun", Some("sub"), vec![num(1), pct(2), num(3)])),
        ("foo(false)", func("foo", None, vec![boolean(false)])),
        ("foo(!false)", func("foo", None, vec![un("!", boolean(false))])),
        ("foo(-bar)", func("foo", None, vec![neg(ident("bar"))])),
        ("fun(1, foo=123)", func("fun", None, vec![num(1), opt("foo", num(123))])),
        (
            "fun.sub(1.0, foo=fun2.sub(\"thing\", foo2=fun3(false)))",
            func(
                "fun",
                Some("sub"),
                vec![
                    decimal(10, 1),
                    opt(
                        "foo",
                        func(
                            "fun2",
                            Some("sub"),
                            vec![string("thing"), opt("foo2", func("fun3", None, vec![boolean(false)]))],
                        ),
                    ),
                ],
            ),
        ),
        (
            "fun.sub(123, foo=321, bar=false, baz=\"a test string\", faz=test, foz=-1_000.12%)",
            func(
                "fun",
                Some("sub"),
                vec![
                    num(123),
                    opt("foo", num(321)),
                    opt("bar", boolean(false)),
                    opt("baz", string("a test string")),
                    opt("faz", ident("test")),
                    opt("foz", Token::Percentage(N::Decimal(Decimal { mantissa: -100012, scale: 2 }))),
                ],
            ),
        ),
        (
            "fun.sub(123, 0xcac725bef4f114f728cbcfd744a731c2a463c3fc, 0x)",
            func(
                "fun",
                Some("sub"),
                vec![
                    num(123),
                    Token::Address(String::from("0xcac725bef4f114f728cbcfd744a731c2a463c3fc")),
                    ident("0x"),
                ],
            ),
        ),
        ("fun((1 + 1))", func("fun", None, vec![bin(num(1), "+", num(1))])),
        ("fun(1 + 1)", func("fun", None, vec![bin(num(1), "+", num(1))])),
        ("fun(1 < 2)", func("fun", None, vec![bin(num(1), "<", num(2))])),
        ("fun.sub(1 * 100.0)", func("fun", Some("sub"), vec![bin(num(1), "*", decimal(1000, 1))])),
        (
            "fun.sub(fun2.sub(1 * 100.01) > 100.0)",
            func(
                "fun",
                Some("sub"),
                vec![bin(
                    func("fun2", Some("sub"), vec![bin(num(1), "*", decimal(10001, 2))]),
                    ">",
                    decimal(1000, 1),
                )],
            ),
        ),
        (
            "fun.sub(if(foo(), true, false))",
            func(
                "fun",
                Some("sub"),
                vec![cond(func("foo", None, vec![]), boolean(true), Some(boolean(false)))],
            ),
        ),
        (
            "fun.sub(foo() ? true : false)",
            func(
                "fun",
                Some("sub"),
                vec![cond(func("foo", None, vec![]), boolean(true), Some(boolean(false)))],
            ),
        ),
        ("fun.sub(\n          123\n        )", func("fun", Some("sub"), vec![num(123)])),
        (
            "fun.sub(\n\t123,\n\tfalse,\n\t\"vektor\",\n\tfoo() ? true : false)",
            func(
                "fun",
                Some("sub"),
                vec![
                    num(123),
                    boolean(false),
                    string("vektor"),
                    cond(func("foo", None, vec![]), boolean(true), Some(boolean(false))),
                ],
            ),
        ),
        ("fun(not_or_my_label)", func("fun", None, vec![ident("not_or_my_label")])),
        ("fun(not_and_or_my_label)", func("fun", None, vec![ident("not_and_or_my_label")])),
        ("fun(and_label)", func("fun", None, vec![ident("and_label")])),
        ("fun(or_my_label)", func("fun", None, vec![ident("or_my_label")])),
        ("fun(in_my_label)", func("fun", None, vec![ident("in_my_label")])),
        (
            "fun(not(not_my_label))",
            func("fun", None, vec![func("not", None, vec![ident("not_my_label")])]),
        ),
    ];
    for (input, expected) in cases {
        assert_eq!(whole(function, input), expected, "input {:?}", input);
    }
}

#[test]
fn function_spreads_last_argument() {
    assert_eq!(
        whole(function, "bar([1,2,3]...)"),
        func("bar", None, vec![un("...", list_of(vec![num(1), num(2), num(3)]))])
    );
    let src = Source::new("bar(a, b ...)");
    assert!(matches!(function(&src, 0, 128), Outcome::Miss));
    assert_eq!(
        whole(function, "bar(a, b...)"),
        func("bar", None, vec![ident("a"), un("...", ident("b"))])
    );
}

#[test]
fn end_to_end_function_call() {
    assert_eq!(
        program("fun.sub(123, foo=321, bar=false)"),
        vec![func(
            "fun",
            Some("sub"),
            vec![num(123), opt("foo", num(321)), opt("bar", boolean(false))]
        )]
    );
}

#[test]
fn end_to_end_conditional() {
    assert_eq!(
        program("if(2 >= 1, fun2(), fun3(opt=1))"),
        vec![cond(
            bin(num(2), ">=", num(1)),
            func("fun2", None, vec![]),
            Some(func("fun3", None, vec![opt("opt", num(1))]))
        )]
    );
}

#[test]
fn test_if_statement() {
    let cases: Vec<(&str, Token)> = vec![
        (
            "if(fun(), foo(), bar())",
            cond(func("fun", None, vec![]), func("foo", None, vec![]), Some(func("bar", None, vec![]))),
        ),
        ("If(fun(), foo())", cond(func("fun", None, vec![]), func("foo", None, vec![]), None)),
        (
            "if(true, foo(), bar())",
            cond(boolean(true), func("foo", None, vec![]), Some(func("bar", None, vec![]))),
        ),
        ("if(foo(), false)", cond(func("foo", None, vec![]), boolean(false), None)),
        (
            "if(((1 + 1) >= 2), foo(123))",
            cond(
                bin(bin(num(1), "+", num(1)), ">=", num(2)),
                func("foo", None, vec![num(123)]),
                None,
            ),
        ),
        ("if(true,\n              1,\n                2\n            )", cond(boolean(true), num(1), Some(num(2)))),
        (
            "if(\n\ttrue,\n\tfoo(),\n\tnone)",
            cond(boolean(true), func("foo", None, vec![]), Some(Token::NoneValue)),
        ),
    ];
    for (input, expected) in cases {
        assert_eq!(whole(if_statement, input), expected, "input {:?}", input);
    }
}

#[test]
fn test_unary_op() {
    let cases: Vec<(&str, Token)> = vec![
        ("!foo", un("!", ident("foo"))),
        ("not foo", un("!", ident("foo"))),
        ("-test", neg(ident("test"))),
        ("!test_func(13)", un("!", func("test_func", None, vec![num(13)]))),
        ("not test_func(13)", un("!", func("test_func", None, vec![num(13)]))),
        ("- 14", neg(num(14))),
        ("-14", neg(num(14))),
        ("!true", un("!", boolean(true))),
        ("not true", un("!", boolean(true))),
        ("![1, true, false]", un("!", list_of(vec![num(1), boolean(true), boolean(false)]))),
        ("not   [1, true, false]", un("!", list_of(vec![num(1), boolean(true), boolean(false)]))),
    ];
    for (input, expected) in cases {
        assert_eq!(whole(expression, input), expected, "input {:?}", input);
    }
}

#[test]
fn test_binary_op() {
    let l123 = || list_of(vec![num(1), num(2), num(3)]);
    let cases: Vec<(&str, Token)> = vec![
        ("1 > 2", bin(num(1), ">", num(2))),
        ("2 < false", bin(num(2), "<", boolean(false))),
        ("foo == bar", bin(ident("foo"), "==", ident("bar"))),
        ("baz != \"hello\"", bin(ident("baz"), "!=", string("hello"))),
        ("14.3 % 5", bin(decimal(143, 1), "%", num(5))),
        ("test * 7", bin(ident("test"), "*", num(7))),
        ("17 - 73", bin(num(17), "-", num(73))),
        ("bar + 18", bin(ident("bar"), "+", num(18))),
        ("1 ^ 10", bin(num(1), "^", num(10))),
        ("foo && bar", bin(ident("foo"), "&&", ident("bar"))),
        ("foo and bar", bin(ident("foo"), "&&", ident("bar"))),
        ("TRUE and FALSE", bin(boolean(true), "&&", boolean(false))),
        ("1 and 0", bin(num(1), "&&", num(0))),
        ("foo || bar", bin(ident("foo"), "||", ident("bar"))),
        ("foo or bar", bin(ident("foo"), "||", ident("bar"))),
        ("true or false", bin(boolean(true), "||", boolean(false))),
        ("foo && (bar || bar)", bin(ident("foo"), "&&", bin(ident("bar"), "||", ident("bar")))),
        (
            "var.foo == var.bar",
            bin(bin(ident("var"), ".", ident("foo")), "==", bin(ident("var"), ".", ident("bar"))),
        ),
        (
            r#"var.foo[3] + var.bar["test"]"#,
            bin(
                bin(bin(ident("var"), ".", ident("foo")), "[", num(3)),
                "+",
                bin(bin(ident("var"), ".", ident("bar")), "[", string("test")),
            ),
        ),
        ("[1, 2, 3] ++ [1, 2, 3]", bin(l123(), "++", l123())),
        ("[1, 2, 3] -- [1, 2, 3]", bin(l123(), "--", l123())),
        (
            "add(1, 2) |> add(3)",
            bin(func("add", None, vec![num(1), num(2)]), "|>", func("add", None, vec![num(3)])),
        ),
        ("[1,2,3] |> sum()", bin(l123(), "|>", func("sum", None, vec![]))),
        ("1 in [1,2,3]", bin(num(1), "in", l123())),
        ("1 in foo()", bin(num(1), "in", func("foo", None, vec![]))),
        ("1 not in [1,2,3]", bin(num(1), "not in", l123())),
        ("1 not    in [1,2,3]", bin(num(1), "not in", l123())),
        (
            "(1 in foo()) or (2 not in bar)",
            bin(bin(num(1), "in", func("foo", None, vec![])), "||", bin(num(2), "not in", ident("bar"))),
        ),
    ];
    for (input, expected) in cases {
        assert_eq!(whole(expression, input), expected, "input {:?}", input);
    }
}

#[test]
fn test_ternary_op() {
    assert_eq!(
        whole(expression, r#""string" ? true : false"#),
        cond(string("string"), boolean(true), Some(boolean(false)))
    );
    assert_eq!(
        whole(expression, r#"func("input") ? [1] : [2]"#),
        cond(func("func", None, vec![string("input")]), list_of(vec![num(1)]), Some(list_of(vec![num(2)])))
    );
}

#[test]
fn binary_operation_is_flat() {
    let src = Source::new("a + b + c");
    match expression(&src, 0, 128) {
        Outcome::Done(n, j) => {
            assert_eq!(j, 5);
            assert_eq!(strip(n).token, bin(ident("a"), "+", ident("b")));
        }
        _ => panic!("no expression"),
    }
    assert!(parse("a + b + c").is_err());
    assert_eq!(
        program("(a + b) + c"),
        vec![bin(bin(ident("a"), "+", ident("b")), "+", ident("c"))]
    );
}

#[test]
fn postfix_folds_from_the_left() {
    assert_eq!(
        whole(expr_term, "var.foo.bar"),
        bin(bin(ident("var"), ".", ident("foo")), ".", ident("bar"))
    );
    assert_eq!(whole(expr_term, "var.*"), un(".*", ident("var")));
    assert_eq!(
        whole(expr_term, "var[*].name"),
        bin(un("[*]", ident("var")), ".", ident("name"))
    );
}

#[test]
fn test_list() {
    let cases: Vec<(&str, Token)> = vec![
        ("[true, false]", list_of(vec![boolean(true), boolean(false)])),
        ("[]", list_of(vec![])),
        ("[\n            1,\n            2,\n            3,\n           ]", list_of(vec![num(1), num(2), num(3)])),
        ("[1, [\"nested list\"]]", list_of(vec![num(1), list_of(vec![string("nested list")])])),
        (
            "[true, [false, [[1]]]]",
            list_of(vec![
                boolean(true),
                list_of(vec![boolean(false), list_of(vec![list_of(vec![num(1)])])]),
            ]),
        ),
        (
            "[\n                \"test string\",\n                \"another string\",\n                false,\n                17.38\n               ]",
            list_of(vec![string("test string"), string("another string"), boolean(false), decimal(1738, 2)]),
        ),
        ("[false, foo == bar]", list_of(vec![boolean(false), bin(ident("foo"), "==", ident("bar"))])),
    ];
    for (input, expected) in cases {
        assert_eq!(whole(list, input), expected, "input {:?}", input);
    }
}

#[test]
fn list_trailing_comma() {
    assert_eq!(whole(list, "[1,2,3,]"), whole(list, "[1,2,3]"));
    assert_eq!(whole(list, "[]"), Token::List(vec![]));
}

#[test]
fn comprehensions() {
    assert_eq!(
        whole(expr_term, "[for x in xs : x.name if x.ok]"),
        Token::ForLoop(ForLoop::Tuple {
            binds: vec![node(ident("x"))],
            expr: bx(ident("xs")),
            body: bx(bin(ident("x"), ".", ident("name"))),
            cond: Some(bx(bin(ident("x"), ".", ident("ok")))),
        })
    );
    assert_eq!(
        whole(expr_term, "{for k, v in m : k => v...}"),
        Token::ForLoop(ForLoop::Object {
            binds: vec![node(ident("k")), node(ident("v"))],
            expr: bx(ident("m")),
            body: Box::new(ObjectItem { key: bx(ident("k")), val: bx(ident("v")) }),
            cond: None,
            grouping: true,
        })
    );
}

#[test]
fn test_file() {
    let cases: Vec<(&str, Vec<Token>)> = vec![
        ("false", vec![boolean(false)]),
        ("! false", vec![un("!", boolean(false))]),
        ("true or false", vec![bin(boolean(true), "||", boolean(false))]),
        ("1 + 2", vec![bin(num(1), "+", num(2))]),
        ("1e-4", vec![decimal(1, 4)]),
        (
            "[1, 2.0, 3%] ++ [1, 2.0, 3%]",
            vec![bin(
                list_of(vec![num(1), decimal(20, 1), pct(3)]),
                "++",
                list_of(vec![num(1), decimal(20, 1), pct(3)]),
            )],
        ),
        ("fun()", vec![func("fun", None, vec![])]),
        ("fun() # comment", vec![func("fun", None, vec![])]),
        ("fun()\n            # comment", vec![func("fun", None, vec![])]),
        ("fun()    ", vec![func("fun", None, vec![])]),
        ("fun(); # comment", vec![func("fun", None, vec![])]),
        ("fun();#comment", vec![func("fun", None, vec![])]),
        ("fun();\n            #comment", vec![func("fun", None, vec![])]),
        ("fun()    ;", vec![func("fun", None, vec![])]),
        ("\n\n fun() \n\n", vec![func("fun", None, vec![])]),
        ("fun(); fun2();", vec![func("fun", None, vec![]), func("fun2", None, vec![])]),
        ("fun()\nfun2()", vec![func("fun", None, vec![]), func("fun2", None, vec![])]),
        ("fun();\nfun2();", vec![func("fun", None, vec![]), func("fun2", None, vec![])]),
        ("fun();\nfun2()", vec![func("fun", None, vec![]), func("fun2", None, vec![])]),
        (
            "fun.sub(1, true) # comment 1\n\n          1dentifier\n\n          1 + 3_000.0_0_01 # comment 2\n\n          # comment 3\n\n          if(2 >= 1, fun2(), fun3(opt=1))#comment 4",
            vec![
                func("fun", Some("sub"), vec![num(1), boolean(true)]),
                ident("1dentifier"),
                bin(num(1), "+", decimal(30000001, 4)),
                cond(
                    bin(num(2), ">=", num(1)),
                    func("fun2", None, vec![]),
                    Some(func("fun3", None, vec![opt("opt", num(1))])),
                ),
            ],
        ),
    ];
    for (input, expected) in cases {
        assert_eq!(program(input), expected, "input {:?}", input);
    }
}

#[test]
fn test_file_invalid() {
    let e = parse("fun() fun2()").unwrap_err();
    assert_eq!(e.kind, ErrorKind::Unexpected);
    assert!(parse("").is_err());
    assert!(parse("fun(").is_err());
    let e = parse("x\n99999999999999999999999999999999").unwrap_err();
    assert_eq!(e.kind, ErrorKind::Aborted);
    assert_eq!((e.offset, e.line, e.column), (2, 2, 1));
}

#[test]
fn positions_follow_lines() {
    let tree = parse("a\n  foo(b)").unwrap();
    assert_eq!((tree[0].offset, tree[0].line, tree[0].column), (0, 1, 1));
    assert_eq!((tree[1].offset, tree[1].line, tree[1].column), (4, 2, 3));
    match &tree[1].token {
        Token::Function(f) => {
            assert_eq!((f.args[0].offset, f.args[0].line, f.args[0].column), (8, 2, 7));
        }
        _ => panic!("not a function"),
    }
    let tree = parse("\"é\" + x").unwrap();
    match &tree[0].token {
        Token::BinaryOp(b) => {
            assert_eq!((tree[0].offset, tree[0].column), (0, 1));
            assert_eq!((b.left.offset, b.left.column), (0, 1));
            assert_eq!((b.right.offset, b.right.column), (7, 7));
        }
        _ => panic!("not a binary operation"),
    }
}

#[test]
fn comments_only() {
    assert_eq!(program("# nothing here"), Vec::<Token>::new());
}

#[test]
fn nesting_is_bounded() {
    let deep = format!("{}1{}", "(".repeat(200), ")".repeat(200));
    assert_eq!(parse(&deep).unwrap_err().kind, ErrorKind::Aborted);
    let shallow = format!("{}1{}", "(".repeat(20), ")".repeat(20));
    assert_eq!(program(&shallow), vec![num(1)]);
}

#[test]
fn test_attribute() {
    let attr = |k: &str, v: Token| Token::Attribute(Attribute { ident: bx(ident(k)), expr: bx(v) });
    let cases: Vec<(&str, Token)> = vec![
        ("test_1 = true", attr("test_1", boolean(true))),
        ("TEST_1 = true", attr("test_1", boolean(true))),
        ("another_test = -193.5\n", attr("another_test", decimal(-1935, 1))),
        ("testing = var.foo\n", attr("testing", bin(ident("var"), ".", ident("foo")))),
    ];
    for (input, expected) in cases {
        assert_eq!(whole(attribute, input), expected, "input {:?}", input);
    }
}

#[test]
fn test_option() {
    let cases: Vec<(&str, Token)> = vec![
        ("f(test_1=true)", opt("test_1", boolean(true))),
        ("f(TEST_1=true)", opt("test_1", boolean(true))),
        ("f(another_test=-193.5)", opt("another_test", decimal(-1935, 1))),
        ("f(testing=var.foo)", opt("testing", bin(ident("var"), ".", ident("foo")))),
    ];
    for (input, expected) in cases {
        assert_eq!(whole(function, input), func("f", None, vec![expected]), "input {:?}", input);
    }
}

#[test]
fn default_node_is_unknown() {
    let n = Node::default();
    assert_eq!((n.offset, n.line, n.column), (0, 0, 0));
    assert_eq!(n.token, Token::Unknown);
}

#[test]
fn number_from_text() {
    assert_eq!(N::from_str("47"), Ok(N::Int(47)));
    assert_eq!(N::from_str("1.50"), Ok(N::Decimal(Decimal { mantissa: 150, scale: 2 })));
    assert!(N::from_str("4x").is_err());
    assert!(N::from_str("").is_err());
}

#[test]
fn token_getters() {
    assert_eq!(Token::String(String::from("a b")).as_string(), Some("a b"));
    assert_eq!(Token::Address(String::from("0x1")).as_address(), Some("0x1"));
    assert_eq!(Token::Operator(Operator::Pipe).as_operator(), Some(Operator::Pipe));
    assert_eq!(Token::NoneValue.as_none(), Some(()));
    assert_eq!(Token::Percentage(N::Int(3)).as_percentage(), Some(N::Int(3)));
    assert_eq!(Token::Number(N::Int(3)).as_number(), Some(N::Int(3)));
    assert_eq!(Token::Boolean(true).as_number(), None);
}

#[test]
fn none_is_a_whole_word() {
    assert_eq!(
        whole(function, "f(nonexistent, none)"),
        func("f", None, vec![ident("nonexistent"), Token::NoneValue])
    );
}

#[test]
fn digit_led_identifiers() {
    assert_eq!(program("1inch"), vec![ident("1inch")]);
    assert_eq!(program("fun(1inch, 2)"), vec![func("fun", None, vec![ident("1inch"), num(2)])]);
    assert!(parse("11abc").is_err());
    assert!(parse("3 %").is_err());
    assert!(parse("1_ foo").is_err());
    assert!(parse("1_").is_err());
    assert_eq!(program("1e"), vec![ident("1e")]);
}

#[test]
fn test_collection() {
    let src = Source::new("[1, 2]");
    match vxl::collection(&src, 0, 128) {
        Outcome::Done(n, 6) => assert_eq!(strip(n).token, list_of(vec![num(1), num(2)])),
        _ => panic!("no collection"),
    }
    let src = Source::new("(1)");
    assert!(matches!(vxl::collection(&src, 0, 128), Outcome::Miss));
}

#[test]
fn conditional_node_is_at_keyword() {
    let tree = parse("x\n  if(true, 1)").unwrap();
    assert_eq!((tree[1].offset, tree[1].line, tree[1].column), (4, 2, 3));
    let cond = tree[1].token.as_conditional().unwrap();
    assert_eq!((cond.condition.offset, cond.condition.column), (7, 6));
    let tree = parse("\n\n fun()").unwrap();
    assert_eq!((tree[0].offset, tree[0].line, tree[0].column), (3, 3, 2));
}

#[test]
fn unknown_symbol_keeps_its_text() {
    assert_eq!(
        Operator::from_symbol("<>"),
        Err(vxl::TokenError::OperatorError(String::from("<>")))
    );
    for s in ["in", "not in", "|>", "++", "--", "...", "[*]", ".*"] {
        assert_eq!(Operator::from_symbol(s).unwrap().symbol(), s);
    }
}

#[test]
fn compound_getters() {
    let tree = parse("f(a=1); [1]; a + b; !a; if(a, b); [for x in y : x]").unwrap();
    let f = tree[0].token.as_function().unwrap();
    assert_eq!(strip_token_ref(&f.args[0].token.as_option().unwrap().key.token), ident("a"));
    assert_eq!(tree[1].token.as_list().unwrap().len(), 1);
    assert!(tree[2].token.as_binary_op().is_some());
    assert!(tree[3].token.as_unary_op().is_some());
    assert!(tree[4].token.as_conditional().is_some());
    assert!(tree[5].token.as_for_loop().is_some());
    assert!(tree[0].token.as_list().is_none());
    assert_eq!(Token::LineComment(String::from("c")).as_line_comment(), Some("c"));
    let a = Token::Attribute(Attribute { ident: bx(ident("k")), expr: bx(num(1)) });
    assert!(a.as_attribute().is_some());
}

fn strip_token_ref(t: &Token) -> Token {
    match t {
        Token::Identifier(s) => Token::Identifier(s.clone()),
        _ => Token::Unknown,
    }
}
