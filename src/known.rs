//! A successful parse never yields the `Unknown` sentinel, at any depth.
use vstd::prelude::*;
use crate::ast::{SNode, SToken};
use crate::chars::{Class, char_at, run_end};
use crate::grammar::{
    MAX_DEPTH, SFile, SIntro, SList, SOut, SPost, address, ahead, apply_postfix, arguments, binary_operator,
    binds, expr_term, expression, for_cond, for_intro, for_loop, function, function_arg,
    identifier, if_statement, like, line_comment, list, list_end, list_items, literal, op_at,
    operation_tail, option, postfix, postfix_fold, program, spread_last, statement, statements,
    sub_expression, subfunction, term_head, ternary_tail, terminator, unary_operation,
    unary_operator,
};

verus! {

/// No node of the tree stands for `Unknown`.
pub open spec fn known(n: SNode) -> bool
    decreases n,
{
    match n.token {
        SToken::Unknown => false,
        SToken::Option(k, v) => known(*k) && known(*v),
        SToken::Function(name, sub, args) => known(*name) && match sub {
            Some(b) => known(*b),
            None => true,
        } && known_all(args),
        SToken::Conditional(c, t, f) => known(*c) && known(*t) && match f {
            Some(b) => known(*b),
            None => true,
        },
        SToken::BinaryOp(op, l, r) => known(*op) && known(*l) && known(*r),
        SToken::UnaryOp(op, x) => known(*op) && known(*x),
        SToken::List(items) => known_all(items),
        SToken::TupleFor(bs, x, body, cond) => known_all(bs) && known(*x) && known(*body) && match cond {
            Some(b) => known(*b),
            None => true,
        },
        SToken::ObjectFor(bs, x, k, v, cond, _) => known_all(bs) && known(*x) && known(*k) && known(*v)
            && match cond {
            Some(b) => known(*b),
            None => true,
        },
        SToken::Attribute(k, v) => known(*k) && known(*v),
        _ => true,
    }
}

/// No node of any tree of the sequence stands for `Unknown`.
pub open spec fn known_all(s: Seq<SNode>) -> bool
    decreases s,
{
    if s.len() == 0 {
        true
    } else {
        known_all(s.subrange(0, s.len() - 1)) && known(s[s.len() - 1])
    }
}

/// The outcome holds no `Unknown`.
pub open spec fn known_out(o: SOut) -> bool {
    match o {
        SOut::Done(n, _) => known(n),
        _ => true,
    }
}

/// The outcome's sequence holds no `Unknown`.
pub open spec fn known_list(o: SList) -> bool {
    match o {
        SList::Done(xs, _) => known_all(xs),
        _ => true,
    }
}

proof fn lemma_known_push(s: Seq<SNode>, n: SNode)
    ensures
        known_all(s.push(n)) == (known_all(s) && known(n)),
{
    assert(s.push(n).subrange(0, s.len() as int) =~= s);
}

proof fn lemma_known_one(n: SNode)
    ensures
        known_all(seq![n]) == known(n),
{
    lemma_known_push(Seq::empty(), n);
    assert(seq![n] =~= Seq::<SNode>::empty().push(n));
}

proof fn lemma_known_drop_last(s: Seq<SNode>)
    requires
        s.len() > 0,
        known_all(s),
    ensures
        known_all(s.subrange(0, s.len() - 1)),
        known(s[s.len() - 1]),
{
}

proof fn lemma_leaves(s: Seq<char>, i: int)
    ensures
        known_out(literal(s, i)),
        known_out(address(s, i)),
        known_out(identifier(s, i)),
        known_out(line_comment(s, i)),
        known_out(unary_operator(s, i)),
        known_out(binary_operator(s, i)),
{
}

proof fn lemma_expression(s: Seq<char>, i: int, d: nat)
    ensures
        known_out(expression(s, i, d)),
    decreases d, s.len() - i, 7int,
{
    lemma_unary_operation(s, i, d);
    lemma_expr_term(s, i, d);
    if let SOut::Done(left, j) = expr_term(s, i, d) {
        if ahead(s, i, j) {
            lemma_operation_tail(s, j, d, left);
        }
    }
}

proof fn lemma_unary_operation(s: Seq<char>, i: int, d: nat)
    ensures
        known_out(unary_operation(s, i, d)),
    decreases d, s.len() - i, 6int,
{
    lemma_leaves(s, i);
    if let SOut::Done(op, j) = unary_operator(s, i) {
        let k = run_end(s, j, Class::Space);
        if ahead(s, i, k) {
            lemma_expr_term(s, k, d);
        }
    }
}

proof fn lemma_operation_tail(s: Seq<char>, j: int, d: nat, left: SNode)
    requires
        known(left),
    ensures
        known_out(operation_tail(s, j, d, left)),
    decreases d, s.len() - j, 4int,
{
    lemma_leaves(s, run_end(s, j, Class::Space));
    lemma_ternary_tail(s, j, d, left);
    if let SOut::Done(op, k) = binary_operator(s, run_end(s, j, Class::Space)) {
        let m = run_end(s, k, Class::Space);
        if ahead(s, j, m) {
            lemma_expr_term(s, m, d);
        }
    }
}

proof fn lemma_ternary_tail(s: Seq<char>, j: int, d: nat, left: SNode)
    requires
        known(left),
    ensures
        known_out(ternary_tail(s, j, d, left)),
    decreases d, s.len() - j, 3int,
{
    let q = run_end(s, j, Class::Space);
    let a = run_end(s, q + 1, Class::Space);
    if char_at(s, q, '?') && ahead(s, j, a) {
        lemma_expr_term(s, a, d);
        if let SOut::Done(t, b) = expr_term(s, a, d) {
            let c = run_end(s, b, Class::Space);
            let e = run_end(s, c + 1, Class::Space);
            if char_at(s, c, ':') && ahead(s, j, e) {
                lemma_expr_term(s, e, d);
            }
        }
    }
}

proof fn lemma_expr_term(s: Seq<char>, i: int, d: nat)
    ensures
        known_out(expr_term(s, i, d)),
    decreases d, s.len() - i, 5int,
{
    lemma_term_head(s, i, d);
    if let SOut::Done(h, j) = term_head(s, i, d) {
        if ahead(s, i, j) {
            lemma_postfix_fold(s, j, d, h);
        }
    }
}

proof fn lemma_term_head(s: Seq<char>, i: int, d: nat)
    ensures
        known_out(term_head(s, i, d)),
    decreases d, s.len() - i, 4int,
{
    lemma_leaves(s, i);
    lemma_for_loop(s, i, d);
    lemma_list(s, i, d);
    lemma_if_statement(s, i, d);
    lemma_function(s, i, d);
    lemma_sub_expression(s, i, d);
}

proof fn lemma_postfix_fold(s: Seq<char>, j: int, d: nat, acc: SNode)
    requires
        known(acc),
    ensures
        known_out(postfix_fold(s, j, d, acc)),
    decreases d, s.len() - j, 2int,
{
    lemma_postfix(s, j, d);
    if let SPost::Done(op, operand, k) = postfix(s, j, d) {
        if ahead(s, j, k) {
            lemma_postfix_fold(s, k, d, apply_postfix(acc, op, operand));
        }
    }
}

proof fn lemma_postfix(s: Seq<char>, j: int, d: nat)
    ensures
        postfix(s, j, d) matches SPost::Done(op, x, _) ==> known(op) && match x {
            Some(n) => known(n),
            None => true,
        },
    decreases d, s.len() - j, 1int,
{
    if 0 <= j && j + 1 < s.len() {
        lemma_leaves(s, j + 1);
        if s[j] == '[' && d > 0 {
            lemma_expression(s, j + 1, (d - 1) as nat);
        }
    }
}

proof fn lemma_sub_expression(s: Seq<char>, i: int, d: nat)
    ensures
        known_out(sub_expression(s, i, d)),
    decreases d, s.len() - i, 2int,
{
    if char_at(s, i, '(') && d > 0 {
        lemma_expression(s, run_end(s, i + 1, Class::Multispace), (d - 1) as nat);
    }
}

proof fn lemma_list(s: Seq<char>, i: int, d: nat)
    ensures
        known_out(list(s, i, d)),
    decreases d, s.len() - i, 2int,
{
    if char_at(s, i, '[') && d > 0 {
        let a = run_end(s, i + 1, Class::Multispace);
        assert(known_all(Seq::<SNode>::empty()));
        lemma_expression(s, a, (d - 1) as nat);
        match expression(s, a, (d - 1) as nat) {
            SOut::Done(x, e) => {
                if ahead(s, i, e) {
                    lemma_known_one(x);
                    lemma_list_items(s, e, (d - 1) as nat, seq![x]);
                }
            },
            SOut::Miss => {
                lemma_list_items(s, a, (d - 1) as nat, Seq::empty());
            },
            _ => {},
        }
    }
}

proof fn lemma_list_items(s: Seq<char>, j: int, d: nat, acc: Seq<SNode>)
    requires
        known_all(acc),
    ensures
        known_list(list_items(s, j, d, acc)),
    decreases d, s.len() - j, 8int,
{
    let m = run_end(s, j + 1, Class::Multispace);
    if !(list_end(s, j) is Some || !char_at(s, j, ',') || !ahead(s, j, m)) {
        lemma_expression(s, m, d);
        if let SOut::Done(x, e) = expression(s, m, d) {
            if ahead(s, j, e) {
                lemma_known_push(acc, x);
                lemma_list_items(s, e, d, acc.push(x));
            }
        }
    }
}

proof fn lemma_option(s: Seq<char>, i: int, d: nat)
    ensures
        known_out(option(s, i, d)),
    decreases d, s.len() - i, 8int,
{
    lemma_leaves(s, i);
    if let SOut::Done(key, j) = identifier(s, i) {
        let k = run_end(s, j, Class::Space);
        let m = run_end(s, k + 1, Class::Space);
        if char_at(s, k, '=') && ahead(s, i, m) {
            lemma_expr_term(s, m, d);
        }
    }
}

proof fn lemma_function_arg(s: Seq<char>, i: int, d: nat)
    ensures
        known_out(function_arg(s, i, d)),
    decreases d, s.len() - i, 9int,
{
    lemma_option(s, i, d);
    lemma_expression(s, i, d);
}

proof fn lemma_arguments(s: Seq<char>, j: int, d: nat, acc: Seq<SNode>)
    requires
        known_all(acc),
    ensures
        known_list(arguments(s, j, d, acc)),
    decreases d, s.len() - j, 10int,
{
    let c = run_end(s, j, Class::Multispace);
    let m = run_end(s, c + 1, Class::Multispace);
    if char_at(s, c, ',') && ahead(s, j, m) {
        lemma_function_arg(s, m, d);
        if let SOut::Done(x, e) = function_arg(s, m, d) {
            if ahead(s, j, e) {
                lemma_known_push(acc, x);
                lemma_arguments(s, e, d, acc.push(x));
            }
        }
    }
}

#[verifier::rlimit(40)]
proof fn lemma_function(s: Seq<char>, i: int, d: nat)
    ensures
        known_out(function(s, i, d)),
    decreases d, s.len() - i, 2int,
{
    lemma_leaves(s, i);
    if let SOut::Done(name, j) = identifier(s, i) {
        lemma_leaves(s, j + 1);
        let (sub, p) = subfunction(s, j);
        if char_at(s, p, '(') && d > 0 {
            let a = run_end(s, p + 1, Class::Multispace);
            lemma_function_arg(s, a, (d - 1) as nat);
            assert(known_all(Seq::<SNode>::empty()));
            let args = match function_arg(s, a, (d - 1) as nat) {
                SOut::Done(x, e) => if ahead(s, p, e) {
                    lemma_known_one(x);
                    lemma_arguments(s, e, (d - 1) as nat, seq![x]);
                    arguments(s, e, (d - 1) as nat, seq![x])
                } else {
                    SList::Done(Seq::empty(), p + 1)
                },
                SOut::Miss => SList::Done(Seq::empty(), p + 1),
                SOut::Fail(q) => SList::Fail(q),
            };
            if let SList::Done(xs, e) = args {
                lemma_spread(s, xs, e);
            }
        }
    }
}

proof fn lemma_spread(s: Seq<char>, xs: Seq<SNode>, e: int)
    requires
        known_all(xs),
    ensures
        known_all(spread_last(s, xs, e).0),
{
    if xs.len() > 0 {
        let last = xs[xs.len() - 1];
        lemma_known_drop_last(xs);
        let op = op_at(s, e, crate::ast::Operator::Elipsis);
        assert(known(op));
        let n = like(last, SToken::UnaryOp(Box::new(op), Box::new(last)));
        assert(known(n));
        lemma_known_push(
            xs.subrange(0, xs.len() - 1),
            like(last, SToken::UnaryOp(Box::new(op_at(s, e, crate::ast::Operator::Elipsis)), Box::new(last))),
        );
    }
}

proof fn lemma_if_statement(s: Seq<char>, i: int, d: nat)
    ensures
        known_out(if_statement(s, i, d)),
    decreases d, s.len() - i, 2int,
{
    if d > 0 {
        let d1 = (d - 1) as nat;
        let a = run_end(s, i + 3, Class::Multispace);
        lemma_expression(s, a, d1);
        if let SOut::Done(c, b) = expression(s, a, d1) {
            lemma_expression(s, run_end(s, b + 1, Class::Multispace), d1);
            if let SOut::Done(t, e) = expression(s, run_end(s, b + 1, Class::Multispace), d1) {
                lemma_expression(s, run_end(s, e + 1, Class::Multispace), d1);
            }
        }
    }
}

proof fn lemma_binds(s: Seq<char>, j: int, d: nat, acc: Seq<SNode>)
    requires
        known_all(acc),
    ensures
        known_list(binds(s, j, d, acc)),
    decreases d, s.len() - j, 8int,
{
    let m = run_end(s, j + 1, Class::Space);
    if char_at(s, j, ',') && ahead(s, j, m) {
        lemma_expr_term(s, m, d);
        if let SOut::Done(x, e) = expr_term(s, m, d) {
            if ahead(s, j, e) {
                lemma_known_push(acc, x);
                lemma_binds(s, e, d, acc.push(x));
            }
        }
    }
}

proof fn lemma_for_intro(s: Seq<char>, k: int, d: nat)
    ensures
        for_intro(s, k, d) matches SIntro::Done(bs, x, _) ==> known_all(bs) && known(x),
    decreases d, s.len() - k, 9int,
{
    let a = run_end(s, k, Class::Space);
    let b = run_end(s, a + 3, Class::Space);
    if b > a + 3 && ahead(s, k, b) {
        lemma_expr_term(s, b, d);
        assert(known_all(Seq::<SNode>::empty()));
        let bs = match expr_term(s, b, d) {
            SOut::Done(x, e) => if ahead(s, b, e) {
                lemma_known_one(x);
                lemma_binds(s, e, d, seq![x]);
                binds(s, e, d, seq![x])
            } else {
                SList::Done(Seq::empty(), b)
            },
            SOut::Miss => SList::Done(Seq::empty(), b),
            SOut::Fail(p) => SList::Fail(p),
        };
        if let SList::Done(xs, j) = bs {
            let c = run_end(s, j, Class::Space);
            let c2 = run_end(s, c + 2, Class::Space);
            if ahead(s, k, c2) {
                lemma_expression(s, c2, d);
            }
        }
    }
}

proof fn lemma_for_cond(s: Seq<char>, h: int, d: nat)
    ensures
        known_out(for_cond(s, h, d)),
    decreases d, s.len() - h, 9int,
{
    let c = run_end(s, h, Class::Space);
    let c2 = run_end(s, c + 2, Class::Space);
    if ahead(s, h, c2) {
        lemma_expression(s, c2, d);
    }
}

proof fn lemma_for_loop(s: Seq<char>, i: int, d: nat)
    ensures
        known_out(for_loop(s, i, d)),
    decreases d, s.len() - i, 2int,
{
    if d > 0 {
        let d1 = (d - 1) as nat;
        lemma_for_intro(s, i + 1, d1);
        if let SIntro::Done(bs, x, g) = for_intro(s, i + 1, d1) {
            lemma_expression(s, g, d1);
            if let SOut::Done(body, h) = expression(s, g, d1) {
                lemma_for_cond(s, h, d1);
                let a = run_end(s, h, Class::Space);
                let a2 = run_end(s, a + 2, Class::Space);
                lemma_expression(s, a2, d1);
                if let SOut::Done(val, h2) = expression(s, a2, d1) {
                    lemma_for_cond(s, h2, d1);
                    lemma_for_cond(s, h2 + 3, d1);
                }
            }
        }
    }
}

proof fn lemma_statements(s: Seq<char>, i: int, acc: Seq<SNode>, count: nat)
    requires
        known_all(acc),
    ensures
        statements(s, i, acc, count) matches SFile::Stop(xs, _, _) ==> known_all(xs),
    decreases s.len() - i,
{
    let a = run_end(s, i, Class::Multispace);
    lemma_expression(s, a, MAX_DEPTH as nat);
    lemma_leaves(s, a);
    if let SOut::Done(n, e) = statement(s, i) {
        if let Some(t) = terminator(s, e) {
            if ahead(s, i, t) {
                lemma_known_push(acc, n);
                lemma_statements(
                    s,
                    t,
                    if n.token is LineComment {
                        acc
                    } else {
                        acc.push(n)
                    },
                    count + 1,
                );
            }
        }
    }
}

/// A program that parses holds no `Unknown` node, at any depth.
pub proof fn law_no_unknown(s: Seq<char>)
    ensures
        program(s) matches Ok(tree) ==> known_all(tree),
{
    assert(known_all(Seq::<SNode>::empty()));
    lemma_statements(s, 0, Seq::empty(), 0);
}

} // verus!
