//! The language, stated as spec functions over the characters of a program.
//!
//! Each function reads the text from position `i` and gives the node it
//! denotes with the position after it (`Done`), no match (`Miss`: a sibling
//! alternative may be tried), or an abort (`Fail`: the input is malformed in a
//! way no alternative may recover from). `d` bounds the nesting depth: a
//! construct nested deeper than it aborts.
use vstd::prelude::*;
use crate::ast::{Operator, SNode, SToken};
use crate::chars::{
    Class, char_at, is_letter, exact_at, in_class, is_digit, is_hex, lower_of, run_end, word_at,
};
use crate::number::{Scanned, number_at};
use crate::source::{byte_offset, column_at, line_at};

verus! {

/// The nesting depth that a program may reach.
pub const MAX_DEPTH: usize = 128;

/// The outcome of reading one node.
pub enum SOut {
    Done(SNode, int),
    Miss,
    Fail(int),
}

/// The outcome of reading a sequence of nodes.
pub enum SList {
    Done(Seq<SNode>, int),
    Fail(int),
}

/// The outcome of reading a postfix accessor: its operator node, its operand
/// (none for a splat) and the position after it.
pub enum SPost {
    Done(SNode, Option<SNode>, int),
    Miss,
    Fail(int),
}

/// The outcome of reading the head of a comprehension: binds, collection, end.
pub enum SIntro {
    Done(Seq<SNode>, SNode, int),
    Miss,
    Fail(int),
}

/// A node for token `t` at position `i`.
pub open spec fn at(s: Seq<char>, i: int, t: SToken) -> SNode {
    SNode { offset: byte_offset(s, i), line: line_at(s, i), column: column_at(s, i), token: t }
}

/// A node for token `t` at the position of `n`.
pub open spec fn like(n: SNode, t: SToken) -> SNode {
    SNode { offset: n.offset, line: n.line, column: n.column, token: t }
}

/// An operator node at `i`.
pub open spec fn op_at(s: Seq<char>, i: int, op: Operator) -> SNode {
    at(s, i, SToken::Operator(op))
}

/// Whether `j` is a position after `i` in `s`. Each step of a sequence
/// must advance: a reading that would not stops where it is.
pub open spec fn ahead(s: Seq<char>, i: int, j: int) -> bool {
    i < j <= s.len()
}

// ---------------------------------------------------------------- literals

/// `true` or `false` in any case, chosen by the first character.
pub open spec fn boolean(s: Seq<char>, i: int) -> SOut {
    if char_at(s, i, 't') || char_at(s, i, 'T') {
        if word_at(s, i, "true"@) {
            SOut::Done(at(s, i, SToken::Boolean(true)), i + 4)
        } else {
            SOut::Miss
        }
    } else if char_at(s, i, 'f') || char_at(s, i, 'F') {
        if word_at(s, i, "false"@) {
            SOut::Done(at(s, i, SToken::Boolean(false)), i + 5)
        } else {
            SOut::Miss
        }
    } else {
        SOut::Miss
    }
}

/// The keyword `none`, in lower case, not followed by a character that
/// would continue an identifier.
pub open spec fn none_literal(s: Seq<char>, i: int) -> SOut {
    if exact_at(s, i, "none"@) && !(0 <= i + 4 < s.len() && in_class(s[i + 4], Class::IdentTail)) {
        SOut::Done(at(s, i, SToken::NoneValue), i + 4)
    } else {
        SOut::Miss
    }
}

/// Whether `c` may follow a backslash in a string.
pub open spec fn is_escape(c: char) -> bool {
    c == 'r' || c == 'n' || c == 't' || c == '"' || c == '\\'
}

/// The position of the closing quote of a string whose text starts at `j`.
pub open spec fn string_end(s: Seq<char>, j: int) -> Option<int>
    decreases s.len() - j,
{
    if j < 0 || j >= s.len() || s[j] == '\n' {
        None
    } else if s[j] == '"' {
        Some(j)
    } else if s[j] == '\\' {
        if j + 1 < s.len() && is_escape(s[j + 1]) {
            string_end(s, j + 2)
        } else {
            None
        }
    } else {
        string_end(s, j + 1)
    }
}

/// A double-quoted single-line string; the node is at its opening quote
/// and holds the text between the quotes, escapes kept.
pub open spec fn single_line_string(s: Seq<char>, i: int) -> SOut {
    if char_at(s, i, '"') {
        match string_end(s, i + 1) {
            Some(e) => SOut::Done(at(s, i, SToken::String(s.subrange(i + 1, e))), e + 1),
            None => SOut::Miss,
        }
    } else {
        SOut::Miss
    }
}

/// A string, chosen by its opening quote.
pub open spec fn string(s: Seq<char>, i: int) -> SOut {
    if char_at(s, i, '"') {
        single_line_string(s, i)
    } else {
        SOut::Miss
    }
}

/// A numeric literal.
pub open spec fn number(s: Seq<char>, i: int) -> SOut {
    match number_at(s, i) {
        Scanned::Done(v, j) => SOut::Done(at(s, i, SToken::Number(v)), j),
        Scanned::Miss => SOut::Miss,
        Scanned::Fail => SOut::Fail(i),
    }
}

/// A numeric literal followed at once by `%`.
pub open spec fn percentage(s: Seq<char>, i: int) -> SOut {
    match number_at(s, i) {
        Scanned::Done(v, j) => if char_at(s, j, '%') {
            SOut::Done(at(s, i, SToken::Percentage(v)), j + 1)
        } else {
            SOut::Miss
        },
        Scanned::Miss => SOut::Miss,
        Scanned::Fail => SOut::Fail(i),
    }
}

/// A percentage, else a number.
pub open spec fn numeric(s: Seq<char>, i: int) -> SOut {
    match percentage(s, i) {
        SOut::Miss => number(s, i),
        r => r,
    }
}

/// A literal, chosen by its first character.
pub open spec fn literal(s: Seq<char>, i: int) -> SOut {
    if char_at(s, i, 't') || char_at(s, i, 'T') || char_at(s, i, 'f') || char_at(s, i, 'F') {
        boolean(s, i)
    } else if char_at(s, i, '"') {
        string(s, i)
    } else if char_at(s, i, '-') || (0 <= i < s.len() && is_digit(s[i])) {
        numeric(s, i)
    } else if char_at(s, i, 'n') {
        none_literal(s, i)
    } else {
        SOut::Miss
    }
}

/// `0x` (or `0X`) and exactly forty hexadecimal digits, with no further
/// hexadecimal digit after them.
pub open spec fn address(s: Seq<char>, i: int) -> SOut {
    if word_at(s, i, "0x"@) && i + 42 <= s.len() && (forall|k: int|
        i + 2 <= k < i + 42 ==> #[trigger] is_hex(s[k])) && !(i + 42 < s.len() && is_hex(
        s[i + 42],
    )) {
        SOut::Done(at(s, i, SToken::Address(s.subrange(i, i + 42))), i + 42)
    } else {
        SOut::Miss
    }
}

/// An identifier, lower-cased: a letter or `_` then letters, digits, `_` and
/// `-`; or one digit then one or more letters.
pub open spec fn identifier(s: Seq<char>, i: int) -> SOut {
    if 0 <= i < s.len() && (is_letter(s[i]) || s[i] == '_') {
        let e = run_end(s, i + 1, Class::IdentTail);
        SOut::Done(at(s, i, SToken::Identifier(lower_of(s.subrange(i, e)))), e)
    } else if 0 <= i < s.len() && is_digit(s[i]) && run_end(s, i + 1, Class::Alpha) > i + 1 {
        let e = run_end(s, i + 1, Class::Alpha);
        SOut::Done(at(s, i, SToken::Identifier(lower_of(s.subrange(i, e)))), e)
    } else {
        SOut::Miss
    }
}

/// `#`, optional spaces, then the rest of the line.
pub open spec fn line_comment(s: Seq<char>, i: int) -> SOut {
    if char_at(s, i, '#') {
        let j = run_end(s, i + 1, Class::Space);
        let e = run_end(s, j, Class::NotEol);
        SOut::Done(at(s, i, SToken::LineComment(s.subrange(j, e))), e)
    } else {
        SOut::Miss
    }
}

// ---------------------------------------------------------------- operators

/// `-` or `+`.
pub open spec fn sign(s: Seq<char>, i: int) -> SOut {
    if char_at(s, i, '-') {
        SOut::Done(op_at(s, i, Operator::Minus), i + 1)
    } else if char_at(s, i, '+') {
        SOut::Done(op_at(s, i, Operator::Plus), i + 1)
    } else {
        SOut::Miss
    }
}

/// `!`, or `not` with the whitespace after it.
pub open spec fn negation(s: Seq<char>, i: int) -> SOut {
    if char_at(s, i, '!') {
        SOut::Done(op_at(s, i, Operator::Not), i + 1)
    } else if word_at(s, i, "not"@) && run_end(s, i + 3, Class::Multispace) > i + 3 {
        SOut::Done(op_at(s, i, Operator::Not), run_end(s, i + 3, Class::Multispace))
    } else {
        SOut::Miss
    }
}

/// A unary operator.
pub open spec fn unary_operator(s: Seq<char>, i: int) -> SOut {
    match sign(s, i) {
        SOut::Miss => negation(s, i),
        r => r,
    }
}

/// `++`, `--` or `|>`, as a whole run of `+-|>` characters.
pub open spec fn list_operator(s: Seq<char>, i: int) -> Option<Operator> {
    let e = run_end(s, i, Class::ListOp);
    if e == i + 2 && exact_at(s, i, "++"@) {
        Some(Operator::Concatenate)
    } else if e == i + 2 && exact_at(s, i, "--"@) {
        Some(Operator::Subtract)
    } else if e == i + 2 && exact_at(s, i, "|>"@) {
        Some(Operator::Pipe)
    } else {
        None
    }
}

/// A comparison operator, as a whole run of `=!<>` characters.
pub open spec fn comparison_operator(s: Seq<char>, i: int) -> Option<(Operator, int)> {
    let e = run_end(s, i, Class::CompareOp);
    if e == i + 2 && exact_at(s, i, "=="@) {
        Some((Operator::Equal, e))
    } else if e == i + 2 && exact_at(s, i, "!="@) {
        Some((Operator::NotEqual, e))
    } else if e == i + 2 && exact_at(s, i, "<="@) {
        Some((Operator::LessEqual, e))
    } else if e == i + 2 && exact_at(s, i, ">="@) {
        Some((Operator::GreaterEqual, e))
    } else if e == i + 1 && char_at(s, i, '<') {
        Some((Operator::Less, e))
    } else if e == i + 1 && char_at(s, i, '>') {
        Some((Operator::Greater, e))
    } else {
        None
    }
}

/// A single-character arithmetic operator.
pub open spec fn arithmetic_operator(s: Seq<char>, i: int) -> Option<Operator> {
    if char_at(s, i, '+') {
        Some(Operator::Plus)
    } else if char_at(s, i, '-') {
        Some(Operator::Minus)
    } else if char_at(s, i, '*') {
        Some(Operator::Multiply)
    } else if char_at(s, i, '/') {
        Some(Operator::Divide)
    } else if char_at(s, i, '%') {
        Some(Operator::Modulus)
    } else if char_at(s, i, '^') {
        Some(Operator::Exponent)
    } else {
        None
    }
}

/// `in`, or `not` and `in` with spaces between.
pub open spec fn membership_operator(s: Seq<char>, i: int) -> Option<(Operator, int)> {
    if word_at(s, i, "in"@) {
        Some((Operator::In, i + 2))
    } else if word_at(s, i, "not"@) && run_end(s, i + 3, Class::Space) > i + 3 && word_at(
        s,
        run_end(s, i + 3, Class::Space),
        "in"@,
    ) {
        Some((Operator::NotIn, run_end(s, i + 3, Class::Space) + 2))
    } else {
        None
    }
}

/// `&&`, `and`, `||` or `or` (the words in any case).
pub open spec fn logic_operator(s: Seq<char>, i: int) -> Option<(Operator, int)> {
    if exact_at(s, i, "&&"@) {
        Some((Operator::And, i + 2))
    } else if word_at(s, i, "and"@) {
        Some((Operator::And, i + 3))
    } else if exact_at(s, i, "||"@) {
        Some((Operator::Or, i + 2))
    } else if word_at(s, i, "or"@) {
        Some((Operator::Or, i + 2))
    } else {
        None
    }
}

/// A binary operator; the longer spellings are tried first.
pub open spec fn binary_operator(s: Seq<char>, i: int) -> SOut {
    match list_operator(s, i) {
        Some(op) => SOut::Done(op_at(s, i, op), i + 2),
        None => match membership_operator(s, i) {
            Some((op, e)) => SOut::Done(op_at(s, i, op), e),
            None => match arithmetic_operator(s, i) {
                Some(op) => SOut::Done(op_at(s, i, op), i + 1),
                None => match comparison_operator(s, i) {
                    Some((op, e)) => SOut::Done(op_at(s, i, op), e),
                    None => match logic_operator(s, i) {
                        Some((op, e)) => SOut::Done(op_at(s, i, op), e),
                        None => SOut::Miss,
                    },
                },
            },
        },
    }
}

// ---------------------------------------------------------------- expressions

/// An expression: a unary operation; else a term, extended into a binary
/// operation or a ternary conditional when one follows.
pub open spec fn expression(s: Seq<char>, i: int, d: nat) -> SOut
    decreases d, s.len() - i, 7int,
{
    match unary_operation(s, i, d) {
        SOut::Miss => match expr_term(s, i, d) {
            SOut::Done(left, j) => if ahead(s, i, j) {
                operation_tail(s, j, d, left)
            } else {
                SOut::Miss
            },
            r => r,
        },
        r => r,
    }
}

/// A unary operator, optional spaces, a term.
pub open spec fn unary_operation(s: Seq<char>, i: int, d: nat) -> SOut
    decreases d, s.len() - i, 6int,
{
    match unary_operator(s, i) {
        SOut::Done(op, j) => {
            let k = run_end(s, j, Class::Space);
            if ahead(s, i, k) {
                match expr_term(s, k, d) {
                    SOut::Done(t, e) => SOut::Done(like(op, SToken::UnaryOp(Box::new(op), Box::new(t))), e),
                    r => r,
                }
            } else {
                SOut::Miss
            }
        },
        r => r,
    }
}

/// After the term `left` ending at `j`: a binary operator and a second term,
/// else the ternary form, else `left` alone.
pub open spec fn operation_tail(s: Seq<char>, j: int, d: nat, left: SNode) -> SOut
    decreases d, s.len() - j, 4int,
{
    match binary_operator(s, run_end(s, j, Class::Space)) {
        SOut::Done(op, k) => {
            let m = run_end(s, k, Class::Space);
            if ahead(s, j, m) {
                match expr_term(s, m, d) {
                    SOut::Done(right, e) => SOut::Done(
                        like(left, SToken::BinaryOp(Box::new(op), Box::new(left), Box::new(right))),
                        e,
                    ),
                    SOut::Fail(p) => SOut::Fail(p),
                    SOut::Miss => ternary_tail(s, j, d, left),
                }
            } else {
                ternary_tail(s, j, d, left)
            }
        },
        _ => ternary_tail(s, j, d, left),
    }
}

/// After the term `left` ending at `j`: `? term : term`, else `left` alone.
pub open spec fn ternary_tail(s: Seq<char>, j: int, d: nat, left: SNode) -> SOut
    decreases d, s.len() - j, 3int,
{
    let q = run_end(s, j, Class::Space);
    let a = run_end(s, q + 1, Class::Space);
    if !char_at(s, q, '?') || !ahead(s, j, a) {
        SOut::Done(left, j)
    } else {
        match expr_term(s, a, d) {
            SOut::Done(t, b) => {
                let c = run_end(s, b, Class::Space);
                let e = run_end(s, c + 1, Class::Space);
                if !char_at(s, c, ':') || !ahead(s, j, e) {
                    SOut::Done(left, j)
                } else {
                    match expr_term(s, e, d) {
                        SOut::Done(f, g) => SOut::Done(
                            like(
                                left,
                                SToken::Conditional(Box::new(left), Box::new(t), Some(Box::new(f))),
                            ),
                            g,
                        ),
                        SOut::Fail(p) => SOut::Fail(p),
                        SOut::Miss => SOut::Done(left, j),
                    }
                }
            },
            SOut::Fail(p) => SOut::Fail(p),
            SOut::Miss => SOut::Done(left, j),
        }
    }
}

/// A term: a head with its postfix accessors folded in from the left.
pub open spec fn expr_term(s: Seq<char>, i: int, d: nat) -> SOut
    decreases d, s.len() - i, 5int,
{
    match term_head(s, i, d) {
        SOut::Done(h, j) => if ahead(s, i, j) {
            postfix_fold(s, j, d, h)
        } else {
            SOut::Miss
        },
        r => r,
    }
}

/// The alternatives of a term, in order.
pub open spec fn term_head(s: Seq<char>, i: int, d: nat) -> SOut
    decreases d, s.len() - i, 4int,
{
    match address(s, i) {
        SOut::Miss => match literal(s, i) {
            SOut::Miss => match for_loop(s, i, d) {
                SOut::Miss => match collection(s, i, d) {
                    SOut::Miss => match if_statement(s, i, d) {
                        SOut::Miss => match function(s, i, d) {
                            SOut::Miss => match identifier(s, i) {
                                SOut::Miss => sub_expression(s, i, d),
                                r => r,
                            },
                            r => r,
                        },
                        r => r,
                    },
                    r => r,
                },
                r => r,
            },
            r => r,
        },
        r => r,
    }
}

/// The node `acc` with a postfix accessor applied: an accessor with an
/// operand gives a binary operation, a splat a unary one.
pub open spec fn apply_postfix(acc: SNode, op: SNode, operand: Option<SNode>) -> SNode {
    match operand {
        Some(r) => like(acc, SToken::BinaryOp(Box::new(op), Box::new(acc), Box::new(r))),
        None => like(acc, SToken::UnaryOp(Box::new(op), Box::new(acc))),
    }
}

/// Folds the postfix accessors from `j` onto `acc`, left to right.
pub open spec fn postfix_fold(s: Seq<char>, j: int, d: nat, acc: SNode) -> SOut
    decreases d, s.len() - j, 2int,
{
    match postfix(s, j, d) {
        SPost::Done(op, operand, k) => if ahead(s, j, k) {
            postfix_fold(s, k, d, apply_postfix(acc, op, operand))
        } else {
            SOut::Done(acc, j)
        },
        SPost::Miss => SOut::Done(acc, j),
        SPost::Fail(p) => SOut::Fail(p),
    }
}

/// One postfix accessor: `.*`, `.name`, `[*]` or `[expression]`, told apart
/// by their first two characters.
pub open spec fn postfix(s: Seq<char>, j: int, d: nat) -> SPost
    decreases d, s.len() - j, 1int,
{
    if !(0 <= j && j + 1 < s.len()) {
        SPost::Miss
    } else if s[j] == '.' {
        if s[j + 1] == '*' {
            SPost::Done(op_at(s, j, Operator::AttrSplat), None, j + 2)
        } else {
            match identifier(s, j + 1) {
                SOut::Done(id, k) => SPost::Done(op_at(s, j, Operator::AttrAccess), Some(id), k),
                _ => SPost::Miss,
            }
        }
    } else if s[j] == '[' {
        if exact_at(s, j, "[*]"@) {
            SPost::Done(op_at(s, j, Operator::FullSplat), None, j + 3)
        } else if d == 0 {
            SPost::Fail(j)
        } else {
            match expression(s, j + 1, (d - 1) as nat) {
                SOut::Done(x, k) => if char_at(s, k, ']') {
                    SPost::Done(op_at(s, j, Operator::IndexAccess), Some(x), k + 1)
                } else {
                    SPost::Miss
                },
                SOut::Miss => SPost::Miss,
                SOut::Fail(p) => SPost::Fail(p),
            }
        }
    } else {
        SPost::Miss
    }
}

/// `( expression )`, which stands for the expression itself.
pub open spec fn sub_expression(s: Seq<char>, i: int, d: nat) -> SOut
    decreases d, s.len() - i, 2int,
{
    if !char_at(s, i, '(') {
        SOut::Miss
    } else if d == 0 {
        SOut::Fail(i)
    } else {
        match expression(s, run_end(s, i + 1, Class::Multispace), (d - 1) as nat) {
            SOut::Done(x, e) => {
                let k = run_end(s, e, Class::Multispace);
                if char_at(s, k, ')') {
                    SOut::Done(x, k + 1)
                } else {
                    SOut::Miss
                }
            },
            r => r,
        }
    }
}

// ---------------------------------------------------------------- lists

/// A collection, chosen by its opening bracket.
pub open spec fn collection(s: Seq<char>, i: int, d: nat) -> SOut
    decreases d, s.len() - i, 3int,
{
    if char_at(s, i, '[') {
        list(s, i, d)
    } else {
        SOut::Miss
    }
}

/// The end of a list: an optional `,`, whitespace and `]`; the position after it.
pub open spec fn list_end(s: Seq<char>, k: int) -> Option<int> {
    let k1 = if char_at(s, k, ',') {
        k + 1
    } else {
        k
    };
    let k2 = run_end(s, k1, Class::Multispace);
    if char_at(s, k2, ']') {
        Some(k2 + 1)
    } else {
        None
    }
}

/// `[` items `]`, the items separated by commas, a trailing comma allowed.
pub open spec fn list(s: Seq<char>, i: int, d: nat) -> SOut
    decreases d, s.len() - i, 2int,
{
    if !char_at(s, i, '[') {
        SOut::Miss
    } else if d == 0 {
        SOut::Fail(i)
    } else {
        let a = run_end(s, i + 1, Class::Multispace);
        match list_end(s, a) {
            Some(e) => SOut::Done(at(s, i, SToken::List(Seq::empty())), e),
            None => {
                let items = match expression(s, a, (d - 1) as nat) {
                    SOut::Done(x, e) => if ahead(s, i, e) {
                        list_items(s, e, (d - 1) as nat, seq![x])
                    } else {
                        SList::Done(Seq::empty(), a)
                    },
                    SOut::Miss => list_items(s, a, (d - 1) as nat, Seq::empty()),
                    SOut::Fail(p) => SList::Fail(p),
                };
                match items {
                    SList::Done(xs, e) => match list_end(s, e) {
                        Some(f) => SOut::Done(at(s, i, SToken::List(xs)), f),
                        None => SOut::Miss,
                    },
                    SList::Fail(p) => SOut::Fail(p),
                }
            },
        }
    }
}

/// Further list items after `acc`, each `,` whitespace expression, until
/// the end of the list is in sight or an item does not follow.
pub open spec fn list_items(s: Seq<char>, j: int, d: nat, acc: Seq<SNode>) -> SList
    decreases d, s.len() - j, 8int,
{
    let m = run_end(s, j + 1, Class::Multispace);
    if list_end(s, j) is Some || !char_at(s, j, ',') || !ahead(s, j, m) {
        SList::Done(acc, j)
    } else {
        match expression(s, m, d) {
            SOut::Done(x, e) => if ahead(s, j, e) {
                list_items(s, e, d, acc.push(x))
            } else {
                SList::Done(acc, j)
            },
            SOut::Miss => SList::Done(acc, j),
            SOut::Fail(p) => SList::Fail(p),
        }
    }
}

// ---------------------------------------------------------------- calls

/// `key = term`, an argument passed by name.
pub open spec fn option(s: Seq<char>, i: int, d: nat) -> SOut
    decreases d, s.len() - i, 8int,
{
    match identifier(s, i) {
        SOut::Done(key, j) => {
            let k = run_end(s, j, Class::Space);
            let m = run_end(s, k + 1, Class::Space);
            if char_at(s, k, '=') && ahead(s, i, m) {
                match expr_term(s, m, d) {
                    SOut::Done(v, e) => SOut::Done(
                        like(key, SToken::Option(Box::new(key), Box::new(v))),
                        e,
                    ),
                    r => r,
                }
            } else {
                SOut::Miss
            }
        },
        r => r,
    }
}

/// A function argument: a named option, else an expression.
pub open spec fn function_arg(s: Seq<char>, i: int, d: nat) -> SOut
    decreases d, s.len() - i, 9int,
{
    match option(s, i, d) {
        SOut::Miss => expression(s, i, d),
        r => r,
    }
}

/// Further arguments after `acc`, each whitespace `,` whitespace argument.
pub open spec fn arguments(s: Seq<char>, j: int, d: nat, acc: Seq<SNode>) -> SList
    decreases d, s.len() - j, 10int,
{
    let c = run_end(s, j, Class::Multispace);
    let m = run_end(s, c + 1, Class::Multispace);
    if !char_at(s, c, ',') || !ahead(s, j, m) {
        SList::Done(acc, j)
    } else {
        match function_arg(s, m, d) {
            SOut::Done(x, e) => if ahead(s, j, e) {
                arguments(s, e, d, acc.push(x))
            } else {
                SList::Done(acc, j)
            },
            SOut::Miss => SList::Done(acc, j),
            SOut::Fail(p) => SList::Fail(p),
        }
    }
}

/// The arguments with the last one spread when `...` follows it at `e`.
pub open spec fn spread_last(s: Seq<char>, args: Seq<SNode>, e: int) -> (Seq<SNode>, int) {
    if args.len() > 0 && exact_at(s, e, "..."@) {
        let last = args[args.len() - 1];
        (
            args.subrange(0, args.len() - 1).push(
                like(
                    last,
                    SToken::UnaryOp(Box::new(op_at(s, e, Operator::Elipsis)), Box::new(last)),
                ),
            ),
            e + 3,
        )
    } else {
        (args, e)
    }
}

/// The optional `.subfunction` after a name ending at `j`.
pub open spec fn subfunction(s: Seq<char>, j: int) -> (Option<SNode>, int) {
    if char_at(s, j, '.') {
        match identifier(s, j + 1) {
            SOut::Done(sub, k) => (Some(sub), k),
            _ => (None, j),
        }
    } else {
        (None, j)
    }
}

/// `name(.subfunction)?(args)`, the node at the name.
pub open spec fn function(s: Seq<char>, i: int, d: nat) -> SOut
    decreases d, s.len() - i, 2int,
{
    match identifier(s, i) {
        SOut::Done(name, j) => {
            let (sub, p) = subfunction(s, j);
            let sub_box = match sub {
                Some(n) => Some(Box::new(n)),
                None => None,
            };
            if !char_at(s, p, '(') {
                SOut::Miss
            } else if d == 0 {
                SOut::Fail(i)
            } else {
                let args = match function_arg(
                    s,
                    run_end(s, p + 1, Class::Multispace),
                    (d - 1) as nat,
                ) {
                    SOut::Done(x, e) => if ahead(s, p, e) {
                        arguments(s, e, (d - 1) as nat, seq![x])
                    } else {
                        SList::Done(Seq::empty(), p + 1)
                    },
                    SOut::Miss => SList::Done(Seq::empty(), p + 1),
                    SOut::Fail(q) => SList::Fail(q),
                };
                match args {
                    SList::Done(xs, e) => {
                        let (ys, e2) = spread_last(s, xs, e);
                        let k = run_end(s, e2, Class::Multispace);
                        if char_at(s, k, ')') {
                            SOut::Done(like(name, SToken::Function(Box::new(name), sub_box, ys)), k + 1)
                        } else {
                            SOut::Miss
                        }
                    },
                    SList::Fail(q) => SOut::Fail(q),
                }
            }
        },
        r => r,
    }
}

/// `if(condition, if_true[, if_false])`, the keyword in any case; the node is
/// at the keyword.
pub open spec fn if_statement(s: Seq<char>, i: int, d: nat) -> SOut
    decreases d, s.len() - i, 2int,
{
    if !(word_at(s, i, "if"@) && char_at(s, i + 2, '(')) {
        SOut::Miss
    } else if d == 0 {
        SOut::Fail(i)
    } else {
        let d1 = (d - 1) as nat;
        match expression(s, run_end(s, i + 3, Class::Multispace), d1) {
            SOut::Done(c, b) => if !char_at(s, b, ',') {
                SOut::Miss
            } else {
                match expression(s, run_end(s, b + 1, Class::Multispace), d1) {
                    SOut::Done(t, e) => {
                        let third = if char_at(s, e, ',') {
                            match expression(s, run_end(s, e + 1, Class::Multispace), d1) {
                                SOut::Done(f, e2) => SOut::Done(f, e2),
                                SOut::Miss => SOut::Miss,
                                SOut::Fail(p) => SOut::Fail(p),
                            }
                        } else {
                            SOut::Miss
                        };
                        match third {
                            SOut::Fail(p) => SOut::Fail(p),
                            _ => {
                                let (f, e3) = match third {
                                    SOut::Done(f, e2) => (Some(Box::new(f)), e2),
                                    _ => (None, e),
                                };
                                let k = run_end(s, e3, Class::Multispace);
                                if char_at(s, k, ')') {
                                    SOut::Done(
                                        at(s, i, SToken::Conditional(Box::new(c), Box::new(t), f)),
                                        k + 1,
                                    )
                                } else {
                                    SOut::Miss
                                }
                            },
                        }
                    },
                    r => r,
                }
            },
            r => r,
        }
    }
}

// ---------------------------------------------------------------- comprehensions

/// Further binds after `acc`, each `,` spaces term.
pub open spec fn binds(s: Seq<char>, j: int, d: nat, acc: Seq<SNode>) -> SList
    decreases d, s.len() - j, 8int,
{
    let m = run_end(s, j + 1, Class::Space);
    if !char_at(s, j, ',') || !ahead(s, j, m) {
        SList::Done(acc, j)
    } else {
        match expr_term(s, m, d) {
            SOut::Done(x, e) => if ahead(s, j, e) {
                binds(s, e, d, acc.push(x))
            } else {
                SList::Done(acc, j)
            },
            SOut::Miss => SList::Done(acc, j),
            SOut::Fail(p) => SList::Fail(p),
        }
    }
}

/// `for binds in expression :`, with the spaces it requires.
pub open spec fn for_intro(s: Seq<char>, k: int, d: nat) -> SIntro
    decreases d, s.len() - k, 9int,
{
    let a = run_end(s, k, Class::Space);
    let b = run_end(s, a + 3, Class::Space);
    if !(word_at(s, a, "for"@) && b > a + 3 && ahead(s, k, b)) {
        SIntro::Miss
    } else {
        let bs = match expr_term(s, b, d) {
            SOut::Done(x, e) => if ahead(s, b, e) {
                binds(s, e, d, seq![x])
            } else {
                SList::Done(Seq::empty(), b)
            },
            SOut::Miss => SList::Done(Seq::empty(), b),
            SOut::Fail(p) => SList::Fail(p),
        };
        match bs {
            SList::Fail(p) => SIntro::Fail(p),
            SList::Done(xs, j) => {
                let c = run_end(s, j, Class::Space);
                let c2 = run_end(s, c + 2, Class::Space);
                if !(c > j && word_at(s, c, "in"@) && c2 > c + 2 && ahead(s, k, c2)) {
                    SIntro::Miss
                } else {
                    match expression(s, c2, d) {
                        SOut::Done(x, e) => {
                            let f = run_end(s, e, Class::Space);
                            let g = run_end(s, f + 1, Class::Space);
                            if f > e && char_at(s, f, ':') && g > f + 1 {
                                SIntro::Done(xs, x, g)
                            } else {
                                SIntro::Miss
                            }
                        },
                        SOut::Miss => SIntro::Miss,
                        SOut::Fail(p) => SIntro::Fail(p),
                    }
                }
            },
        }
    }
}

/// The optional `if condition` of a comprehension, after `h`.
pub open spec fn for_cond(s: Seq<char>, h: int, d: nat) -> SOut
    decreases d, s.len() - h, 9int,
{
    let c = run_end(s, h, Class::Space);
    let c2 = run_end(s, c + 2, Class::Space);
    if c > h && word_at(s, c, "if"@) && c2 > c + 2 && ahead(s, h, c2) {
        expression(s, c2, d)
    } else {
        SOut::Miss
    }
}

/// A comprehension: `[for ... : body (if cond)?]` or
/// `{for ... : key => value(...)? (if cond)?}`; the node is at the bracket.
pub open spec fn for_loop(s: Seq<char>, i: int, d: nat) -> SOut
    decreases d, s.len() - i, 2int,
{
    if !(char_at(s, i, '[') || char_at(s, i, '{')) {
        SOut::Miss
    } else if d == 0 {
        SOut::Fail(i)
    } else {
        let d1 = (d - 1) as nat;
        match for_intro(s, i + 1, d1) {
            SIntro::Done(bs, x, g) => if char_at(s, i, '[') {
                match expression(s, g, d1) {
                    SOut::Done(body, h) => match for_cond(s, h, d1) {
                        SOut::Fail(p) => SOut::Fail(p),
                        c => {
                            let (cond, k) = match c {
                                SOut::Done(cn, k) => (Some(Box::new(cn)), k),
                                _ => (None, h),
                            };
                            if char_at(s, k, ']') {
                                SOut::Done(
                                    at(s, i, SToken::TupleFor(bs, Box::new(x), Box::new(body), cond)),
                                    k + 1,
                                )
                            } else {
                                SOut::Miss
                            }
                        },
                    },
                    r => r,
                }
            } else {
                match expression(s, g, d1) {
                    SOut::Done(key, h) => {
                        let a = run_end(s, h, Class::Space);
                        let a2 = run_end(s, a + 2, Class::Space);
                        if !exact_at(s, a, "=>"@) {
                            SOut::Miss
                        } else {
                            match expression(s, a2, d1) {
                                SOut::Done(val, h2) => {
                                    let grouping = exact_at(s, h2, "..."@);
                                    let h3 = if grouping {
                                        h2 + 3
                                    } else {
                                        h2
                                    };
                                    match for_cond(s, h3, d1) {
                                        SOut::Fail(p) => SOut::Fail(p),
                                        c => {
                                            let (cond, k) = match c {
                                                SOut::Done(cn, k) => (Some(Box::new(cn)), k),
                                                _ => (None, h3),
                                            };
                                            if char_at(s, k, '}') {
                                                SOut::Done(
                                                    at(
                                                        s,
                                                        i,
                                                        SToken::ObjectFor(
                                                            bs,
                                                            Box::new(x),
                                                            Box::new(key),
                                                            Box::new(val),
                                                            cond,
                                                            grouping,
                                                        ),
                                                    ),
                                                    k + 1,
                                                )
                                            } else {
                                                SOut::Miss
                                            }
                                        },
                                    }
                                },
                                r => r,
                            }
                        }
                    },
                    r => r,
                }
            },
            SIntro::Miss => SOut::Miss,
            SIntro::Fail(p) => SOut::Fail(p),
        }
    }
}

/// `name = term` and an optional line feed: a top-level assignment. The
/// node is at the name.
pub open spec fn attribute(s: Seq<char>, i: int, d: nat) -> SOut {
    match identifier(s, i) {
        SOut::Done(key, j) => {
            let k = run_end(s, j, Class::Space);
            let m = run_end(s, k + 1, Class::Space);
            if char_at(s, k, '=') && ahead(s, i, m) {
                match expr_term(s, m, d) {
                    SOut::Done(v, e) => SOut::Done(
                        like(key, SToken::Attribute(Box::new(key), Box::new(v))),
                        if char_at(s, e, '\n') {
                            e + 1
                        } else {
                            e
                        },
                    ),
                    r => r,
                }
            } else {
                SOut::Miss
            }
        },
        r => r,
    }
}

// ---------------------------------------------------------------- programs

/// The end of a run of line endings (`\n` or `\r\n`) from `k`.
pub open spec fn eol_run(s: Seq<char>, k: int) -> int
    decreases s.len() - k,
{
    if char_at(s, k, '\n') {
        eol_run(s, k + 1)
    } else if char_at(s, k, '\r') && char_at(s, k + 1, '\n') {
        eol_run(s, k + 2)
    } else {
        k
    }
}

/// What ends a statement at `e`, after spaces: `;`; a line comment and an
/// optional line ending; the end of input; or line endings. The position
/// after it.
pub open spec fn terminator(s: Seq<char>, e: int) -> Option<int> {
    let k = run_end(s, e, Class::Space);
    if char_at(s, k, ';') {
        Some(k + 1)
    } else {
        match line_comment(s, k) {
            SOut::Done(_, c) => Some(
                if char_at(s, c, '\n') {
                    c + 1
                } else if char_at(s, c, '\r') && char_at(s, c + 1, '\n') {
                    c + 2
                } else {
                    c
                },
            ),
            _ => if k == s.len() {
                Some(k)
            } else if eol_run(s, k) > k {
                Some(eol_run(s, k))
            } else {
                None
            },
        }
    }
}

/// How a sequence of statements ends: where the statements stop (with the
/// nodes kept and the number of statements read), or an abort.
pub enum SFile {
    Stop(Seq<SNode>, int, nat),
    Fail(int),
}

/// One statement at `i`: whitespace, then an expression or a line comment.
pub open spec fn statement(s: Seq<char>, i: int) -> SOut {
    match expression(s, run_end(s, i, Class::Multispace), MAX_DEPTH as nat) {
        SOut::Miss => line_comment(s, run_end(s, i, Class::Multispace)),
        r => r,
    }
}

/// Statements from `i`, each with its terminator; comments are dropped.
pub open spec fn statements(s: Seq<char>, i: int, acc: Seq<SNode>, count: nat) -> SFile
    decreases s.len() - i,
{
    match statement(s, i) {
        SOut::Fail(p) => SFile::Fail(p),
        SOut::Miss => SFile::Stop(acc, i, count),
        SOut::Done(n, e) => match terminator(s, e) {
            None => SFile::Stop(acc, i, count),
            Some(t) => if !ahead(s, i, t) {
                SFile::Stop(acc, i, count)
            } else {
                statements(
                    s,
                    t,
                    if n.token is LineComment {
                        acc
                    } else {
                        acc.push(n)
                    },
                    count + 1,
                )
            },
        },
    }
}

/// A program: one or more statements that take the whole input. On failure,
/// the position where reading stopped and whether it was an abort.
pub open spec fn program(s: Seq<char>) -> Result<Seq<SNode>, (int, bool)> {
    match statements(s, 0, Seq::empty(), 0) {
        SFile::Fail(p) => Err((p, true)),
        SFile::Stop(acc, j, count) => if count > 0 && j == s.len() {
            Ok(acc)
        } else {
            Err((j, false))
        },
    }
}

} // verus!
