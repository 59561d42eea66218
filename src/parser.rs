//! The executable parser, proved to read exactly what `grammar` states.
use vstd::prelude::*;
use crate::ast::{
    Attribute, BinaryOp, Conditional, ForLoop, Function, Node, ObjectItem, Operator, Opt, SNode,
    Token, Tree, UnaryOp, lemma_view_len, lemma_view_push, view_node, view_nodes,
};
use crate::chars::{
    Class, class_has, has_char, lower_of, has_text, has_word, scan, text_of, to_lower, valid_address_char,
    valid_ident_start_char_1, valid_ident_start_char_a,
};
use crate::grammar;
use crate::grammar::{SIntro, SList, SOut, SPost};
use crate::number::{Scanned, lemma_run_members, scan_number};
use crate::source::Source;

verus! {

/// The outcome of reading one node.
pub enum Outcome {
    /// The node and the position after it.
    Done(Node, usize),
    /// No match here; another alternative may be tried.
    Miss,
    /// Malformed input at the position; no alternative may recover.
    Fail(usize),
}

/// The view of an outcome.
pub open spec fn view_out(o: Outcome) -> SOut {
    match o {
        Outcome::Done(n, j) => SOut::Done(view_node(n), j as int),
        Outcome::Miss => SOut::Miss,
        Outcome::Fail(p) => SOut::Fail(p as int),
    }
}

/// A node read from `i` ends after `i`, and any position stays in the input.
pub open spec fn moved(o: Outcome, i: int, len: int) -> bool {
    match o {
        Outcome::Done(_, j) => i < j <= len,
        Outcome::Miss => true,
        Outcome::Fail(p) => p <= len,
    }
}

/// Like `moved`, for a reading that may end where it started.
pub open spec fn kept(o: Outcome, i: int, len: int) -> bool {
    match o {
        Outcome::Done(_, j) => i <= j <= len,
        Outcome::Miss => true,
        Outcome::Fail(p) => p <= len,
    }
}

/// The outcome of reading a sequence of nodes.
enum ListOut {
    Done(Vec<Node>, usize),
    Fail(usize),
}

spec fn view_list(o: ListOut) -> SList {
    match o {
        ListOut::Done(v, j) => SList::Done(view_nodes(v@), j as int),
        ListOut::Fail(p) => SList::Fail(p as int),
    }
}

spec fn list_kept(o: ListOut, i: int, len: int) -> bool {
    match o {
        ListOut::Done(_, j) => i <= j <= len,
        ListOut::Fail(p) => p <= len,
    }
}

/// The outcome of reading a postfix accessor.
enum PostOut {
    Done(Node, Option<Node>, usize),
    Miss,
    Fail(usize),
}

spec fn view_post(o: PostOut) -> SPost {
    match o {
        PostOut::Done(op, x, j) => SPost::Done(
            view_node(op),
            match x {
                Some(n) => Some(view_node(n)),
                None => None,
            },
            j as int,
        ),
        PostOut::Miss => SPost::Miss,
        PostOut::Fail(p) => SPost::Fail(p as int),
    }
}

spec fn post_moved(o: PostOut, i: int, len: int) -> bool {
    match o {
        PostOut::Done(_, _, j) => i < j <= len,
        PostOut::Miss => true,
        PostOut::Fail(p) => p <= len,
    }
}

/// The outcome of reading the head of a comprehension.
enum IntroOut {
    Done(Vec<Node>, Node, usize),
    Miss,
    Fail(usize),
}

spec fn view_intro(o: IntroOut) -> SIntro {
    match o {
        IntroOut::Done(v, x, j) => SIntro::Done(view_nodes(v@), view_node(x), j as int),
        IntroOut::Miss => SIntro::Miss,
        IntroOut::Fail(p) => SIntro::Fail(p as int),
    }
}

spec fn intro_moved(o: IntroOut, i: int, len: int) -> bool {
    match o {
        IntroOut::Done(_, _, j) => i < j <= len,
        IntroOut::Miss => true,
        IntroOut::Fail(p) => p <= len,
    }
}

/// A node for `token` at position `i`.
fn node_at(src: &Source, i: usize, token: Token) -> (r: Node)
    requires
        src.wf(),
        i <= src@.len(),
    ensures
        r.offset == crate::source::byte_offset(src@, i as int),
        r.line == crate::source::line_at(src@, i as int),
        r.column == crate::source::column_at(src@, i as int),
        r.token == token,
{
    let m = src.marks[i];
    Node::new(token, m)
}

/// An operator node at position `i`.
fn op_node(src: &Source, i: usize, op: Operator) -> (r: Node)
    requires
        src.wf(),
        i <= src@.len(),
    ensures
        view_node(r) == grammar::op_at(src@, i as int, op),
{
    node_at(src, i, Token::Operator(op))
}

// ---------------------------------------------------------------- literals

/// Reads `true` or `false`.
pub fn boolean(src: &Source, i: usize) -> (r: Outcome)
    requires
        src.wf(),
        i <= src@.len(),
    ensures
        view_out(r) == grammar::boolean(src@, i as int),
        moved(r, i as int, src@.len() as int),
{
    proof {
        reveal_strlit("true");
        reveal_strlit("false");
    }
    let v = &src.chars;
    if has_char(v, i, 't') || has_char(v, i, 'T') {
        if has_word(v, i, "true") {
            return Outcome::Done(node_at(src, i, Token::Boolean(true)), i + 4);
        }
        Outcome::Miss
    } else if has_char(v, i, 'f') || has_char(v, i, 'F') {
        if has_word(v, i, "false") {
            return Outcome::Done(node_at(src, i, Token::Boolean(false)), i + 5);
        }
        Outcome::Miss
    } else {
        Outcome::Miss
    }
}

/// Reads `none`.
pub fn none_literal(src: &Source, i: usize) -> (r: Outcome)
    requires
        src.wf(),
        i <= src@.len(),
    ensures
        view_out(r) == grammar::none_literal(src@, i as int),
        moved(r, i as int, src@.len() as int),
{
    proof {
        reveal_strlit("none");
    }
    let v = &src.chars;
    if has_text(v, i, "none") && !(i + 4 < v.len() && class_has(v[i + 4], Class::IdentTail)) {
        Outcome::Done(node_at(src, i, Token::NoneValue), i + 4)
    } else {
        Outcome::Miss
    }
}

/// Finds the closing quote of a string whose text starts at `j`.
fn string_end(v: &Vec<char>, j: usize) -> (r: Option<usize>)
    requires
        j <= v@.len(),
        v@.len() < crate::source::MAX_CHARS,
    ensures
        match r {
            Some(e) => grammar::string_end(v@, j as int) == Some(e as int) && j <= e < v@.len(),
            None => grammar::string_end(v@, j as int) is None,
        },
{
    let mut k = j;
    while k < v.len()
        invariant
            j <= k <= v@.len() + 1,
            v@.len() < crate::source::MAX_CHARS,
            grammar::string_end(v@, j as int) == grammar::string_end(v@, k as int),
        decreases v@.len() + 1 - k,
    {
        let c = v[k];
        if c == '\n' {
            return None;
        }
        if c == '"' {
            return Some(k);
        }
        if c == '\\' {
            if k + 1 < v.len() && (v[k + 1] == 'r' || v[k + 1] == 'n' || v[k + 1] == 't' || v[k
                + 1] == '"' || v[k + 1] == '\\') {
                k = k + 2;
            } else {
                return None;
            }
        } else {
            k = k + 1;
        }
    }
    None
}

/// Reads a double-quoted single-line string.
pub fn single_line_string(src: &Source, i: usize) -> (r: Outcome)
    requires
        src.wf(),
        i <= src@.len(),
    ensures
        view_out(r) == grammar::single_line_string(src@, i as int),
        moved(r, i as int, src@.len() as int),
{
    let v = &src.chars;
    if !has_char(v, i, '"') {
        return Outcome::Miss;
    }
    match string_end(v, i + 1) {
        Some(e) => {
            let text = text_of(v, i + 1, e);
            Outcome::Done(node_at(src, i, Token::String(text)), e + 1)
        },
        None => Outcome::Miss,
    }
}

/// Reads a string.
pub fn string(src: &Source, i: usize) -> (r: Outcome)
    requires
        src.wf(),
        i <= src@.len(),
    ensures
        view_out(r) == grammar::string(src@, i as int),
        moved(r, i as int, src@.len() as int),
{
    if has_char(&src.chars, i, '"') {
        single_line_string(src, i)
    } else {
        Outcome::Miss
    }
}

/// Reads a number.
pub fn number(src: &Source, i: usize) -> (r: Outcome)
    requires
        src.wf(),
        i <= src@.len(),
    ensures
        view_out(r) == grammar::number(src@, i as int),
        moved(r, i as int, src@.len() as int),
{
    match scan_number(&src.chars, i) {
        Scanned::Done(n, j) => Outcome::Done(node_at(src, i, Token::Number(n)), j),
        Scanned::Miss => Outcome::Miss,
        Scanned::Fail => Outcome::Fail(i),
    }
}

/// Reads a percentage.
pub fn percentage(src: &Source, i: usize) -> (r: Outcome)
    requires
        src.wf(),
        i <= src@.len(),
    ensures
        view_out(r) == grammar::percentage(src@, i as int),
        moved(r, i as int, src@.len() as int),
{
    match scan_number(&src.chars, i) {
        Scanned::Done(n, j) => {
            if has_char(&src.chars, j, '%') {
                Outcome::Done(node_at(src, i, Token::Percentage(n)), j + 1)
            } else {
                Outcome::Miss
            }
        },
        Scanned::Miss => Outcome::Miss,
        Scanned::Fail => Outcome::Fail(i),
    }
}

/// Reads a percentage, else a number.
pub fn numeric(src: &Source, i: usize) -> (r: Outcome)
    requires
        src.wf(),
        i <= src@.len(),
    ensures
        view_out(r) == grammar::numeric(src@, i as int),
        moved(r, i as int, src@.len() as int),
{
    match percentage(src, i) {
        Outcome::Miss => number(src, i),
        r => r,
    }
}

/// Reads a literal, chosen by its first character.
pub fn literal(src: &Source, i: usize) -> (r: Outcome)
    requires
        src.wf(),
        i <= src@.len(),
    ensures
        view_out(r) == grammar::literal(src@, i as int),
        moved(r, i as int, src@.len() as int),
{
    let v = &src.chars;
    if has_char(v, i, 't') || has_char(v, i, 'T') || has_char(v, i, 'f') || has_char(v, i, 'F') {
        boolean(src, i)
    } else if has_char(v, i, '"') {
        string(src, i)
    } else if has_char(v, i, '-') || (i < v.len() && valid_ident_start_char_1(v[i])) {
        numeric(src, i)
    } else if has_char(v, i, 'n') {
        none_literal(src, i)
    } else {
        Outcome::Miss
    }
}

/// Reads an address.
pub fn address(src: &Source, i: usize) -> (r: Outcome)
    requires
        src.wf(),
        i <= src@.len(),
    ensures
        view_out(r) == grammar::address(src@, i as int),
        moved(r, i as int, src@.len() as int),
{
    proof {
        reveal_strlit("0x");
    }
    let v = &src.chars;
    if !has_word(v, i, "0x") || v.len() - i < 42 {
        return Outcome::Miss;
    }
    let end = i + 42;
    let mut k = i + 2;
    while k < end
        invariant
            end == i + 42,
            v@ == src@,
            i + 2 <= k <= end <= v@.len(),
            forall|m: int| i + 2 <= m < k ==> #[trigger] crate::chars::is_hex(v@[m]),
        decreases i + 42 - k,
    {
        if !valid_address_char(v[k]) {
            assert(!crate::chars::is_hex(v@[k as int]));
            return Outcome::Miss;
        }
        k = k + 1;
    }
    if end < v.len() && valid_address_char(v[end]) {
        return Outcome::Miss;
    }
    let text = text_of(v, i, end);
    Outcome::Done(node_at(src, i, Token::Address(text)), end)
}

/// Reads an identifier, lower-cased.
pub fn identifier(src: &Source, i: usize) -> (r: Outcome)
    requires
        src.wf(),
        i <= src@.len(),
    ensures
        view_out(r) == grammar::identifier(src@, i as int),
        moved(r, i as int, src@.len() as int),
        r matches Outcome::Done(_, e) ==> (crate::chars::ascii_text(src@.subrange(i as int, e as int))
            ==> crate::chars::ascii_lowered(
            src@.subrange(i as int, e as int),
            lower_of(src@.subrange(i as int, e as int)),
        )),
{
    let v = &src.chars;
    if i >= v.len() {
        return Outcome::Miss;
    }
    let e = if valid_ident_start_char_a(v[i]) {
        scan(v, i + 1, Class::IdentTail)
    } else if valid_ident_start_char_1(v[i]) {
        let e = scan(v, i + 1, Class::Alpha);
        if e == i + 1 {
            return Outcome::Miss;
        }
        e
    } else {
        return Outcome::Miss;
    };
    let text = text_of(v, i, e);
    let lower = to_lower(&text);
    Outcome::Done(node_at(src, i, Token::Identifier(lower)), e)
}

/// Reads a line comment.
pub fn line_comment(src: &Source, i: usize) -> (r: Outcome)
    requires
        src.wf(),
        i <= src@.len(),
    ensures
        view_out(r) == grammar::line_comment(src@, i as int),
        moved(r, i as int, src@.len() as int),
{
    let v = &src.chars;
    if !has_char(v, i, '#') {
        return Outcome::Miss;
    }
    let j = scan(v, i + 1, Class::Space);
    let e = scan(v, j, Class::NotEol);
    let text = text_of(v, j, e);
    Outcome::Done(node_at(src, i, Token::LineComment(text)), e)
}

// ---------------------------------------------------------------- operators

/// Reads `-` or `+`.
fn sign(src: &Source, i: usize) -> (r: Outcome)
    requires
        src.wf(),
        i <= src@.len(),
    ensures
        view_out(r) == grammar::sign(src@, i as int),
        moved(r, i as int, src@.len() as int),
{
    if has_char(&src.chars, i, '-') {
        Outcome::Done(op_node(src, i, Operator::Minus), i + 1)
    } else if has_char(&src.chars, i, '+') {
        Outcome::Done(op_node(src, i, Operator::Plus), i + 1)
    } else {
        Outcome::Miss
    }
}

/// Reads `!` or `not`.
fn negation(src: &Source, i: usize) -> (r: Outcome)
    requires
        src.wf(),
        i <= src@.len(),
    ensures
        view_out(r) == grammar::negation(src@, i as int),
        moved(r, i as int, src@.len() as int),
{
    proof {
        reveal_strlit("not");
    }
    let v = &src.chars;
    if has_char(v, i, '!') {
        return Outcome::Done(op_node(src, i, Operator::Not), i + 1);
    }
    if has_word(v, i, "not") {
        let e = scan(v, i + 3, Class::Multispace);
        if e > i + 3 {
            return Outcome::Done(op_node(src, i, Operator::Not), e);
        }
    }
    Outcome::Miss
}

/// Reads a unary operator.
fn unary_operator(src: &Source, i: usize) -> (r: Outcome)
    requires
        src.wf(),
        i <= src@.len(),
    ensures
        view_out(r) == grammar::unary_operator(src@, i as int),
        moved(r, i as int, src@.len() as int),
{
    match sign(src, i) {
        Outcome::Miss => negation(src, i),
        r => r,
    }
}

/// Reads `++`, `--` or `|>`.
fn list_operator(v: &Vec<char>, i: usize) -> (r: Option<Operator>)
    requires
        i <= v@.len(),
        v@.len() < crate::source::MAX_CHARS,
    ensures
        r == grammar::list_operator(v@, i as int),
{
    let e = scan(v, i, Class::ListOp);
    if e != i + 2 {
        return None;
    }
    if has_text(v, i, "++") {
        Some(Operator::Concatenate)
    } else if has_text(v, i, "--") {
        Some(Operator::Subtract)
    } else if has_text(v, i, "|>") {
        Some(Operator::Pipe)
    } else {
        None
    }
}

/// Reads a comparison operator.
fn comparison_operator(v: &Vec<char>, i: usize) -> (r: Option<(Operator, usize)>)
    requires
        i <= v@.len(),
        v@.len() < crate::source::MAX_CHARS,
    ensures
        match r {
            Some((op, e)) => grammar::comparison_operator(v@, i as int) == Some((op, e as int)),
            None => grammar::comparison_operator(v@, i as int) is None,
        },
{
    let e = scan(v, i, Class::CompareOp);
    if e == i + 2 && has_text(v, i, "==") {
        Some((Operator::Equal, e))
    } else if e == i + 2 && has_text(v, i, "!=") {
        Some((Operator::NotEqual, e))
    } else if e == i + 2 && has_text(v, i, "<=") {
        Some((Operator::LessEqual, e))
    } else if e == i + 2 && has_text(v, i, ">=") {
        Some((Operator::GreaterEqual, e))
    } else if e == i + 1 && has_char(v, i, '<') {
        Some((Operator::Less, e))
    } else if e == i + 1 && has_char(v, i, '>') {
        Some((Operator::Greater, e))
    } else {
        None
    }
}

/// Reads a single-character arithmetic operator.
fn arithmetic_operator(v: &Vec<char>, i: usize) -> (r: Option<Operator>)
    ensures
        r == grammar::arithmetic_operator(v@, i as int),
{
    if has_char(v, i, '+') {
        Some(Operator::Plus)
    } else if has_char(v, i, '-') {
        Some(Operator::Minus)
    } else if has_char(v, i, '*') {
        Some(Operator::Multiply)
    } else if has_char(v, i, '/') {
        Some(Operator::Divide)
    } else if has_char(v, i, '%') {
        Some(Operator::Modulus)
    } else if has_char(v, i, '^') {
        Some(Operator::Exponent)
    } else {
        None
    }
}

/// Reads `in` or `not in`.
fn membership_operator(v: &Vec<char>, i: usize) -> (r: Option<(Operator, usize)>)
    requires
        i <= v@.len(),
        v@.len() < crate::source::MAX_CHARS,
    ensures
        match r {
            Some((op, e)) => grammar::membership_operator(v@, i as int) == Some((op, e as int))
                && i < e <= v@.len(),
            None => grammar::membership_operator(v@, i as int) is None,
        },
{
    proof {
        reveal_strlit("in");
        reveal_strlit("not");
    }
    if has_word(v, i, "in") {
        return Some((Operator::In, i + 2));
    }
    if has_word(v, i, "not") {
        let j = scan(v, i + 3, Class::Space);
        if j > i + 3 && has_word(v, j, "in") {
            return Some((Operator::NotIn, j + 2));
        }
    }
    None
}

/// Reads a logical operator.
fn logic_operator(v: &Vec<char>, i: usize) -> (r: Option<(Operator, usize)>)
    requires
        i <= v@.len(),
        v@.len() < crate::source::MAX_CHARS,
    ensures
        match r {
            Some((op, e)) => grammar::logic_operator(v@, i as int) == Some((op, e as int))
                && i < e <= v@.len(),
            None => grammar::logic_operator(v@, i as int) is None,
        },
{
    proof {
        reveal_strlit("&&");
        reveal_strlit("and");
        reveal_strlit("||");
        reveal_strlit("or");
    }
    if has_text(v, i, "&&") {
        Some((Operator::And, i + 2))
    } else if has_word(v, i, "and") {
        Some((Operator::And, i + 3))
    } else if has_text(v, i, "||") {
        Some((Operator::Or, i + 2))
    } else if has_word(v, i, "or") {
        Some((Operator::Or, i + 2))
    } else {
        None
    }
}

/// Reads a binary operator.
fn binary_operator(src: &Source, i: usize) -> (r: Outcome)
    requires
        src.wf(),
        i <= src@.len(),
    ensures
        view_out(r) == grammar::binary_operator(src@, i as int),
        moved(r, i as int, src@.len() as int),
{
    let v = &src.chars;
    proof {
        lemma_run_members(v@, i as int, Class::ListOp);
        lemma_run_members(v@, i as int, Class::CompareOp);
    }
    if let Some(op) = list_operator(v, i) {
        return Outcome::Done(op_node(src, i, op), i + 2);
    }
    if let Some((op, e)) = membership_operator(v, i) {
        return Outcome::Done(op_node(src, i, op), e);
    }
    if let Some(op) = arithmetic_operator(v, i) {
        return Outcome::Done(op_node(src, i, op), i + 1);
    }
    if let Some((op, e)) = comparison_operator(v, i) {
        return Outcome::Done(op_node(src, i, op), e);
    }
    if let Some((op, e)) = logic_operator(v, i) {
        return Outcome::Done(op_node(src, i, op), e);
    }
    Outcome::Miss
}

// ---------------------------------------------------------------- expressions

/// A node for `token` at the position of a node already moved.
fn node_like(offset: usize, line: u32, column: u32, token: Token) -> (r: Node)
    ensures
        r.offset == offset && r.line == line && r.column == column && r.token == token,
{
    Node { offset, line, column, token }
}

/// Reads an expression.
pub fn expression(src: &Source, i: usize, d: usize) -> (r: Outcome)
    requires
        src.wf(),
        i <= src@.len(),
    ensures
        view_out(r) == grammar::expression(src@, i as int, d as nat),
        moved(r, i as int, src@.len() as int),
    decreases d, src@.len() - i, 7int,
{
    match unary_operation(src, i, d) {
        Outcome::Miss => match expr_term(src, i, d) {
            Outcome::Done(left, j) => operation_tail(src, j, d, left),
            r => r,
        },
        r => r,
    }
}

/// Reads a unary operation.
fn unary_operation(src: &Source, i: usize, d: usize) -> (r: Outcome)
    requires
        src.wf(),
        i <= src@.len(),
    ensures
        view_out(r) == grammar::unary_operation(src@, i as int, d as nat),
        moved(r, i as int, src@.len() as int),
    decreases d, src@.len() - i, 6int,
{
    match unary_operator(src, i) {
        Outcome::Done(op, j) => {
            let k = scan(&src.chars, j, Class::Space);
            match expr_term(src, k, d) {
                Outcome::Done(t, e) => {
                    let (o, l, c) = (op.offset, op.line, op.column);
                    let n = node_like(
                        o,
                        l,
                        c,
                        Token::UnaryOp(UnaryOp { operator: Box::new(op), operand: Box::new(t) }),
                    );
                    Outcome::Done(n, e)
                },
                r => r,
            }
        },
        r => r,
    }
}

/// Reads what may follow the term `left` that ends at `j`.
fn operation_tail(src: &Source, j: usize, d: usize, left: Node) -> (r: Outcome)
    requires
        src.wf(),
        j <= src@.len(),
    ensures
        view_out(r) == grammar::operation_tail(src@, j as int, d as nat, view_node(left)),
        kept(r, j as int, src@.len() as int),
    decreases d, src@.len() - j, 4int,
{
    let k0 = scan(&src.chars, j, Class::Space);
    match binary_operator(src, k0) {
        Outcome::Done(op, k) => {
            let m = scan(&src.chars, k, Class::Space);
            match expr_term(src, m, d) {
                Outcome::Done(right, e) => {
                    let (o, l, c) = (left.offset, left.line, left.column);
                    let n = node_like(
                        o,
                        l,
                        c,
                        Token::BinaryOp(
                            BinaryOp {
                                operator: Box::new(op),
                                left: Box::new(left),
                                right: Box::new(right),
                            },
                        ),
                    );
                    Outcome::Done(n, e)
                },
                Outcome::Fail(p) => Outcome::Fail(p),
                Outcome::Miss => ternary_tail(src, j, d, left),
            }
        },
        _ => ternary_tail(src, j, d, left),
    }
}

/// Reads `? term : term` after the term `left` that ends at `j`.
fn ternary_tail(src: &Source, j: usize, d: usize, left: Node) -> (r: Outcome)
    requires
        src.wf(),
        j <= src@.len(),
    ensures
        view_out(r) == grammar::ternary_tail(src@, j as int, d as nat, view_node(left)),
        kept(r, j as int, src@.len() as int),
    decreases d, src@.len() - j, 3int,
{
    let v = &src.chars;
    let q = scan(v, j, Class::Space);
    if !has_char(v, q, '?') {
        return Outcome::Done(left, j);
    }
    let a = scan(v, q + 1, Class::Space);
    match expr_term(src, a, d) {
        Outcome::Done(t, b) => {
            let c = scan(v, b, Class::Space);
            if !has_char(v, c, ':') {
                return Outcome::Done(left, j);
            }
            let e = scan(v, c + 1, Class::Space);
            match expr_term(src, e, d) {
                Outcome::Done(f, g) => {
                    let (o, l, cl) = (left.offset, left.line, left.column);
                    let n = node_like(
                        o,
                        l,
                        cl,
                        Token::Conditional(
                            Conditional {
                                condition: Box::new(left),
                                if_true: Box::new(t),
                                if_false: Some(Box::new(f)),
                            },
                        ),
                    );
                    Outcome::Done(n, g)
                },
                Outcome::Fail(p) => Outcome::Fail(p),
                Outcome::Miss => Outcome::Done(left, j),
            }
        },
        Outcome::Fail(p) => Outcome::Fail(p),
        Outcome::Miss => Outcome::Done(left, j),
    }
}

/// Reads a term with its postfix accessors.
pub fn expr_term(src: &Source, i: usize, d: usize) -> (r: Outcome)
    requires
        src.wf(),
        i <= src@.len(),
    ensures
        view_out(r) == grammar::expr_term(src@, i as int, d as nat),
        moved(r, i as int, src@.len() as int),
    decreases d, src@.len() - i, 5int,
{
    match term_head(src, i, d) {
        Outcome::Done(h, j) => postfix_fold(src, j, d, h),
        r => r,
    }
}

/// Reads the first alternative of a term that matches.
fn term_head(src: &Source, i: usize, d: usize) -> (r: Outcome)
    requires
        src.wf(),
        i <= src@.len(),
    ensures
        view_out(r) == grammar::term_head(src@, i as int, d as nat),
        moved(r, i as int, src@.len() as int),
    decreases d, src@.len() - i, 4int,
{
    match address(src, i) {
        Outcome::Miss => {},
        r => return r,
    }
    match literal(src, i) {
        Outcome::Miss => {},
        r => return r,
    }
    match for_loop(src, i, d) {
        Outcome::Miss => {},
        r => return r,
    }
    match collection(src, i, d) {
        Outcome::Miss => {},
        r => return r,
    }
    match if_statement(src, i, d) {
        Outcome::Miss => {},
        r => return r,
    }
    match function(src, i, d) {
        Outcome::Miss => {},
        r => return r,
    }
    match identifier(src, i) {
        Outcome::Miss => {},
        r => return r,
    }
    sub_expression(src, i, d)
}

/// The node `acc` with a postfix accessor applied.
fn apply_postfix(acc: Node, op: Node, operand: Option<Node>) -> (r: Node)
    ensures
        view_node(r) == grammar::apply_postfix(
            view_node(acc),
            view_node(op),
            match operand {
                Some(n) => Some(view_node(n)),
                None => None,
            },
        ),
{
    let (o, l, c) = (acc.offset, acc.line, acc.column);
    match operand {
        Some(x) => node_like(
            o,
            l,
            c,
            Token::BinaryOp(
                BinaryOp { operator: Box::new(op), left: Box::new(acc), right: Box::new(x) },
            ),
        ),
        None => node_like(
            o,
            l,
            c,
            Token::UnaryOp(UnaryOp { operator: Box::new(op), operand: Box::new(acc) }),
        ),
    }
}

/// Folds the postfix accessors from `j0` onto `acc0`.
fn postfix_fold(src: &Source, j0: usize, d: usize, acc0: Node) -> (r: Outcome)
    requires
        src.wf(),
        j0 <= src@.len(),
    ensures
        view_out(r) == grammar::postfix_fold(src@, j0 as int, d as nat, view_node(acc0)),
        kept(r, j0 as int, src@.len() as int),
    decreases d, src@.len() - j0, 2int,
{
    let ghost s = src@;
    let mut acc = acc0;
    let mut j = j0;
    loop
        invariant
            src.wf(),
            s == src@,
            j0 <= j <= s.len(),
            grammar::postfix_fold(s, j0 as int, d as nat, view_node(acc0))
                == grammar::postfix_fold(s, j as int, d as nat, view_node(acc)),
        decreases s.len() - j,
    {
        match postfix(src, j, d) {
            PostOut::Done(op, operand, k) => {
                acc = apply_postfix(acc, op, operand);
                j = k;
            },
            PostOut::Miss => {
                return Outcome::Done(acc, j);
            },
            PostOut::Fail(p) => {
                return Outcome::Fail(p);
            },
        }
    }
}

/// Reads one postfix accessor.
fn postfix(src: &Source, j: usize, d: usize) -> (r: PostOut)
    requires
        src.wf(),
        j <= src@.len(),
    ensures
        view_post(r) == grammar::postfix(src@, j as int, d as nat),
        post_moved(r, j as int, src@.len() as int),
    decreases d, src@.len() - j, 1int,
{
    proof {
        reveal_strlit("[*]");
    }
    let v = &src.chars;
    if j + 1 >= v.len() {
        return PostOut::Miss;
    }
    if v[j] == '.' {
        if v[j + 1] == '*' {
            return PostOut::Done(op_node(src, j, Operator::AttrSplat), None, j + 2);
        }
        match identifier(src, j + 1) {
            Outcome::Done(id, k) => PostOut::Done(op_node(src, j, Operator::AttrAccess), Some(id), k),
            _ => PostOut::Miss,
        }
    } else if v[j] == '[' {
        if has_text(v, j, "[*]") {
            return PostOut::Done(op_node(src, j, Operator::FullSplat), None, j + 3);
        }
        if d == 0 {
            return PostOut::Fail(j);
        }
        match expression(src, j + 1, d - 1) {
            Outcome::Done(x, k) => {
                if has_char(v, k, ']') {
                    PostOut::Done(op_node(src, j, Operator::IndexAccess), Some(x), k + 1)
                } else {
                    PostOut::Miss
                }
            },
            Outcome::Miss => PostOut::Miss,
            Outcome::Fail(p) => PostOut::Fail(p),
        }
    } else {
        PostOut::Miss
    }
}

/// Reads a parenthesized expression.
fn sub_expression(src: &Source, i: usize, d: usize) -> (r: Outcome)
    requires
        src.wf(),
        i <= src@.len(),
    ensures
        view_out(r) == grammar::sub_expression(src@, i as int, d as nat),
        moved(r, i as int, src@.len() as int),
    decreases d, src@.len() - i, 2int,
{
    let v = &src.chars;
    if !has_char(v, i, '(') {
        return Outcome::Miss;
    }
    if d == 0 {
        return Outcome::Fail(i);
    }
    match expression(src, scan(v, i + 1, Class::Multispace), d - 1) {
        Outcome::Done(x, e) => {
            let k = scan(v, e, Class::Multispace);
            if has_char(v, k, ')') {
                Outcome::Done(x, k + 1)
            } else {
                Outcome::Miss
            }
        },
        r => r,
    }
}

// ---------------------------------------------------------------- lists

/// Reads a collection.
pub fn collection(src: &Source, i: usize, d: usize) -> (r: Outcome)
    requires
        src.wf(),
        i <= src@.len(),
    ensures
        view_out(r) == grammar::collection(src@, i as int, d as nat),
        moved(r, i as int, src@.len() as int),
    decreases d, src@.len() - i, 3int,
{
    if has_char(&src.chars, i, '[') {
        list(src, i, d)
    } else {
        Outcome::Miss
    }
}

/// Finds the end of a list at `k`.
fn list_end(v: &Vec<char>, k: usize) -> (r: Option<usize>)
    requires
        k <= v@.len(),
        v@.len() < crate::source::MAX_CHARS,
    ensures
        match r {
            Some(e) => grammar::list_end(v@, k as int) == Some(e as int) && k < e <= v@.len(),
            None => grammar::list_end(v@, k as int) is None,
        },
{
    let k1 = if has_char(v, k, ',') {
        k + 1
    } else {
        k
    };
    let k2 = scan(v, k1, Class::Multispace);
    if has_char(v, k2, ']') {
        Some(k2 + 1)
    } else {
        None
    }
}

/// Reads a list.
pub fn list(src: &Source, i: usize, d: usize) -> (r: Outcome)
    requires
        src.wf(),
        i <= src@.len(),
    ensures
        view_out(r) == grammar::list(src@, i as int, d as nat),
        moved(r, i as int, src@.len() as int),
    decreases d, src@.len() - i, 2int,
{
    let v = &src.chars;
    if !has_char(v, i, '[') {
        return Outcome::Miss;
    }
    if d == 0 {
        return Outcome::Fail(i);
    }
    let a = scan(v, i + 1, Class::Multispace);
    if let Some(e) = list_end(v, a) {
        proof {
            assert(view_nodes(Seq::<Node>::empty()) == Seq::<SNode>::empty());
        }
        return Outcome::Done(node_at(src, i, Token::List(Vec::new())), e);
    }
    let items = match expression(src, a, d - 1) {
        Outcome::Done(x, e) => {
            let mut first: Vec<Node> = Vec::new();
            proof {
                lemma_view_push(first@, x);
                assert(first@ =~= Seq::<Node>::empty());
                assert(view_nodes(Seq::<Node>::empty()) == Seq::<SNode>::empty());
                assert(Seq::<SNode>::empty().push(view_node(x)) =~= seq![view_node(x)]);
            }
            first.push(x);
            list_items(src, e, d - 1, first)
        },
        Outcome::Miss => {
            proof {
                assert(view_nodes(Seq::<Node>::empty()) == Seq::<SNode>::empty());
            }
            list_items(src, a, d - 1, Vec::new())
        },
        Outcome::Fail(p) => ListOut::Fail(p),
    };
    match items {
        ListOut::Done(xs, e) => match list_end(v, e) {
            Some(f) => Outcome::Done(node_at(src, i, Token::List(xs)), f),
            None => Outcome::Miss,
        },
        ListOut::Fail(p) => Outcome::Fail(p),
    }
}

/// Reads further list items after `acc0`.
fn list_items(src: &Source, j0: usize, d: usize, acc0: Vec<Node>) -> (r: ListOut)
    requires
        src.wf(),
        j0 <= src@.len(),
    ensures
        view_list(r) == grammar::list_items(src@, j0 as int, d as nat, view_nodes(acc0@)),
        list_kept(r, j0 as int, src@.len() as int),
    decreases d, src@.len() - j0, 8int,
{
    let ghost s = src@;
    let v = &src.chars;
    let mut acc = acc0;
    let mut j = j0;
    loop
        invariant
            src.wf(),
            s == src@,
            v@ == s,
            j0 <= j <= s.len(),
            grammar::list_items(s, j0 as int, d as nat, view_nodes(acc0@))
                == grammar::list_items(s, j as int, d as nat, view_nodes(acc@)),
        decreases s.len() - j,
    {
        if list_end(v, j).is_some() || !has_char(v, j, ',') {
            return ListOut::Done(acc, j);
        }
        let m = scan(v, j + 1, Class::Multispace);
        match expression(src, m, d) {
            Outcome::Done(x, e) => {
                proof {
                    lemma_view_push(acc@, x);
                }
                acc.push(x);
                j = e;
            },
            Outcome::Miss => {
                return ListOut::Done(acc, j);
            },
            Outcome::Fail(p) => {
                return ListOut::Fail(p);
            },
        }
    }
}

// ---------------------------------------------------------------- calls

/// Reads a `key = term` argument.
fn option(src: &Source, i: usize, d: usize) -> (r: Outcome)
    requires
        src.wf(),
        i <= src@.len(),
    ensures
        view_out(r) == grammar::option(src@, i as int, d as nat),
        moved(r, i as int, src@.len() as int),
    decreases d, src@.len() - i, 8int,
{
    let v = &src.chars;
    match identifier(src, i) {
        Outcome::Done(key, j) => {
            let k = scan(v, j, Class::Space);
            if !has_char(v, k, '=') {
                return Outcome::Miss;
            }
            let m = scan(v, k + 1, Class::Space);
            match expr_term(src, m, d) {
                Outcome::Done(x, e) => {
                    let (o, l, c) = (key.offset, key.line, key.column);
                    let n = node_like(
                        o,
                        l,
                        c,
                        Token::Option(Opt { key: Box::new(key), value: Box::new(x) }),
                    );
                    Outcome::Done(n, e)
                },
                r => r,
            }
        },
        r => r,
    }
}

/// Reads a function argument.
fn function_arg(src: &Source, i: usize, d: usize) -> (r: Outcome)
    requires
        src.wf(),
        i <= src@.len(),
    ensures
        view_out(r) == grammar::function_arg(src@, i as int, d as nat),
        moved(r, i as int, src@.len() as int),
    decreases d, src@.len() - i, 9int,
{
    match option(src, i, d) {
        Outcome::Miss => expression(src, i, d),
        r => r,
    }
}

/// Reads further arguments after `acc0`.
fn arguments(src: &Source, j0: usize, d: usize, acc0: Vec<Node>) -> (r: ListOut)
    requires
        src.wf(),
        j0 <= src@.len(),
    ensures
        view_list(r) == grammar::arguments(src@, j0 as int, d as nat, view_nodes(acc0@)),
        list_kept(r, j0 as int, src@.len() as int),
    decreases d, src@.len() - j0, 10int,
{
    let ghost s = src@;
    let v = &src.chars;
    let mut acc = acc0;
    let mut j = j0;
    loop
        invariant
            src.wf(),
            s == src@,
            v@ == s,
            j0 <= j <= s.len(),
            grammar::arguments(s, j0 as int, d as nat, view_nodes(acc0@))
                == grammar::arguments(s, j as int, d as nat, view_nodes(acc@)),
        decreases s.len() - j,
    {
        let c = scan(v, j, Class::Multispace);
        if !has_char(v, c, ',') {
            return ListOut::Done(acc, j);
        }
        let m = scan(v, c + 1, Class::Multispace);
        match function_arg(src, m, d) {
            Outcome::Done(x, e) => {
                proof {
                    lemma_view_push(acc@, x);
                }
                acc.push(x);
                j = e;
            },
            Outcome::Miss => {
                return ListOut::Done(acc, j);
            },
            Outcome::Fail(p) => {
                return ListOut::Fail(p);
            },
        }
    }
}

/// Marks the last argument as spread when `...` follows it at `e`.
fn spread_last(src: &Source, args: Vec<Node>, e: usize) -> (r: (Vec<Node>, usize))
    requires
        src.wf(),
        e <= src@.len(),
    ensures
        (view_nodes(r.0@), r.1 as int) == grammar::spread_last(src@, view_nodes(args@), e as int),
        e <= r.1 <= src@.len(),
{
    proof {
        reveal_strlit("...");
        lemma_view_len(args@);
    }
    let mut args = args;
    if args.len() > 0 && has_text(&src.chars, e, "...") {
        let ghost before = args@;
        match args.pop() {
            Some(last) => {
                proof {
                    assert(args@ =~= before.subrange(0, before.len() - 1));
                    lemma_view_len(args@);
                    assert(view_nodes(before) == view_nodes(args@).push(view_node(last)));
                    assert(view_nodes(before).subrange(0, before.len() - 1) =~= view_nodes(args@));
                }
                let op = op_node(src, e, Operator::Elipsis);
                let (o, l, c) = (last.offset, last.line, last.column);
                let n = node_like(
                    o,
                    l,
                    c,
                    Token::UnaryOp(UnaryOp { operator: Box::new(op), operand: Box::new(last) }),
                );
                proof {
                    lemma_view_push(args@, n);
                }
                args.push(n);
                (args, e + 3)
            },
            None => (args, e),
        }
    } else {
        (args, e)
    }
}

/// Reads the optional `.subfunction` after a name ending at `j`.
fn subfunction(src: &Source, j: usize) -> (r: (Option<Node>, usize))
    requires
        src.wf(),
        j <= src@.len(),
    ensures
        (
            match r.0 {
                Some(n) => Some(view_node(n)),
                None => None,
            },
            r.1 as int,
        ) == grammar::subfunction(src@, j as int),
        j <= r.1 <= src@.len(),
{
    if has_char(&src.chars, j, '.') {
        match identifier(src, j + 1) {
            Outcome::Done(sub, k) => (Some(sub), k),
            _ => (None, j),
        }
    } else {
        (None, j)
    }
}

/// Reads a function call.
pub fn function(src: &Source, i: usize, d: usize) -> (r: Outcome)
    requires
        src.wf(),
        i <= src@.len(),
    ensures
        view_out(r) == grammar::function(src@, i as int, d as nat),
        moved(r, i as int, src@.len() as int),
    decreases d, src@.len() - i, 2int,
{
    let v = &src.chars;
    match identifier(src, i) {
        Outcome::Done(name, j) => {
            let (sub, p) = subfunction(src, j);
            if !has_char(v, p, '(') {
                return Outcome::Miss;
            }
            if d == 0 {
                return Outcome::Fail(i);
            }
            let args = match function_arg(src, scan(v, p + 1, Class::Multispace), d - 1) {
                Outcome::Done(x, e) => {
                    let mut first: Vec<Node> = Vec::new();
                    proof {
                        lemma_view_push(first@, x);
                        assert(first@ =~= Seq::<Node>::empty());
                        assert(view_nodes(Seq::<Node>::empty()) == Seq::<SNode>::empty());
                        assert(Seq::<SNode>::empty().push(view_node(x)) =~= seq![view_node(x)]);
                    }
                    first.push(x);
                    arguments(src, e, d - 1, first)
                },
                Outcome::Miss => {
                    proof {
                        assert(view_nodes(Seq::<Node>::empty()) == Seq::<SNode>::empty());
                    }
                    ListOut::Done(Vec::new(), p + 1)
                },
                Outcome::Fail(q) => ListOut::Fail(q),
            };
            match args {
                ListOut::Done(xs, e) => {
                    let (ys, e2) = spread_last(src, xs, e);
                    let k = scan(v, e2, Class::Multispace);
                    if has_char(v, k, ')') {
                        let (o, l, c) = (name.offset, name.line, name.column);
                        let sub_box = match sub {
                            Some(n) => Some(Box::new(n)),
                            None => None,
                        };
                        let n = node_like(
                            o,
                            l,
                            c,
                            Token::Function(
                                Function { name: Box::new(name), subfunction: sub_box, args: ys },
                            ),
                        );
                        Outcome::Done(n, k + 1)
                    } else {
                        Outcome::Miss
                    }
                },
                ListOut::Fail(q) => Outcome::Fail(q),
            }
        },
        r => r,
    }
}

/// Reads `if(condition, if_true[, if_false])`.
pub fn if_statement(src: &Source, i: usize, d: usize) -> (r: Outcome)
    requires
        src.wf(),
        i <= src@.len(),
    ensures
        view_out(r) == grammar::if_statement(src@, i as int, d as nat),
        moved(r, i as int, src@.len() as int),
    decreases d, src@.len() - i, 2int,
{
    proof {
        reveal_strlit("if");
    }
    let v = &src.chars;
    if !(has_word(v, i, "if") && has_char(v, i + 2, '(')) {
        return Outcome::Miss;
    }
    if d == 0 {
        return Outcome::Fail(i);
    }
    match expression(src, scan(v, i + 3, Class::Multispace), d - 1) {
        Outcome::Done(c, b) => {
            if !has_char(v, b, ',') {
                return Outcome::Miss;
            }
            match expression(src, scan(v, b + 1, Class::Multispace), d - 1) {
                Outcome::Done(t, e) => {
                    let third = if has_char(v, e, ',') {
                        expression(src, scan(v, e + 1, Class::Multispace), d - 1)
                    } else {
                        Outcome::Miss
                    };
                    let (f, e3) = match third {
                        Outcome::Fail(p) => {
                            return Outcome::Fail(p);
                        },
                        Outcome::Done(f, e2) => (Some(Box::new(f)), e2),
                        Outcome::Miss => (None, e),
                    };
                    let k = scan(v, e3, Class::Multispace);
                    if has_char(v, k, ')') {
                        let n = node_at(
                            src,
                            i,
                            Token::Conditional(
                                Conditional { condition: Box::new(c), if_true: Box::new(t), if_false: f },
                            ),
                        );
                        Outcome::Done(n, k + 1)
                    } else {
                        Outcome::Miss
                    }
                },
                r => r,
            }
        },
        r => r,
    }
}

// ---------------------------------------------------------------- comprehensions

/// Reads further binds after `acc0`.
fn binds(src: &Source, j0: usize, d: usize, acc0: Vec<Node>) -> (r: ListOut)
    requires
        src.wf(),
        j0 <= src@.len(),
    ensures
        view_list(r) == grammar::binds(src@, j0 as int, d as nat, view_nodes(acc0@)),
        list_kept(r, j0 as int, src@.len() as int),
    decreases d, src@.len() - j0, 8int,
{
    let ghost s = src@;
    let v = &src.chars;
    let mut acc = acc0;
    let mut j = j0;
    loop
        invariant
            src.wf(),
            s == src@,
            v@ == s,
            j0 <= j <= s.len(),
            grammar::binds(s, j0 as int, d as nat, view_nodes(acc0@))
                == grammar::binds(s, j as int, d as nat, view_nodes(acc@)),
        decreases s.len() - j,
    {
        if !has_char(v, j, ',') {
            return ListOut::Done(acc, j);
        }
        let m = scan(v, j + 1, Class::Space);
        match expr_term(src, m, d) {
            Outcome::Done(x, e) => {
                proof {
                    lemma_view_push(acc@, x);
                }
                acc.push(x);
                j = e;
            },
            Outcome::Miss => {
                return ListOut::Done(acc, j);
            },
            Outcome::Fail(p) => {
                return ListOut::Fail(p);
            },
        }
    }
}

/// Reads `for binds in expression :`.
fn for_intro(src: &Source, k: usize, d: usize) -> (r: IntroOut)
    requires
        src.wf(),
        k <= src@.len(),
    ensures
        view_intro(r) == grammar::for_intro(src@, k as int, d as nat),
        intro_moved(r, k as int, src@.len() as int),
    decreases d, src@.len() - k, 9int,
{
    proof {
        reveal_strlit("for");
        reveal_strlit("in");
    }
    let v = &src.chars;
    let a = scan(v, k, Class::Space);
    if !has_word(v, a, "for") {
        return IntroOut::Miss;
    }
    let b = scan(v, a + 3, Class::Space);
    if b <= a + 3 {
        return IntroOut::Miss;
    }
    let bs = match expr_term(src, b, d) {
        Outcome::Done(x, e) => {
            let mut first: Vec<Node> = Vec::new();
            proof {
                lemma_view_push(first@, x);
                assert(first@ =~= Seq::<Node>::empty());
                assert(view_nodes(Seq::<Node>::empty()) == Seq::<SNode>::empty());
                assert(Seq::<SNode>::empty().push(view_node(x)) =~= seq![view_node(x)]);
            }
            first.push(x);
            binds(src, e, d, first)
        },
        Outcome::Miss => {
            proof {
                assert(view_nodes(Seq::<Node>::empty()) == Seq::<SNode>::empty());
            }
            ListOut::Done(Vec::new(), b)
        },
        Outcome::Fail(p) => ListOut::Fail(p),
    };
    match bs {
        ListOut::Fail(p) => IntroOut::Fail(p),
        ListOut::Done(xs, j) => {
            let c = scan(v, j, Class::Space);
            if !(c > j && has_word(v, c, "in")) {
                return IntroOut::Miss;
            }
            let c2 = scan(v, c + 2, Class::Space);
            if c2 <= c + 2 {
                return IntroOut::Miss;
            }
            match expression(src, c2, d) {
                Outcome::Done(x, e) => {
                    let f = scan(v, e, Class::Space);
                    if !(f > e && has_char(v, f, ':')) {
                        return IntroOut::Miss;
                    }
                    let g = scan(v, f + 1, Class::Space);
                    if g > f + 1 {
                        IntroOut::Done(xs, x, g)
                    } else {
                        IntroOut::Miss
                    }
                },
                Outcome::Miss => IntroOut::Miss,
                Outcome::Fail(p) => IntroOut::Fail(p),
            }
        },
    }
}

/// Reads the optional `if condition` of a comprehension.
fn for_cond(src: &Source, h: usize, d: usize) -> (r: Outcome)
    requires
        src.wf(),
        h <= src@.len(),
    ensures
        view_out(r) == grammar::for_cond(src@, h as int, d as nat),
        moved(r, h as int, src@.len() as int),
    decreases d, src@.len() - h, 9int,
{
    proof {
        reveal_strlit("if");
    }
    let v = &src.chars;
    let c = scan(v, h, Class::Space);
    if !(c > h && has_word(v, c, "if")) {
        return Outcome::Miss;
    }
    let c2 = scan(v, c + 2, Class::Space);
    if c2 > c + 2 {
        expression(src, c2, d)
    } else {
        Outcome::Miss
    }
}

/// Reads a comprehension.
pub fn for_loop(src: &Source, i: usize, d: usize) -> (r: Outcome)
    requires
        src.wf(),
        i <= src@.len(),
    ensures
        view_out(r) == grammar::for_loop(src@, i as int, d as nat),
        moved(r, i as int, src@.len() as int),
    decreases d, src@.len() - i, 2int,
{
    proof {
        reveal_strlit("=>");
        reveal_strlit("...");
    }
    let v = &src.chars;
    let tuple = has_char(v, i, '[');
    if !(tuple || has_char(v, i, '{')) {
        return Outcome::Miss;
    }
    if d == 0 {
        return Outcome::Fail(i);
    }
    match for_intro(src, i + 1, d - 1) {
        IntroOut::Done(bs, x, g) => {
            if tuple {
                match expression(src, g, d - 1) {
                    Outcome::Done(body, h) => {
                        let (cond, k) = match for_cond(src, h, d - 1) {
                            Outcome::Fail(p) => {
                                return Outcome::Fail(p);
                            },
                            Outcome::Done(cn, k) => (Some(Box::new(cn)), k),
                            Outcome::Miss => (None, h),
                        };
                        if has_char(v, k, ']') {
                            let fl = ForLoop::Tuple { binds: bs, expr: Box::new(x), body: Box::new(body), cond };
                            Outcome::Done(node_at(src, i, Token::ForLoop(fl)), k + 1)
                        } else {
                            Outcome::Miss
                        }
                    },
                    r => r,
                }
            } else {
                match expression(src, g, d - 1) {
                    Outcome::Done(key, h) => {
                        let a = scan(v, h, Class::Space);
                        if !has_text(v, a, "=>") {
                            return Outcome::Miss;
                        }
                        let a2 = scan(v, a + 2, Class::Space);
                        match expression(src, a2, d - 1) {
                            Outcome::Done(val, h2) => {
                                let grouping = has_text(v, h2, "...");
                                let h3 = if grouping {
                                    h2 + 3
                                } else {
                                    h2
                                };
                                let (cond, k) = match for_cond(src, h3, d - 1) {
                                    Outcome::Fail(p) => {
                                        return Outcome::Fail(p);
                                    },
                                    Outcome::Done(cn, k) => (Some(Box::new(cn)), k),
                                    Outcome::Miss => (None, h3),
                                };
                                if has_char(v, k, '}') {
                                    let item = ObjectItem { key: Box::new(key), val: Box::new(val) };
                                    let fl = ForLoop::Object {
                                        binds: bs,
                                        expr: Box::new(x),
                                        body: Box::new(item),
                                        cond,
                                        grouping,
                                    };
                                    Outcome::Done(node_at(src, i, Token::ForLoop(fl)), k + 1)
                                } else {
                                    Outcome::Miss
                                }
                            },
                            r => r,
                        }
                    },
                    r => r,
                }
            }
        },
        IntroOut::Miss => Outcome::Miss,
        IntroOut::Fail(p) => Outcome::Fail(p),
    }
}

/// Reads a top-level `name = term` assignment.
pub fn attribute(src: &Source, i: usize, d: usize) -> (r: Outcome)
    requires
        src.wf(),
        i <= src@.len(),
    ensures
        view_out(r) == grammar::attribute(src@, i as int, d as nat),
        moved(r, i as int, src@.len() as int),
{
    let v = &src.chars;
    match identifier(src, i) {
        Outcome::Done(key, j) => {
            let k = scan(v, j, Class::Space);
            if !has_char(v, k, '=') {
                return Outcome::Miss;
            }
            let m = scan(v, k + 1, Class::Space);
            match expr_term(src, m, d) {
                Outcome::Done(x, e) => {
                    let (o, l, c) = (key.offset, key.line, key.column);
                    let n = node_like(
                        o,
                        l,
                        c,
                        Token::Attribute(Attribute { ident: Box::new(key), expr: Box::new(x) }),
                    );
                    let end = if has_char(v, e, '\n') {
                        e + 1
                    } else {
                        e
                    };
                    Outcome::Done(n, end)
                },
                r => r,
            }
        },
        r => r,
    }
}

// ---------------------------------------------------------------- programs

/// Finds the end of a run of line endings from `k`.
fn eol_run(v: &Vec<char>, k: usize) -> (r: usize)
    requires
        k <= v@.len(),
        v@.len() < crate::source::MAX_CHARS,
    ensures
        r == grammar::eol_run(v@, k as int),
        k <= r <= v@.len(),
{
    let mut j = k;
    loop
        invariant
            k <= j <= v@.len(),
            v@.len() < crate::source::MAX_CHARS,
            grammar::eol_run(v@, k as int) == grammar::eol_run(v@, j as int),
        decreases v@.len() - j,
    {
        if has_char(v, j, '\n') {
            j = j + 1;
        } else if has_char(v, j, '\r') && has_char(v, j + 1, '\n') {
            j = j + 2;
        } else {
            return j;
        }
    }
}

/// Finds the end of the terminator of a statement that ends at `e`.
fn terminator(src: &Source, e: usize) -> (r: Option<usize>)
    requires
        src.wf(),
        e <= src@.len(),
    ensures
        match r {
            Some(t) => grammar::terminator(src@, e as int) == Some(t as int) && e <= t <= src@.len(),
            None => grammar::terminator(src@, e as int) is None,
        },
{
    let v = &src.chars;
    let k = scan(v, e, Class::Space);
    if has_char(v, k, ';') {
        return Some(k + 1);
    }
    match line_comment(src, k) {
        Outcome::Done(_, c) => {
            if has_char(v, c, '\n') {
                Some(c + 1)
            } else if has_char(v, c, '\r') && has_char(v, c + 1, '\n') {
                Some(c + 2)
            } else {
                Some(c)
            }
        },
        _ => {
            if k == v.len() {
                Some(k)
            } else {
                let r = eol_run(v, k);
                if r > k {
                    Some(r)
                } else {
                    None
                }
            }
        },
    }
}

/// Reads one statement.
fn statement(src: &Source, i: usize) -> (r: Outcome)
    requires
        src.wf(),
        i <= src@.len(),
    ensures
        view_out(r) == grammar::statement(src@, i as int),
        moved(r, i as int, src@.len() as int),
{
    let a = scan(&src.chars, i, Class::Multispace);
    match expression(src, a, grammar::MAX_DEPTH) {
        Outcome::Miss => line_comment(src, a),
        r => r,
    }
}

/// Where parsing stopped and why.
#[derive(Clone, Copy, Debug, PartialEq, Eq)]
pub enum ErrorKind {
    /// No statement or terminator matched here, or input was left over.
    Unexpected,
    /// Input that no alternative may recover from: a number that cannot be
    /// represented, or nesting deeper than the parser allows.
    Aborted,
}

/// A failed parse, at the position where it stopped.
#[derive(Clone, Copy, Debug, PartialEq, Eq)]
pub struct ParseError {
    pub offset: usize,
    pub line: u32,
    pub column: u32,
    pub kind: ErrorKind,
}

/// What one statement step did.
enum Step {
    /// A statement and its terminator were read; the position after them.
    Next(usize),
    /// No statement with a terminator starts here.
    Stop,
    /// An abort at the position.
    Abort(usize),
}

/// Reads the statement at `i` and its terminator, keeping its node in `acc`
/// unless it is a comment.
fn step(src: &Source, i: usize, acc: &mut Vec<Node>, count: Ghost<nat>) -> (r: Step)
    requires
        src.wf(),
        i <= src@.len(),
    ensures
        match r {
            Step::Next(t) => i < t <= src@.len() && grammar::statements(
                src@,
                i as int,
                view_nodes(old(acc)@),
                count@,
            ) == grammar::statements(src@, t as int, view_nodes(final(acc)@), count@ + 1),
            Step::Stop => grammar::statements(src@, i as int, view_nodes(old(acc)@), count@)
                == grammar::SFile::Stop(view_nodes(old(acc)@), i as int, count@) && final(acc)@
                == old(acc)@,
            Step::Abort(p) => p <= src@.len() && grammar::statements(
                src@,
                i as int,
                view_nodes(old(acc)@),
                count@,
            ) == grammar::SFile::Fail(p as int),
        },
{
    match statement(src, i) {
        Outcome::Fail(p) => Step::Abort(p),
        Outcome::Miss => Step::Stop,
        Outcome::Done(n, e) => {
            match terminator(src, e) {
                None => Step::Stop,
                Some(t) => {
                    let comment = match n.token {
                        Token::LineComment(_) => true,
                        _ => false,
                    };
                    if !comment {
                        proof {
                            lemma_view_push(acc@, n);
                        }
                        acc.push(n);
                    }
                    Step::Next(t)
                },
            }
        },
    }
}

/// Parses a program into its top-level nodes, in source order.
pub fn parse(text: &str) -> (r: Result<Tree, ParseError>)
    requires
        text@.len() < crate::source::MAX_CHARS,
    ensures
        match r {
            Ok(t) => grammar::program(text@) == Ok::<Seq<SNode>, (int, bool)>(view_nodes(t@)),
            Err(e) => match grammar::program(text@) {
                Ok(_) => false,
                Err((p, aborted)) => e.offset == crate::source::byte_offset(text@, p)
                    && e.line == crate::source::line_at(text@, p)
                    && e.column == crate::source::column_at(text@, p)
                    && (e.kind == ErrorKind::Aborted <==> aborted),
            },
        },
{
    let src = Source::new(text);
    let ghost s = src@;
    let mut acc: Vec<Node> = Vec::new();
    let mut count: usize = 0;
    let mut i: usize = 0;
    proof {
        assert(view_nodes(Seq::<Node>::empty()) == Seq::<SNode>::empty());
        assert(acc@ =~= Seq::<Node>::empty());
    }
    loop
        invariant
            src.wf(),
            s == src@,
            s == text@,
            i <= s.len(),
            count <= i,
            grammar::statements(s, 0, Seq::empty(), 0) == grammar::statements(
                s,
                i as int,
                view_nodes(acc@),
                count as nat,
            ),
        decreases s.len() - i,
    {
        match step(&src, i, &mut acc, Ghost(count as nat)) {
            Step::Next(t) => {
                count = count + 1;
                i = t;
            },
            Step::Stop => {
                return finish(&src, acc, count, i);
            },
            Step::Abort(p) => {
                let m = src.marks[p];
                return Err(
                    ParseError { offset: m.offset, line: m.line, column: m.column, kind: ErrorKind::Aborted },
                );
            },
        }
    }
}

/// The result of a program whose statements stopped at `i`.
fn finish(src: &Source, acc: Vec<Node>, count: usize, i: usize) -> (r: Result<Tree, ParseError>)
    requires
        src.wf(),
        i <= src@.len(),
    ensures
        match r {
            Ok(t) => t@ == acc@ && count > 0 && i == src@.len(),
            Err(e) => !(count > 0 && i == src@.len()) && e.offset == crate::source::byte_offset(
                src@,
                i as int,
            ) && e.line == crate::source::line_at(src@, i as int) && e.column
                == crate::source::column_at(src@, i as int) && e.kind == ErrorKind::Unexpected,
        },
{
    if count > 0 && i == src.len() {
        Ok(acc)
    } else {
        let m = src.marks[i];
        Err(ParseError { offset: m.offset, line: m.line, column: m.column, kind: ErrorKind::Unexpected })
    }
}

} // verus!
