//! The syntax tree: tokens, nodes with their source positions, and the
//! mathematical view of a tree that the grammar's contracts speak of.
use vstd::prelude::*;
use crate::chars::{chars_of, same_chars, text_of};
use crate::number::N;
use crate::source::Mark;

verus! {

/// Errors in building tokens by hand.
#[derive(Clone, Debug, PartialEq)]
pub enum TokenError {
    /// Digits that do not form an integer.
    ParseIntError,
    /// Text that does not form a decimal.
    ParseDecimalError,
    /// A symbol that names no operator.
    OperatorError(String),
}

/// The operators of the language.
#[derive(Clone, Copy, Debug, PartialEq, Eq, Structural, Hash)]
pub enum Operator {
    /// Arithmetic `+`.
    Plus,
    /// Arithmetic `-`.
    Minus,
    /// Arithmetic `*`.
    Multiply,
    /// Arithmetic `/`.
    Divide,
    /// Arithmetic `%`.
    Modulus,
    /// Arithmetic `^`.
    Exponent,
    /// Logical and.
    And,
    /// Logical or.
    Or,
    /// Logical negation.
    Not,
    /// Comparison `==`.
    Equal,
    /// Comparison `!=`.
    NotEqual,
    /// Comparison `>`.
    Greater,
    /// Comparison `<`.
    Less,
    /// Comparison `>=`.
    GreaterEqual,
    /// Comparison `<=`.
    LessEqual,
    /// Membership.
    In,
    /// Negated membership.
    NotIn,
    /// Attribute access.
    AttrAccess,
    /// Index access.
    IndexAccess,
    /// Attribute splat.
    AttrSplat,
    /// Full splat.
    FullSplat,
    /// Spread of a final argument.
    Elipsis,
    /// List concatenation.
    Concatenate,
    /// List difference.
    Subtract,
    /// Pipe.
    Pipe,
}

/// The display symbol of an operator.
pub open spec fn spec_symbol(op: Operator) -> Seq<char> {
    match op {
        Operator::Plus => seq!['+'],
        Operator::Minus => seq!['-'],
        Operator::Multiply => seq!['*'],
        Operator::Divide => seq!['/'],
        Operator::Modulus => seq!['%'],
        Operator::Exponent => seq!['^'],
        Operator::And => seq!['&', '&'],
        Operator::Or => seq!['|', '|'],
        Operator::Not => seq!['!'],
        Operator::Equal => seq!['=', '='],
        Operator::NotEqual => seq!['!', '='],
        Operator::Greater => seq!['>'],
        Operator::Less => seq!['<'],
        Operator::GreaterEqual => seq!['>', '='],
        Operator::LessEqual => seq!['<', '='],
        Operator::In => seq!['i', 'n'],
        Operator::NotIn => seq!['n', 'o', 't', ' ', 'i', 'n'],
        Operator::AttrAccess => seq!['.'],
        Operator::IndexAccess => seq!['['],
        Operator::AttrSplat => seq!['.', '*'],
        Operator::FullSplat => seq!['[', '*', ']'],
        Operator::Elipsis => seq!['.', '.', '.'],
        Operator::Concatenate => seq!['+', '+'],
        Operator::Subtract => seq!['-', '-'],
        Operator::Pipe => seq!['|', '>'],
    }
}

impl Operator {
    /// The display symbol of the operator.
    pub fn symbol(&self) -> (r: &'static str)
        ensures
            r@ == spec_symbol(*self),
    {
        match self {
            Operator::Plus => {
                proof {
                    reveal_strlit("+");
                }
                "+"
            },
            Operator::Minus => {
                proof {
                    reveal_strlit("-");
                }
                "-"
            },
            Operator::Multiply => {
                proof {
                    reveal_strlit("*");
                }
                "*"
            },
            Operator::Divide => {
                proof {
                    reveal_strlit("/");
                }
                "/"
            },
            Operator::Modulus => {
                proof {
                    reveal_strlit("%");
                }
                "%"
            },
            Operator::Exponent => {
                proof {
                    reveal_strlit("^");
                }
                "^"
            },
            Operator::And => {
                proof {
                    reveal_strlit("&&");
                }
                "&&"
            },
            Operator::Or => {
                proof {
                    reveal_strlit("||");
                }
                "||"
            },
            Operator::Not => {
                proof {
                    reveal_strlit("!");
                }
                "!"
            },
            Operator::Equal => {
                proof {
                    reveal_strlit("==");
                }
                "=="
            },
            Operator::NotEqual => {
                proof {
                    reveal_strlit("!=");
                }
                "!="
            },
            Operator::Greater => {
                proof {
                    reveal_strlit(">");
                }
                ">"
            },
            Operator::Less => {
                proof {
                    reveal_strlit("<");
                }
                "<"
            },
            Operator::GreaterEqual => {
                proof {
                    reveal_strlit(">=");
                }
                ">="
            },
            Operator::LessEqual => {
                proof {
                    reveal_strlit("<=");
                }
                "<="
            },
            Operator::In => {
                proof {
                    reveal_strlit("in");
                }
                "in"
            },
            Operator::NotIn => {
                proof {
                    reveal_strlit("not in");
                }
                "not in"
            },
            Operator::AttrAccess => {
                proof {
                    reveal_strlit(".");
                }
                "."
            },
            Operator::IndexAccess => {
                proof {
                    reveal_strlit("[");
                }
                "["
            },
            Operator::AttrSplat => {
                proof {
                    reveal_strlit(".*");
                }
                ".*"
            },
            Operator::FullSplat => {
                proof {
                    reveal_strlit("[*]");
                }
                "[*]"
            },
            Operator::Elipsis => {
                proof {
                    reveal_strlit("...");
                }
                "..."
            },
            Operator::Concatenate => {
                proof {
                    reveal_strlit("++");
                }
                "++"
            },
            Operator::Subtract => {
                proof {
                    reveal_strlit("--");
                }
                "--"
            },
            Operator::Pipe => {
                proof {
                    reveal_strlit("|>");
                }
                "|>"
            },
        }
    }

    /// The operator whose symbol is `s`.
    pub fn from_symbol(s: &str) -> (r: Result<Operator, TokenError>)
        ensures
            match r {
                Ok(op) => spec_symbol(op) == s@,
                Err(e) => (forall|op: Operator| spec_symbol(op) != s@) && (e matches TokenError::OperatorError(t)
                    && t@ == s@),
            },
    {
        let v = chars_of(s);
        if same_chars(&v, &chars_of(Operator::Plus.symbol())) {
            return Ok(Operator::Plus);
        }
        if same_chars(&v, &chars_of(Operator::Minus.symbol())) {
            return Ok(Operator::Minus);
        }
        if same_chars(&v, &chars_of(Operator::Multiply.symbol())) {
            return Ok(Operator::Multiply);
        }
        if same_chars(&v, &chars_of(Operator::Divide.symbol())) {
            return Ok(Operator::Divide);
        }
        if same_chars(&v, &chars_of(Operator::Modulus.symbol())) {
            return Ok(Operator::Modulus);
        }
        if same_chars(&v, &chars_of(Operator::Exponent.symbol())) {
            return Ok(Operator::Exponent);
        }
        if same_chars(&v, &chars_of(Operator::And.symbol())) {
            return Ok(Operator::And);
        }
        if same_chars(&v, &chars_of(Operator::Or.symbol())) {
            return Ok(Operator::Or);
        }
        if same_chars(&v, &chars_of(Operator::Not.symbol())) {
            return Ok(Operator::Not);
        }
        if same_chars(&v, &chars_of(Operator::Equal.symbol())) {
            return Ok(Operator::Equal);
        }
        if same_chars(&v, &chars_of(Operator::NotEqual.symbol())) {
            return Ok(Operator::NotEqual);
        }
        if same_chars(&v, &chars_of(Operator::Greater.symbol())) {
            return Ok(Operator::Greater);
        }
        if same_chars(&v, &chars_of(Operator::Less.symbol())) {
            return Ok(Operator::Less);
        }
        if same_chars(&v, &chars_of(Operator::GreaterEqual.symbol())) {
            return Ok(Operator::GreaterEqual);
        }
        if same_chars(&v, &chars_of(Operator::LessEqual.symbol())) {
            return Ok(Operator::LessEqual);
        }
        if same_chars(&v, &chars_of(Operator::In.symbol())) {
            return Ok(Operator::In);
        }
        if same_chars(&v, &chars_of(Operator::NotIn.symbol())) {
            return Ok(Operator::NotIn);
        }
        if same_chars(&v, &chars_of(Operator::AttrAccess.symbol())) {
            return Ok(Operator::AttrAccess);
        }
        if same_chars(&v, &chars_of(Operator::IndexAccess.symbol())) {
            return Ok(Operator::IndexAccess);
        }
        if same_chars(&v, &chars_of(Operator::AttrSplat.symbol())) {
            return Ok(Operator::AttrSplat);
        }
        if same_chars(&v, &chars_of(Operator::FullSplat.symbol())) {
            return Ok(Operator::FullSplat);
        }
        if same_chars(&v, &chars_of(Operator::Elipsis.symbol())) {
            return Ok(Operator::Elipsis);
        }
        if same_chars(&v, &chars_of(Operator::Concatenate.symbol())) {
            return Ok(Operator::Concatenate);
        }
        if same_chars(&v, &chars_of(Operator::Subtract.symbol())) {
            return Ok(Operator::Subtract);
        }
        if same_chars(&v, &chars_of(Operator::Pipe.symbol())) {
            return Ok(Operator::Pipe);
        }
        proof {
            assert forall|op: Operator| spec_symbol(op) != s@ by {
                match op {
                    Operator::Plus => {},
                    Operator::Minus => {},
                    Operator::Multiply => {},
                    Operator::Divide => {},
                    Operator::Modulus => {},
                    Operator::Exponent => {},
                    Operator::And => {},
                    Operator::Or => {},
                    Operator::Not => {},
                    Operator::Equal => {},
                    Operator::NotEqual => {},
                    Operator::Greater => {},
                    Operator::Less => {},
                    Operator::GreaterEqual => {},
                    Operator::LessEqual => {},
                    Operator::In => {},
                    Operator::NotIn => {},
                    Operator::AttrAccess => {},
                    Operator::IndexAccess => {},
                    Operator::AttrSplat => {},
                    Operator::FullSplat => {
                    },
                    Operator::Elipsis => {},
                    Operator::Concatenate => {},
                    Operator::Subtract => {},
                    Operator::Pipe => {},
                }
            }
        }
        let text = text_of(&v, 0, v.len());
        assert(v@.subrange(0, v@.len() as int) =~= v@);
        Err(TokenError::OperatorError(text))
    }
}


/// A function call: `name.subfunction(args)`.
#[derive(Debug, PartialEq)]
pub struct Function {
    pub name: Box<Node>,
    pub subfunction: Option<Box<Node>>,
    pub args: Vec<Node>,
}

/// A key and a value of an object comprehension.
#[derive(Debug, PartialEq)]
pub struct ObjectItem {
    pub key: Box<Node>,
    pub val: Box<Node>,
}

/// A comprehension over a collection.
#[derive(Debug, PartialEq)]
pub enum ForLoop {
    /// `[for binds in expr : body if cond]`.
    Tuple { binds: Vec<Node>, expr: Box<Node>, body: Box<Node>, cond: Option<Box<Node>> },
    /// `{for binds in expr : key => val... if cond}`; `grouping` records the `...`.
    Object {
        binds: Vec<Node>,
        expr: Box<Node>,
        body: Box<ObjectItem>,
        cond: Option<Box<Node>>,
        grouping: bool,
    },
}

/// A conditional, from `if(...)` or `c ? a : b`.
#[derive(Debug, PartialEq)]
pub struct Conditional {
    pub condition: Box<Node>,
    pub if_true: Box<Node>,
    pub if_false: Option<Box<Node>>,
}

/// An operator applied to one operand.
#[derive(Debug, PartialEq)]
pub struct UnaryOp {
    pub operator: Box<Node>,
    pub operand: Box<Node>,
}

/// An operator applied to two operands.
#[derive(Debug, PartialEq)]
pub struct BinaryOp {
    pub operator: Box<Node>,
    pub left: Box<Node>,
    pub right: Box<Node>,
}

/// A top-level `key = value` assignment.
#[derive(Debug, PartialEq)]
pub struct Attribute {
    pub ident: Box<Node>,
    pub expr: Box<Node>,
}

/// A `key=value` argument of a function call.
#[derive(Debug, PartialEq)]
pub struct Opt {
    pub key: Box<Node>,
    pub value: Box<Node>,
}

/// What a node stands for.
#[derive(Debug, PartialEq)]
pub enum Token {
    /// Stands for no parsed text; never in a parse result.
    Unknown,
    Identifier(String),
    Option(Opt),
    Address(String),
    Boolean(bool),
    Number(N),
    Percentage(N),
    /// The text between the quotes, escapes kept.
    String(String),
    NoneValue,
    Function(Function),
    Conditional(Conditional),
    Operator(Operator),
    BinaryOp(BinaryOp),
    UnaryOp(UnaryOp),
    List(Vec<Node>),
    ForLoop(ForLoop),
    LineComment(String),
    Attribute(Attribute),
}

/// A token with the position of its first character.
#[derive(Debug, PartialEq)]
pub struct Node {
    pub offset: usize,
    pub line: u32,
    pub column: u32,
    pub token: Token,
}

/// A parsed program: its top-level nodes in source order.
pub type Tree = Vec<Node>;

/// The view of a token.
pub enum SToken {
    Unknown,
    Identifier(Seq<char>),
    Option(Box<SNode>, Box<SNode>),
    Address(Seq<char>),
    Boolean(bool),
    Number(N),
    Percentage(N),
    String(Seq<char>),
    NoneValue,
    /// Name, subfunction and arguments.
    Function(Box<SNode>, Option<Box<SNode>>, Seq<SNode>),
    /// Condition, value if true, value if false.
    Conditional(Box<SNode>, Box<SNode>, Option<Box<SNode>>),
    Operator(Operator),
    /// Operator, left and right.
    BinaryOp(Box<SNode>, Box<SNode>, Box<SNode>),
    /// Operator and operand.
    UnaryOp(Box<SNode>, Box<SNode>),
    List(Seq<SNode>),
    /// Binds, collection, body and condition.
    TupleFor(Seq<SNode>, Box<SNode>, Box<SNode>, Option<Box<SNode>>),
    /// Binds, collection, key, value, condition and grouping.
    ObjectFor(Seq<SNode>, Box<SNode>, Box<SNode>, Box<SNode>, Option<Box<SNode>>, bool),
    LineComment(Seq<char>),
    Attribute(Box<SNode>, Box<SNode>),
}

/// The view of a node: its position and the view of its token.
pub struct SNode {
    pub offset: int,
    pub line: int,
    pub column: int,
    pub token: SToken,
}

/// The view of an optional child.
pub open spec fn view_opt(n: Option<Box<Node>>) -> Option<Box<SNode>>
    decreases n,
{
    match n {
        Some(b) => Some(Box::new(view_node(*b))),
        None => None,
    }
}

/// The view of a node.
pub open spec fn view_node(n: Node) -> SNode
    decreases n,
{
    SNode {
        offset: n.offset as int,
        line: n.line as int,
        column: n.column as int,
        token: match n.token {
            Token::Unknown => SToken::Unknown,
            Token::Identifier(s) => SToken::Identifier(s@),
            Token::Option(o) => SToken::Option(Box::new(view_node(*o.key)), Box::new(view_node(*o.value))),
            Token::Address(s) => SToken::Address(s@),
            Token::Boolean(b) => SToken::Boolean(b),
            Token::Number(v) => SToken::Number(v),
            Token::Percentage(v) => SToken::Percentage(v),
            Token::String(s) => SToken::String(s@),
            Token::NoneValue => SToken::NoneValue,
            Token::Function(f) => SToken::Function(
                Box::new(view_node(*f.name)),
                match f.subfunction {
                    Some(b) => Some(Box::new(view_node(*b))),
                    None => None,
                },
                view_nodes(f.args@),
            ),
            Token::Conditional(c) => SToken::Conditional(
                Box::new(view_node(*c.condition)),
                Box::new(view_node(*c.if_true)),
                match c.if_false {
                    Some(b) => Some(Box::new(view_node(*b))),
                    None => None,
                },
            ),
            Token::Operator(op) => SToken::Operator(op),
            Token::BinaryOp(b) => SToken::BinaryOp(
                Box::new(view_node(*b.operator)),
                Box::new(view_node(*b.left)),
                Box::new(view_node(*b.right)),
            ),
            Token::UnaryOp(u) => SToken::UnaryOp(
                Box::new(view_node(*u.operator)),
                Box::new(view_node(*u.operand)),
            ),
            Token::List(items) => SToken::List(view_nodes(items@)),
            Token::ForLoop(ForLoop::Tuple { binds, expr, body, cond }) => SToken::TupleFor(
                view_nodes(binds@),
                Box::new(view_node(*expr)),
                Box::new(view_node(*body)),
                match cond {
                    Some(b) => Some(Box::new(view_node(*b))),
                    None => None,
                },
            ),
            Token::ForLoop(ForLoop::Object { binds, expr, body, cond, grouping }) => SToken::ObjectFor(
                view_nodes(binds@),
                Box::new(view_node(*expr)),
                Box::new(view_node(*body.key)),
                Box::new(view_node(*body.val)),
                match cond {
                    Some(b) => Some(Box::new(view_node(*b))),
                    None => None,
                },
                grouping,
            ),
            Token::LineComment(s) => SToken::LineComment(s@),
            Token::Attribute(a) => SToken::Attribute(Box::new(view_node(*a.ident)), Box::new(view_node(*a.expr))),
        },
    }
}

/// The views of a sequence of nodes.
pub open spec fn view_nodes(s: Seq<Node>) -> Seq<SNode>
    decreases s,
{
    if s.len() == 0 {
        Seq::empty()
    } else {
        view_nodes(s.subrange(0, s.len() - 1)).push(view_node(s[s.len() - 1]))
    }
}

/// The views of a sequence are as many as its nodes.
pub proof fn lemma_view_len(s: Seq<Node>)
    ensures
        view_nodes(s).len() == s.len(),
    decreases s.len(),
{
    if s.len() > 0 {
        lemma_view_len(s.subrange(0, s.len() - 1));
    }
}

/// The view of one more node.
pub proof fn lemma_view_push(s: Seq<Node>, n: Node)
    ensures
        view_nodes(s.push(n)) == view_nodes(s).push(view_node(n)),
{
    assert(s.push(n).subrange(0, s.len() as int) =~= s);
}

impl Node {
    /// A node for `token` at `mark`.
    pub fn new(token: Token, mark: Mark) -> (r: Node)
        ensures
            r.offset == mark.offset && r.line == mark.line && r.column == mark.column,
            r.token == token,
    {
        Node { offset: mark.offset, line: mark.line, column: mark.column, token }
    }

    /// A node for `token` at the position of `node`.
    pub fn from_node(token: Token, node: &Node) -> (r: Node)
        ensures
            r.offset == node.offset && r.line == node.line && r.column == node.column,
            r.token == token,
    {
        Node { offset: node.offset, line: node.line, column: node.column, token }
    }
}

impl Default for Node {
    /// A node that stands for no parsed text.
    fn default() -> (r: Node)
        ensures
            r.offset == 0 && r.line == 0 && r.column == 0 && r.token == Token::Unknown,
    {
        Node { offset: 0, line: 0, column: 0, token: Token::Unknown }
    }
}

impl Token {
    /// The name, if this is an identifier.
    pub fn as_identifier(&self) -> (r: Option<&str>)
        ensures
            match *self {
                Token::Identifier(s) => r is Some && r->0@ == s@,
                _ => r is None,
            },
    {
        match self {
            Token::Identifier(s) => Some(s.as_str()),
            _ => None,
        }
    }

    /// The value, if this is a boolean.
    pub fn as_boolean(&self) -> (r: Option<bool>)
        ensures
            match *self {
                Token::Boolean(b) => r == Some(b),
                _ => r is None,
            },
    {
        match self {
            Token::Boolean(b) => Some(*b),
            _ => None,
        }
    }

    /// `Some(())` if this is `true`.
    pub fn as_true(&self) -> (r: Option<()>)
        ensures
            r is Some <==> *self == Token::Boolean(true),
    {
        match self {
            Token::Boolean(true) => Some(()),
            _ => None,
        }
    }

    /// `Some(())` if this is `false`.
    pub fn as_false(&self) -> (r: Option<()>)
        ensures
            r is Some <==> *self == Token::Boolean(false),
    {
        match self {
            Token::Boolean(false) => Some(()),
            _ => None,
        }
    }

    /// The text, if this is a string.
    pub fn as_string(&self) -> (r: Option<&str>)
        ensures
            match *self {
                Token::String(s) => r is Some && r->0@ == s@,
                _ => r is None,
            },
    {
        match self {
            Token::String(s) => Some(s.as_str()),
            _ => None,
        }
    }

    /// The address, if this is one.
    pub fn as_address(&self) -> (r: Option<&str>)
        ensures
            match *self {
                Token::Address(s) => r is Some && r->0@ == s@,
                _ => r is None,
            },
    {
        match self {
            Token::Address(s) => Some(s.as_str()),
            _ => None,
        }
    }

    /// The operator, if this is one.
    pub fn as_operator(&self) -> (r: Option<Operator>)
        ensures
            match *self {
                Token::Operator(op) => r == Some(op),
                _ => r is None,
            },
    {
        match self {
            Token::Operator(op) => Some(*op),
            _ => None,
        }
    }

    /// `Some(())` if this is `none`.
    pub fn as_none(&self) -> (r: Option<()>)
        ensures
            r is Some <==> *self is NoneValue,
    {
        match self {
            Token::NoneValue => Some(()),
            _ => None,
        }
    }

    /// The value, if this is a percentage.
    pub fn as_percentage(&self) -> (r: Option<N>)
        ensures
            match *self {
                Token::Percentage(v) => r == Some(v),
                _ => r is None,
            },
    {
        match self {
            Token::Percentage(v) => Some(*v),
            _ => None,
        }
    }

    /// The contents, if this is `Function`.
    pub fn as_function(&self) -> (r: Option<&Function>)
        ensures
            match *self {
                Token::Function(x) => r == Some(&x),
                _ => r is None,
            },
    {
        match self {
            Token::Function(x) => Some(x),
            _ => None,
        }
    }

    /// The contents, if this is `Conditional`.
    pub fn as_conditional(&self) -> (r: Option<&Conditional>)
        ensures
            match *self {
                Token::Conditional(x) => r == Some(&x),
                _ => r is None,
            },
    {
        match self {
            Token::Conditional(x) => Some(x),
            _ => None,
        }
    }

    /// The contents, if this is `BinaryOp`.
    pub fn as_binary_op(&self) -> (r: Option<&BinaryOp>)
        ensures
            match *self {
                Token::BinaryOp(x) => r == Some(&x),
                _ => r is None,
            },
    {
        match self {
            Token::BinaryOp(x) => Some(x),
            _ => None,
        }
    }

    /// The contents, if this is `UnaryOp`.
    pub fn as_unary_op(&self) -> (r: Option<&UnaryOp>)
        ensures
            match *self {
                Token::UnaryOp(x) => r == Some(&x),
                _ => r is None,
            },
    {
        match self {
            Token::UnaryOp(x) => Some(x),
            _ => None,
        }
    }

    /// The contents, if this is `List`.
    pub fn as_list(&self) -> (r: Option<&Vec<Node>>)
        ensures
            match *self {
                Token::List(x) => r == Some(&x),
                _ => r is None,
            },
    {
        match self {
            Token::List(x) => Some(x),
            _ => None,
        }
    }

    /// The contents, if this is `ForLoop`.
    pub fn as_for_loop(&self) -> (r: Option<&ForLoop>)
        ensures
            match *self {
                Token::ForLoop(x) => r == Some(&x),
                _ => r is None,
            },
    {
        match self {
            Token::ForLoop(x) => Some(x),
            _ => None,
        }
    }

    /// The contents, if this is `Attribute`.
    pub fn as_attribute(&self) -> (r: Option<&Attribute>)
        ensures
            match *self {
                Token::Attribute(x) => r == Some(&x),
                _ => r is None,
            },
    {
        match self {
            Token::Attribute(x) => Some(x),
            _ => None,
        }
    }

    /// The contents, if this is `Option`.
    pub fn as_option(&self) -> (r: Option<&Opt>)
        ensures
            match *self {
                Token::Option(x) => r == Some(&x),
                _ => r is None,
            },
    {
        match self {
            Token::Option(x) => Some(x),
            _ => None,
        }
    }

    /// The text, if this is a line comment.
    pub fn as_line_comment(&self) -> (r: Option<&str>)
        ensures
            match *self {
                Token::LineComment(s) => r is Some && r->0@ == s@,
                _ => r is None,
            },
    {
        match self {
            Token::LineComment(s) => Some(s.as_str()),
            _ => None,
        }
    }

    /// The value, if this is a number.
    pub fn as_number(&self) -> (r: Option<N>)
        ensures
            match *self {
                Token::Number(v) => r == Some(v),
                _ => r is None,
            },
    {
        match self {
            Token::Number(v) => Some(*v),
            _ => None,
        }
    }
}

} // verus!
