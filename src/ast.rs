//! Shapes of the syntax tree, and the precedence relation over operators
//! that decides how a parser groups binary expressions.
use vstd::prelude::*;
use core::cmp::Ordering;
use vstd::std_specs::cmp::PartialOrdSpec;
use crate::token;
use crate::types::Type;

verus! {

/// A parsed program: its top-level units in order.
#[derive(Debug)]
pub struct AbstractSyntaxTree {
    root: Block,
}

impl AbstractSyntaxTree {
    pub closed spec fn spec_root(&self) -> Block {
        self.root
    }

    pub fn new(root: Block) -> (r: Self)
        ensures
            r.spec_root() == root,
    {
        AbstractSyntaxTree { root }
    }

    pub fn get_root(&self) -> (r: &Block)
        ensures
            *r == self.spec_root(),
    {
        &self.root
    }
}

/// Units in program order; each block owns its units.
pub type Block = Vec<ASTUnit>;

#[derive(Debug, PartialEq)]
pub enum ASTUnit {
    Declaration(Declaration),
    Statement(Statement),
    Expression(Expression),
}

#[derive(Debug, PartialEq)]
pub enum Declaration {
    VariableDeclaration { keyword: VariableDeclarationKeyword, identifier: String, expression: Block },
    FunctionDeclaration {
        identifier: String,
        parameters: Vec<(String, Type)>,
        return_type: Type,
        expression: Block,
    },
}

#[derive(Debug, PartialEq)]
pub enum Statement {
    Return(Block),
    ControlFlow { condition: Block, execute: Block },
}

#[derive(Debug, PartialEq)]
pub enum Expression {
    BinaryExpression { left: Block, right: Block, operation: Operation },
    Literal(Literal),
    Identifier(String),
}

/// A literal value of the tree. Floating-point values have no variant here.
#[derive(Debug, PartialEq)]
pub enum Literal {
    String(String),
    Int8(i8),
    UInt8(u8),
    Int16(i16),
    UInt16(u16),
    Int32(i32),
    UInt32(u32),
    Int64(i64),
    UInt64(u64),
    Bool(bool),
    Char(char),
}

/// Why the text of a number literal gives no value.
#[derive(Debug, Clone, Copy, PartialEq, Eq, Structural)]
pub enum LiteralError {
    /// The text is not an optional `-` followed by one or more digits.
    Malformed,
    /// The value does not fit in an `i32`.
    OutOfRange,
}

pub open spec fn digit_value(c: char) -> int {
    c as int - '0' as int
}

/// Whether every character of `d` is a digit.
pub open spec fn all_digits(d: Seq<char>) -> bool {
    forall|k: int| 0 <= k < d.len() ==> '0' <= #[trigger] d[k] && d[k] <= '9'
}

/// The value of a run of decimal digits.
pub open spec fn decimal_value(d: Seq<char>) -> int
    decreases d.len(),
{
    if d.len() == 0 {
        0
    } else {
        decimal_value(d.drop_last()) * 10 + digit_value(d.last())
    }
}

/// Whether `t` is the text of a number: an optional `-`, then digits.
pub open spec fn is_number_text(t: Seq<char>) -> bool {
    if t.len() > 0 && t[0] == '-' {
        t.len() > 1 && all_digits(t.drop_first())
    } else {
        t.len() > 0 && all_digits(t)
    }
}

/// The value written by the text of a number.
pub open spec fn number_value(t: Seq<char>) -> int {
    if t.len() > 0 && t[0] == '-' {
        -decimal_value(t.drop_first())
    } else {
        decimal_value(t)
    }
}

/// What the text of a number gives as an `i32`.
pub open spec fn number_result(t: Seq<char>) -> Result<i32, LiteralError> {
    if !is_number_text(t) {
        Err(LiteralError::Malformed)
    } else if i32::MIN <= number_value(t) <= i32::MAX {
        Ok(number_value(t) as i32)
    } else {
        Err(LiteralError::OutOfRange)
    }
}

proof fn lemma_decimal_value_grows(d: Seq<char>, c: char)
    requires
        all_digits(d.push(c)),
    ensures
        decimal_value(d.push(c)) == decimal_value(d) * 10 + digit_value(c),
        decimal_value(d) >= 0,
        decimal_value(d.push(c)) >= decimal_value(d),
{
    assert(d.push(c).drop_last() =~= d);
    lemma_decimal_value_nonneg(d);
}

proof fn lemma_decimal_value_nonneg(d: Seq<char>)
    requires
        all_digits(d),
    ensures
        decimal_value(d) >= 0,
    decreases d.len(),
{
    if d.len() > 0 {
        assert(all_digits(d.drop_last()));
        lemma_decimal_value_nonneg(d.drop_last());
    }
}

/// The largest magnitude that a number may have: that of `i32::MIN`.
const MAGNITUDE_LIMIT: u64 = 2147483648;

impl Literal {
    /// The literal of the tree for a literal token. A number becomes an
    /// `Int32`, and is refused where its text is not a number or its value
    /// does not fit.
    pub fn from_literal_token(value: &token::Literal) -> (r: Result<Self, LiteralError>)
        ensures
            match value {
                token::Literal::String(s) => r matches Ok(Literal::String(t)) && t@ == s@,
                token::Literal::Boolean(b) => r == Ok::<Literal, LiteralError>(Literal::Bool(*b)),
                token::Literal::Number(n) => r == match number_result(n@) {
                    Ok(v) => Ok(Literal::Int32(v)),
                    Err(e) => Err(e),
                },
            },
    {
        match value {
            token::Literal::String(s) => Ok(Literal::String(s.clone())),
            token::Literal::Boolean(b) => Ok(Literal::Bool(*b)),
            token::Literal::Number(n) => match parse_i32(n.as_str()) {
                Ok(v) => Ok(Literal::Int32(v)),
                Err(e) => Err(e),
            },
        }
    }
}

/// The `i32` written by `text`: an optional `-`, then decimal digits.
pub fn parse_i32(text: &str) -> (r: Result<i32, LiteralError>)
    ensures
        r == number_result(text@),
{
    let ghost t = text@;
    let n = text.unicode_len();
    let negative = n > 0 && text.get_char(0) == '-';
    let start: usize = if negative {
        1
    } else {
        0
    };
    if n <= start {
        return Err(LiteralError::Malformed);
    }
    let ghost d = t.subrange(start as int, t.len() as int);
    let mut k: usize = start;
    let mut magnitude: u64 = 0;
    let mut too_large = false;
    while k < n
        invariant
            n == t.len(),
            t == text@,
            start <= k <= n,
            start == (if negative {
                1usize
            } else {
                0usize
            }),
            negative == (t.len() > 0 && t[0] == '-'),
            d == t.subrange(start as int, t.len() as int),
            all_digits(t.subrange(start as int, k as int)),
            !too_large ==> magnitude == decimal_value(t.subrange(start as int, k as int)),
            !too_large ==> magnitude <= MAGNITUDE_LIMIT,
            too_large ==> decimal_value(t.subrange(start as int, k as int)) > MAGNITUDE_LIMIT,
        decreases n - k,
    {
        let c = text.get_char(k);
        if !('0' <= c && c <= '9') {
            proof {
                assert(d[k - start] == c);
                if negative {
                    assert(d =~= t.drop_first());
                } else {
                    assert(d =~= t);
                }
            }
            return Err(LiteralError::Malformed);
        }
        let ghost prefix = t.subrange(start as int, k as int);
        proof {
            assert(t.subrange(start as int, k + 1) =~= prefix.push(c));
            lemma_decimal_value_grows(prefix, c);
        }
        if !too_large {
            let next = magnitude * 10 + (c as u64 - '0' as u64);
            if next > MAGNITUDE_LIMIT {
                too_large = true;
            } else {
                magnitude = next;
            }
        }
        k = k + 1;
    }
    proof {
        assert(t.subrange(start as int, n as int) =~= d);
        if negative {
            assert(d =~= t.drop_first());
        } else {
            assert(d =~= t);
        }
    }
    if too_large {
        return Err(LiteralError::OutOfRange);
    }
    if negative {
        Ok((0 - magnitude as i64) as i32)
    } else if magnitude > i32::MAX as u64 {
        Err(LiteralError::OutOfRange)
    } else {
        Ok(magnitude as i32)
    }
}

/// Whether `value` is exactly the characters `w`.
fn text_is(value: &str, w: &[char]) -> (r: bool)
    ensures
        r == (value@ == w@),
{
    let n = value.unicode_len();
    if n != w.len() {
        return false;
    }
    let mut k: usize = 0;
    while k < n
        invariant
            n == value@.len(),
            n == w@.len(),
            k <= n,
            value@.subrange(0, k as int) == w@.subrange(0, k as int),
        decreases n - k,
    {
        if value.get_char(k) != w[k] {
            return false;
        }
        assert(value@.subrange(0, k + 1) =~= w@.subrange(0, k + 1));
        k = k + 1;
    }
    assert(value@.subrange(0, n as int) =~= value@);
    assert(w@.subrange(0, n as int) =~= w@);
    true
}

/// Whether `value` is the single character `c`.
fn text_is_char(value: &str, c: char) -> (r: bool)
    ensures
        r == (value@ == seq![c]),
{
    let n = value.unicode_len();
    if n != 1 {
        return false;
    }
    let first = value.get_char(0);
    assert(value@ =~= seq![first]);
    first == c
}

/// The ordering of two ranks.
pub open spec fn compare(a: int, b: int) -> Ordering {
    if a < b {
        Ordering::Less
    } else if a > b {
        Ordering::Greater
    } else {
        Ordering::Equal
    }
}

fn compare_ranks(a: u8, b: u8) -> (r: Ordering)
    ensures
        r == compare(a as int, b as int),
{
    if a < b {
        Ordering::Less
    } else if a > b {
        Ordering::Greater
    } else {
        Ordering::Equal
    }
}

/// A binary operator of the tree.
#[derive(Debug, Clone, Copy, PartialEq, Eq, Structural)]
pub enum Operation {
    Algebraic(AlgebraicOperation),
    Logical(LogicalOperation),
}

/// The operator written `text`, if there is one.
pub open spec fn spec_operation_from(text: Seq<char>) -> Option<Operation> {
    match spec_algebraic_from(text) {
        Some(a) => Some(Operation::Algebraic(a)),
        None => match spec_logical_from(text) {
            Some(l) => Some(Operation::Logical(l)),
            None => None,
        },
    }
}

/// How tightly an operator binds: every arithmetic operator binds tighter
/// than every logical one.
pub open spec fn precedence(op: Operation) -> int {
    match op {
        Operation::Algebraic(a) => 7 + algebraic_rank(a),
        Operation::Logical(l) => logical_rank(l),
    }
}

impl Operation {
    pub fn from_str(value: &str) -> (r: Option<Self>)
        ensures
            r == spec_operation_from(value@),
    {
        match AlgebraicOperation::from_str(value) {
            Some(a) => Some(Operation::Algebraic(a)),
            None => match LogicalOperation::from_str(value) {
                Some(l) => Some(Operation::Logical(l)),
                None => None,
            },
        }
    }

    pub fn rank(&self) -> (r: u8)
        ensures
            r == precedence(*self),
    {
        match self {
            Operation::Algebraic(a) => 7 + a.rank(),
            Operation::Logical(l) => l.rank(),
        }
    }
}

impl PartialOrd for Operation {
    /// An operator is greater than another where it binds tighter. Two
    /// different operators that bind equally, such as addition and
    /// subtraction, compare as `Equal` although `==` tells them apart.
    fn partial_cmp(&self, other: &Self) -> (r: Option<Ordering>)
        ensures
            r == Some(compare(precedence(*self), precedence(*other))),
    {
        Some(compare_ranks(self.rank(), other.rank()))
    }
}

impl vstd::std_specs::cmp::PartialOrdSpecImpl for Operation {
    open spec fn obeys_partial_cmp_spec() -> bool {
        true
    }

    open spec fn partial_cmp_spec(&self, other: &Self) -> Option<Ordering> {
        Some(compare(precedence(*self), precedence(*other)))
    }
}

/// The precedence relation is total and consistent: any two operators
/// compare, each operator is equal to itself, comparing the other way round
/// gives the opposite answer, and the relation is transitive.
pub proof fn lemma_precedence_total(a: Operation, b: Operation, c: Operation)
    ensures
        a.partial_cmp_spec(&b) is Some,
        a.partial_cmp_spec(&a) == Some(Ordering::Equal),
        a.partial_cmp_spec(&b) == Some(Ordering::Less) <==> b.partial_cmp_spec(&a) == Some(
            Ordering::Greater,
        ),
        a.partial_cmp_spec(&b) == Some(Ordering::Equal) <==> b.partial_cmp_spec(&a) == Some(
            Ordering::Equal,
        ),
        a.partial_cmp_spec(&b) == Some(Ordering::Less) && b.partial_cmp_spec(&c) == Some(
            Ordering::Less,
        ) ==> a.partial_cmp_spec(&c) == Some(Ordering::Less),
        a.partial_cmp_spec(&b) != Some(Ordering::Greater) && b.partial_cmp_spec(&c) != Some(
            Ordering::Greater,
        ) ==> a.partial_cmp_spec(&c) != Some(Ordering::Greater),
{
}

/// Arithmetic operators bind tighter than logical ones, and among logical
/// operators binding strength descends from `Equal` through
/// `GreaterOrEqual`, `LessOrEqual`, `Greater`, `Less` and `Or` to `And`.
pub proof fn lemma_precedence_order(a: AlgebraicOperation, l: LogicalOperation)
    ensures
        Operation::Algebraic(a).partial_cmp_spec(&Operation::Logical(l)) == Some(Ordering::Greater),
        logical_rank(LogicalOperation::Equal) > logical_rank(LogicalOperation::GreaterOrEqual),
        logical_rank(LogicalOperation::GreaterOrEqual) > logical_rank(LogicalOperation::LessOrEqual),
        logical_rank(LogicalOperation::LessOrEqual) > logical_rank(LogicalOperation::Greater),
        logical_rank(LogicalOperation::Greater) > logical_rank(LogicalOperation::Less),
        logical_rank(LogicalOperation::Less) > logical_rank(LogicalOperation::Or),
        logical_rank(LogicalOperation::Or) > logical_rank(LogicalOperation::And),
{
}

/// An arithmetic operator.
#[derive(Debug, Clone, Copy, PartialEq, Eq, Structural)]
pub enum AlgebraicOperation {
    Addition,
    Subtraction,
    Multiplication,
    Division,
}

/// The arithmetic operator written `text`, if there is one.
pub open spec fn spec_algebraic_from(text: Seq<char>) -> Option<AlgebraicOperation> {
    if text == seq!['+'] {
        Some(AlgebraicOperation::Addition)
    } else if text == seq!['-'] {
        Some(AlgebraicOperation::Subtraction)
    } else if text == seq!['*'] {
        Some(AlgebraicOperation::Multiplication)
    } else if text == seq!['/'] {
        Some(AlgebraicOperation::Division)
    } else {
        None
    }
}

/// Two tiers: multiplication and division bind tighter than addition and
/// subtraction, and the two operators of a tier bind equally.
pub open spec fn algebraic_rank(op: AlgebraicOperation) -> int {
    match op {
        AlgebraicOperation::Addition => 0,
        AlgebraicOperation::Subtraction => 0,
        AlgebraicOperation::Multiplication => 1,
        AlgebraicOperation::Division => 1,
    }
}

impl AlgebraicOperation {
    pub fn from_str(value: &str) -> (r: Option<Self>)
        ensures
            r == spec_algebraic_from(value@),
    {
        if text_is_char(value, '+') {
            Some(AlgebraicOperation::Addition)
        } else if text_is_char(value, '-') {
            Some(AlgebraicOperation::Subtraction)
        } else if text_is_char(value, '*') {
            Some(AlgebraicOperation::Multiplication)
        } else if text_is_char(value, '/') {
            Some(AlgebraicOperation::Division)
        } else {
            None
        }
    }

    pub fn rank(&self) -> (r: u8)
        ensures
            r == algebraic_rank(*self),
    {
        match self {
            AlgebraicOperation::Addition => 0,
            AlgebraicOperation::Subtraction => 0,
            AlgebraicOperation::Multiplication => 1,
            AlgebraicOperation::Division => 1,
        }
    }
}

impl PartialOrd for AlgebraicOperation {
    fn partial_cmp(&self, other: &Self) -> (r: Option<Ordering>)
        ensures
            r == Some(compare(algebraic_rank(*self), algebraic_rank(*other))),
    {
        Some(compare_ranks(self.rank(), other.rank()))
    }
}

impl vstd::std_specs::cmp::PartialOrdSpecImpl for AlgebraicOperation {
    open spec fn obeys_partial_cmp_spec() -> bool {
        true
    }

    open spec fn partial_cmp_spec(&self, other: &Self) -> Option<Ordering> {
        Some(compare(algebraic_rank(*self), algebraic_rank(*other)))
    }
}

/// A comparison or boolean operator.
#[derive(Debug, Clone, Copy, PartialEq, Eq, Structural)]
pub enum LogicalOperation {
    Equal,
    GreaterOrEqual,
    LessOrEqual,
    Greater,
    Less,
    Or,
    And,
}

/// The logical operator written `text`, if there is one.
pub open spec fn spec_logical_from(text: Seq<char>) -> Option<LogicalOperation> {
    if text == seq!['=', '='] {
        Some(LogicalOperation::Equal)
    } else if text == seq!['>', '='] {
        Some(LogicalOperation::GreaterOrEqual)
    } else if text == seq!['<', '='] {
        Some(LogicalOperation::LessOrEqual)
    } else if text == seq!['>'] {
        Some(LogicalOperation::Greater)
    } else if text == seq!['<'] {
        Some(LogicalOperation::Less)
    } else if text == seq!['|', '|'] {
        Some(LogicalOperation::Or)
    } else if text == seq!['&', '&'] {
        Some(LogicalOperation::And)
    } else {
        None
    }
}

/// The rank of each logical operator, from `Equal`, which binds tightest,
/// down to `And`.
pub open spec fn logical_rank(op: LogicalOperation) -> int {
    match op {
        LogicalOperation::Equal => 6,
        LogicalOperation::GreaterOrEqual => 5,
        LogicalOperation::LessOrEqual => 4,
        LogicalOperation::Greater => 3,
        LogicalOperation::Less => 2,
        LogicalOperation::Or => 1,
        LogicalOperation::And => 0,
    }
}

impl LogicalOperation {
    pub fn from_str(value: &str) -> (r: Option<Self>)
        ensures
            r == spec_logical_from(value@),
    {
        if text_is(value, &['=', '=']) {
            Some(LogicalOperation::Equal)
        } else if text_is(value, &['>', '=']) {
            Some(LogicalOperation::GreaterOrEqual)
        } else if text_is(value, &['<', '=']) {
            Some(LogicalOperation::LessOrEqual)
        } else if text_is_char(value, '>') {
            Some(LogicalOperation::Greater)
        } else if text_is_char(value, '<') {
            Some(LogicalOperation::Less)
        } else if text_is(value, &['|', '|']) {
            Some(LogicalOperation::Or)
        } else if text_is(value, &['&', '&']) {
            Some(LogicalOperation::And)
        } else {
            None
        }
    }

    pub fn rank(&self) -> (r: u8)
        ensures
            r == logical_rank(*self),
    {
        match self {
            LogicalOperation::Equal => 6,
            LogicalOperation::GreaterOrEqual => 5,
            LogicalOperation::LessOrEqual => 4,
            LogicalOperation::Greater => 3,
            LogicalOperation::Less => 2,
            LogicalOperation::Or => 1,
            LogicalOperation::And => 0,
        }
    }
}

impl PartialOrd for LogicalOperation {
    fn partial_cmp(&self, other: &Self) -> (r: Option<Ordering>)
        ensures
            r == Some(compare(logical_rank(*self), logical_rank(*other))),
    {
        Some(compare_ranks(self.rank(), other.rank()))
    }
}

impl vstd::std_specs::cmp::PartialOrdSpecImpl for LogicalOperation {
    open spec fn obeys_partial_cmp_spec() -> bool {
        true
    }

    open spec fn partial_cmp_spec(&self, other: &Self) -> Option<Ordering> {
        Some(compare(logical_rank(*self), logical_rank(*other)))
    }
}

#[derive(Debug, Clone, Copy, PartialEq, Eq, Structural)]
pub enum VariableDeclarationKeyword {
    Const,
    Let,
}

} // verus!
