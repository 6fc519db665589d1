//! The abstract syntax tree and the precedence-climbing parser that builds it
//! from a token sequence.
//!
//! The grammar, with every binary operator left-associative and precedence
//! rising downwards:
//!
//! ```text
//! statement      := assignment | expression
//! assignment     := IDENTIFIER '=' expression
//! expression     := additive
//! additive       := multiplicative ( ('+' | '-') multiplicative )*
//! multiplicative := grouped ( ('*' | '/') grouped )*
//! grouped        := '(' expression ')' | primary
//! primary        := IDENTIFIER | NUMBER
//! ```
//!
//! This is the assignment variant of the grammar: two adjacent primary or
//! parenthesised expressions with no operator between them are a parse error,
//! never an implicit multiplication, and a statement must consume the whole
//! token sequence.
//!
//! The parser walks the sequence with an explicit cursor: each rule takes an
//! offset into the immutable token sequence and reports how many tokens it
//! consumed, so the sequence is never drained or rebuilt. Its whole behaviour
//! is pinned by the spec-level parser `spec_parse_stmt` and its companions,
//! which the contracts of the executable functions refer to.

use crate::token::Token;
use crate::token::TokenView;
use vstd::prelude::*;
use vstd::slice::slice_index_get;

verus! {

/// A node of the abstract syntax tree.
///
/// A numeric literal's 64-bit word travels from `Token::NumericLiteral`
/// into `ASTNode::Number` untouched. An `Assignment` only ever stands at the
/// root of a tree, never below another node.
#[derive(Debug, PartialEq)]
pub enum ASTNode {
    Variable(String),
    Number(u64),
    Assignment(String, Box<ASTNode>),
    BinaryExpr { lhs: Box<ASTNode>, op: Token, rhs: Box<ASTNode> },
}

/// The model of a tree: names are character sequences, children are values.
#[verifier::ext_equal]
pub enum AstView {
    Variable(Seq<char>),
    Number(u64),
    Assignment(Seq<char>, Box<AstView>),
    BinaryExpr { lhs: Box<AstView>, op: TokenView, rhs: Box<AstView> },
}

impl ASTNode {
    /// The model of this tree.
    pub open spec fn model(self) -> AstView
        decreases self,
    {
        match self {
            ASTNode::Variable(name) => AstView::Variable(name@),
            ASTNode::Number(value) => AstView::Number(value),
            ASTNode::Assignment(name, value) => AstView::Assignment(
                name@,
                Box::new(value.model()),
            ),
            ASTNode::BinaryExpr { lhs, op, rhs } => AstView::BinaryExpr {
                lhs: Box::new(lhs.model()),
                op: op@,
                rhs: Box::new(rhs.model()),
            },
        }
    }
}

impl View for ASTNode {
    type V = AstView;

    open spec fn view(&self) -> AstView {
        self.model()
    }
}

/// A parse failure, carrying the offending offset and token context.
#[derive(Debug, PartialEq)]
#[allow(inconsistent_fields)]
pub enum ParseError {
    /// The cursor ran off the end of the sequence where a token was required.
    UnexpectedEndOfInput { offset: usize },
    /// A primary expression was required and the token is neither an
    /// identifier nor a numeric literal, or tokens were left over after a
    /// complete statement.
    UnexpectedToken { offset: usize, found: Token },
    /// One specific token was required and a different one, or the end of
    /// the sequence, was found.
    ExpectedTokenMismatch { offset: usize, expected: Token, found: Option<Token> },
}

/// The model of a parse failure.
#[verifier::ext_equal]
#[allow(inconsistent_fields)]
pub enum ParseErrorView {
    UnexpectedEndOfInput { offset: int },
    UnexpectedToken { offset: int, found: TokenView },
    ExpectedTokenMismatch { offset: int, expected: TokenView, found: Option<TokenView> },
}

impl View for ParseError {
    type V = ParseErrorView;

    open spec fn view(&self) -> ParseErrorView {
        match self {
            ParseError::UnexpectedEndOfInput { offset } => {
                ParseErrorView::UnexpectedEndOfInput { offset: *offset as int }
            },
            ParseError::UnexpectedToken { offset, found } => {
                ParseErrorView::UnexpectedToken { offset: *offset as int, found: found@ }
            },
            ParseError::ExpectedTokenMismatch { offset, expected, found } => {
                ParseErrorView::ExpectedTokenMismatch {
                    offset: *offset as int,
                    expected: expected@,
                    found: match found {
                        Some(token) => Some(token@),
                        None => None,
                    },
                }
            },
        }
    }
}

/// What a successful rule yields: how many tokens it consumed, and the tree.
pub type SpecParsed = Result<(nat, AstView), ParseErrorView>;

/// How many tokens remain from `idx` on; the measure every rule descends by.
pub open spec fn spec_rem(t: Seq<TokenView>, idx: int) -> nat {
    if idx <= t.len() {
        (t.len() - idx) as nat
    } else {
        0
    }
}

/// `primary := IDENTIFIER | NUMBER`
pub open spec fn spec_parse_primary(t: Seq<TokenView>, idx: int) -> SpecParsed
    decreases spec_rem(t, idx), 0int,
{
    if !(0 <= idx < t.len()) {
        Err(ParseErrorView::UnexpectedEndOfInput { offset: idx })
    } else {
        match t[idx] {
            TokenView::Identifier(name) => Ok((1nat, AstView::Variable(name))),
            TokenView::NumericLiteral(value) => Ok((1nat, AstView::Number(value))),
            _ => Err(ParseErrorView::UnexpectedToken { offset: idx, found: t[idx] }),
        }
    }
}

/// `grouped := '(' expression ')' | primary`
pub open spec fn spec_parse_grouped(t: Seq<TokenView>, idx: int) -> SpecParsed
    decreases spec_rem(t, idx), 1int,
{
    if !(0 <= idx < t.len()) {
        Err(ParseErrorView::UnexpectedEndOfInput { offset: idx })
    } else if !(t[idx] is OpenParen) {
        spec_parse_primary(t, idx)
    } else {
        match spec_parse_expr(t, idx + 1) {
            Err(e) => Err(e),
            Ok((inner, node)) => {
                let close = idx + 1 + inner;
                if close < t.len() && t[close] is CloseParen {
                    Ok(((inner + 2) as nat, node))
                } else if close < t.len() {
                    Err(ParseErrorView::ExpectedTokenMismatch {
                        offset: close,
                        expected: TokenView::CloseParen,
                        found: Some(t[close]),
                    })
                } else {
                    Err(ParseErrorView::ExpectedTokenMismatch {
                        offset: close,
                        expected: TokenView::CloseParen,
                        found: None,
                    })
                }
            },
        }
    }
}

/// The left-folding loop of `multiplicative`: from `lhs`, keep consuming a
/// `'*'` or `'/'` and one more `grouped` operand.
pub open spec fn spec_parse_multiplicative_tail(t: Seq<TokenView>, pos: int, lhs: AstView) -> SpecParsed
    decreases spec_rem(t, pos), 2int,
{
    if 0 <= pos < t.len() && (t[pos] is OpMultiply || t[pos] is OpDivide) {
        match spec_parse_grouped(t, pos + 1) {
            Err(e) => Err(e),
            Ok((next, rhs)) => {
                let folded = AstView::BinaryExpr {
                    lhs: Box::new(lhs),
                    op: t[pos],
                    rhs: Box::new(rhs),
                };
                match spec_parse_multiplicative_tail(t, pos + 1 + next, folded) {
                    Err(e) => Err(e),
                    Ok((rest, node)) => Ok(((1 + next + rest) as nat, node)),
                }
            },
        }
    } else {
        Ok((0nat, lhs))
    }
}

/// `multiplicative := grouped ( ('*' | '/') grouped )*`
pub open spec fn spec_parse_multiplicative(t: Seq<TokenView>, idx: int) -> SpecParsed
    decreases spec_rem(t, idx), 3int,
{
    match spec_parse_grouped(t, idx) {
        Err(e) => Err(e),
        Ok((first, lhs)) => match spec_parse_multiplicative_tail(t, idx + first, lhs) {
            Err(e) => Err(e),
            Ok((rest, node)) => Ok(((first + rest) as nat, node)),
        },
    }
}

/// The left-folding loop of `additive`: from `lhs`, keep consuming a `'+'`
/// or `'-'` and one more `multiplicative` operand.
pub open spec fn spec_parse_additive_tail(t: Seq<TokenView>, pos: int, lhs: AstView) -> SpecParsed
    decreases spec_rem(t, pos), 4int,
{
    if 0 <= pos < t.len() && (t[pos] is OpAdd || t[pos] is OpSubtract) {
        match spec_parse_multiplicative(t, pos + 1) {
            Err(e) => Err(e),
            Ok((next, rhs)) => {
                let folded = AstView::BinaryExpr {
                    lhs: Box::new(lhs),
                    op: t[pos],
                    rhs: Box::new(rhs),
                };
                match spec_parse_additive_tail(t, pos + 1 + next, folded) {
                    Err(e) => Err(e),
                    Ok((rest, node)) => Ok(((1 + next + rest) as nat, node)),
                }
            },
        }
    } else {
        Ok((0nat, lhs))
    }
}

/// `additive := multiplicative ( ('+' | '-') multiplicative )*`
pub open spec fn spec_parse_additive(t: Seq<TokenView>, idx: int) -> SpecParsed
    decreases spec_rem(t, idx), 5int,
{
    match spec_parse_multiplicative(t, idx) {
        Err(e) => Err(e),
        Ok((first, lhs)) => match spec_parse_additive_tail(t, idx + first, lhs) {
            Err(e) => Err(e),
            Ok((rest, node)) => Ok(((first + rest) as nat, node)),
        },
    }
}

/// `expression := additive`
pub open spec fn spec_parse_expr(t: Seq<TokenView>, idx: int) -> SpecParsed
    decreases spec_rem(t, idx), 6int,
{
    spec_parse_additive(t, idx)
}

/// `statement := assignment | expression`, with assignment chosen by a
/// two-token lookahead for `IDENTIFIER '='` and never retried once
/// expression parsing has begun.
pub open spec fn spec_parse_stmt(t: Seq<TokenView>, idx: int) -> SpecParsed
    decreases spec_rem(t, idx), 7int,
{
    if 0 <= idx && idx + 1 < t.len() && (t[idx] is Identifier) && (t[idx + 1] is OpAssign) {
        match spec_parse_expr(t, idx + 2) {
            Err(e) => Err(e),
            Ok((value_len, value)) => Ok((
                (value_len + 2) as nat,
                AstView::Assignment(t[idx]->Identifier_0, Box::new(value)),
            )),
        }
    } else {
        spec_parse_expr(t, idx)
    }
}

/// What `ASTNode::try_from` returns: one whole statement, every token
/// consumed, or the first failure.
pub open spec fn spec_try_from(t: Seq<TokenView>) -> Result<AstView, ParseErrorView> {
    match spec_parse_stmt(t, 0) {
        Err(e) => Err(e),
        Ok((consumed, node)) => {
            if consumed == t.len() {
                Ok(node)
            } else {
                Err(ParseErrorView::UnexpectedToken {
                    offset: consumed as int,
                    found: t[consumed as int],
                })
            }
        },
    }
}

/// How an executable rule's result must relate to the spec-level rule `sp`
/// entered at offset `idx` of a sequence of `len` tokens.
pub open spec fn matches_spec(
    r: Result<(usize, ASTNode), ParseError>,
    sp: SpecParsed,
    idx: int,
    len: nat,
) -> bool {
    match r {
        Ok((consumed, node)) => {
            &&& sp == Ok::<(nat, AstView), ParseErrorView>((consumed as nat, node@))
            &&& idx + consumed <= len
            &&& len <= usize::MAX
        },
        Err(e) => sp == Err::<(nat, AstView), ParseErrorView>(e@),
    }
}

impl ASTNode {
    /// Parses one whole statement out of `tokens`; tokens left over after it
    /// are an error, so two adjacent expressions with no operator between
    /// them are rejected rather than multiplied.
    pub fn try_from(tokens: &[Token]) -> (r: Result<Self, ParseError>)
        ensures
            match r {
                Ok(node) => spec_try_from(tokens.deep_view()) == Ok::<AstView, ParseErrorView>(
                    node@,
                ),
                Err(e) => spec_try_from(tokens.deep_view()) == Err::<AstView, ParseErrorView>(e@),
            },
    {
        match Self::parse_program(0, tokens) {
            Err(e) => Err(e),
            Ok((consumed, node)) => {
                if consumed == tokens.len() {
                    Ok(node)
                } else {
                    let found = slice_index_get(tokens, consumed).clone();
                    Err(ParseError::UnexpectedToken { offset: consumed, found })
                }
            },
        }
    }

    /// A program is a single statement.
    fn parse_program(idx: usize, tokens: &[Token]) -> (r: Result<(usize, Self), ParseError>)
        requires
            idx <= tokens@.len(),
        ensures
            matches_spec(r, spec_parse_stmt(tokens.deep_view(), idx as int), idx as int, tokens@.len()),
    {
        Self::parse_stmt(idx, tokens)
    }

    /// `statement := assignment | expression`, deciding by a two-token
    /// lookahead for `IDENTIFIER '='`; once expression parsing has begun,
    /// assignment is never retried, so `x = y = 1` is a parse error.
    fn parse_stmt(idx: usize, tokens: &[Token]) -> (r: Result<(usize, Self), ParseError>)
        requires
            idx <= tokens@.len(),
        ensures
            matches_spec(r, spec_parse_stmt(tokens.deep_view(), idx as int), idx as int, tokens@.len()),
        decreases spec_rem(tokens.deep_view(), idx as int), 7int,
    {
        if idx < tokens.len() && idx + 1 < tokens.len() {
            let var_token = slice_index_get(tokens, idx);
            let equals_token = slice_index_get(tokens, idx + 1);
            if let Token::Identifier(var_name) = var_token {
                if matches!(equals_token, Token::OpAssign) {
                    return match Self::parse_expr(idx + 2, tokens) {
                        Err(e) => Err(e),
                        Ok((value_len, value)) => Ok((
                            value_len + 2,
                            Self::Assignment(var_name.clone(), Box::new(value)),
                        )),
                    };
                }
            }
        }

        Self::parse_expr(idx, tokens)
    }

    /// `expression := additive`
    fn parse_expr(idx: usize, tokens: &[Token]) -> (r: Result<(usize, Self), ParseError>)
        requires
            idx <= tokens@.len(),
        ensures
            matches_spec(r, spec_parse_expr(tokens.deep_view(), idx as int), idx as int, tokens@.len()),
        decreases spec_rem(tokens.deep_view(), idx as int), 6int,
    {
        Self::parse_additive_expr(idx, tokens)
    }

    /// `additive := multiplicative ( ('+' | '-') multiplicative )*`
    fn parse_additive_expr(idx: usize, tokens: &[Token]) -> (r: Result<(usize, Self), ParseError>)
        requires
            idx <= tokens@.len(),
        ensures
            matches_spec(r, spec_parse_additive(tokens.deep_view(), idx as int), idx as int, tokens@.len()),
        decreases spec_rem(tokens.deep_view(), idx as int), 5int,
    {
        match Self::parse_multiplicative_expr(idx, tokens) {
            Err(e) => Err(e),
            Ok((first, lhs)) => match Self::parse_additive_tail(idx + first, tokens, lhs) {
                Err(e) => Err(e),
                Ok((rest, node)) => Ok((first + rest, node)),
            },
        }
    }

    /// The left-folding loop of `additive`: each further `'+'` or `'-'`
    /// wraps the tree built so far as the left operand, so `a - b - c`
    /// parses as `(a - b) - c`.
    fn parse_additive_tail(pos: usize, tokens: &[Token], lhs: Self) -> (r: Result<
        (usize, Self),
        ParseError,
    >)
        requires
            pos <= tokens@.len(),
        ensures
            matches_spec(
                r,
                spec_parse_additive_tail(tokens.deep_view(), pos as int, lhs@),
                pos as int,
                tokens@.len(),
            ),
        decreases spec_rem(tokens.deep_view(), pos as int), 4int,
    {
        if pos < tokens.len() {
            let token = slice_index_get(tokens, pos);
            let is_add = matches!(token, Token::OpAdd);
            let is_subtract = matches!(token, Token::OpSubtract);
            if is_add || is_subtract {
                let op = if is_add {
                    Token::OpAdd
                } else {
                    Token::OpSubtract
                };
                return match Self::parse_multiplicative_expr(pos + 1, tokens) {
                    Err(e) => Err(e),
                    Ok((next, rhs)) => {
                        let folded = Self::BinaryExpr {
                            lhs: Box::new(lhs),
                            op,
                            rhs: Box::new(rhs),
                        };
                        match Self::parse_additive_tail(pos + 1 + next, tokens, folded) {
                            Err(e) => Err(e),
                            Ok((rest, node)) => Ok((1 + next + rest, node)),
                        }
                    },
                };
            }
        }
        Ok((0, lhs))
    }

    /// `multiplicative := grouped ( ('*' | '/') grouped )*`
    fn parse_multiplicative_expr(idx: usize, tokens: &[Token]) -> (r: Result<
        (usize, Self),
        ParseError,
    >)
        requires
            idx <= tokens@.len(),
        ensures
            matches_spec(
                r,
                spec_parse_multiplicative(tokens.deep_view(), idx as int),
                idx as int,
                tokens@.len(),
            ),
        decreases spec_rem(tokens.deep_view(), idx as int), 3int,
    {
        match Self::parse_parenthesised_expr(idx, tokens) {
            Err(e) => Err(e),
            Ok((first, lhs)) => match Self::parse_multiplicative_tail(idx + first, tokens, lhs) {
                Err(e) => Err(e),
                Ok((rest, node)) => Ok((first + rest, node)),
            },
        }
    }

    /// The left-folding loop of `multiplicative`, the higher-precedence tier:
    /// each further `'*'` or `'/'` wraps the tree built so far as the left
    /// operand.
    fn parse_multiplicative_tail(pos: usize, tokens: &[Token], lhs: Self) -> (r: Result<
        (usize, Self),
        ParseError,
    >)
        requires
            pos <= tokens@.len(),
        ensures
            matches_spec(
                r,
                spec_parse_multiplicative_tail(tokens.deep_view(), pos as int, lhs@),
                pos as int,
                tokens@.len(),
            ),
        decreases spec_rem(tokens.deep_view(), pos as int), 2int,
    {
        if pos < tokens.len() {
            let token = slice_index_get(tokens, pos);
            let is_multiply = matches!(token, Token::OpMultiply);
            let is_divide = matches!(token, Token::OpDivide);
            if is_multiply || is_divide {
                let op = if is_multiply {
                    Token::OpMultiply
                } else {
                    Token::OpDivide
                };
                return match Self::parse_parenthesised_expr(pos + 1, tokens) {
                    Err(e) => Err(e),
                    Ok((next, rhs)) => {
                        let folded = Self::BinaryExpr {
                            lhs: Box::new(lhs),
                            op,
                            rhs: Box::new(rhs),
                        };
                        match Self::parse_multiplicative_tail(pos + 1 + next, tokens, folded) {
                            Err(e) => Err(e),
                            Ok((rest, node)) => Ok((1 + next + rest, node)),
                        }
                    },
                };
            }
        }
        Ok((0, lhs))
    }

    /// `grouped := '(' expression ')' | primary`. The close paren must be
    /// present: running out of tokens where it is due is the same mismatch
    /// error as finding another token there.
    fn parse_parenthesised_expr(idx: usize, tokens: &[Token]) -> (r: Result<
        (usize, Self),
        ParseError,
    >)
        requires
            idx <= tokens@.len(),
        ensures
            matches_spec(
                r,
                spec_parse_grouped(tokens.deep_view(), idx as int),
                idx as int,
                tokens@.len(),
            ),
        decreases spec_rem(tokens.deep_view(), idx as int), 1int,
    {
        if idx >= tokens.len() {
            return Err(ParseError::UnexpectedEndOfInput { offset: idx });
        }
        let token = slice_index_get(tokens, idx);
        if !matches!(token, Token::OpenParen) {
            return Self::parse_primary_expr(idx, tokens);
        }

        match Self::parse_expr(idx + 1, tokens) {
            Err(e) => Err(e),
            Ok((inner, node)) => {
                let close = idx + 1 + inner;
                if close < tokens.len() {
                    let close_token = slice_index_get(tokens, close);
                    if matches!(close_token, Token::CloseParen) {
                        Ok((inner + 2, node))
                    } else {
                        Err(ParseError::ExpectedTokenMismatch {
                            offset: close,
                            expected: Token::CloseParen,
                            found: Some(close_token.clone()),
                        })
                    }
                } else {
                    Err(ParseError::ExpectedTokenMismatch {
                        offset: close,
                        expected: Token::CloseParen,
                        found: None,
                    })
                }
            },
        }
    }

    /// `primary := IDENTIFIER | NUMBER`
    fn parse_primary_expr(idx: usize, tokens: &[Token]) -> (r: Result<(usize, Self), ParseError>)
        requires
            idx <= tokens@.len(),
        ensures
            matches_spec(
                r,
                spec_parse_primary(tokens.deep_view(), idx as int),
                idx as int,
                tokens@.len(),
            ),
        decreases spec_rem(tokens.deep_view(), idx as int), 0int,
    {
        if idx >= tokens.len() {
            return Err(ParseError::UnexpectedEndOfInput { offset: idx });
        }
        let token = slice_index_get(tokens, idx);
        match token {
            Token::Identifier(var_name) => Ok((1, Self::Variable(var_name.clone()))),
            Token::NumericLiteral(value) => Ok((1, Self::Number(*value))),
            _ => Err(ParseError::UnexpectedToken { offset: idx, found: token.clone() }),
        }
    }
}

/// The four operators a `BinaryExpr` may carry.
pub open spec fn is_arith_op(op: TokenView) -> bool {
    ||| op is OpAdd
    ||| op is OpSubtract
    ||| op is OpMultiply
    ||| op is OpDivide
}

/// A well-formed expression tree: every `BinaryExpr` carries one of the four
/// arithmetic operators, and no `Assignment` occurs anywhere in it.
pub open spec fn wf_expr(a: AstView) -> bool
    decreases a,
{
    match a {
        AstView::Variable(_) => true,
        AstView::Number(_) => true,
        AstView::Assignment(_, _) => false,
        AstView::BinaryExpr { lhs, op, rhs } => is_arith_op(op) && wf_expr(*lhs) && wf_expr(*rhs),
    }
}

/// A well-formed statement tree: an assignment may stand only at the root,
/// binding a name to a well-formed expression.
pub open spec fn wf_stmt(a: AstView) -> bool {
    match a {
        AstView::Assignment(_, value) => wf_expr(*value),
        _ => wf_expr(a),
    }
}

/// An empty token sequence fails with `UnexpectedEndOfInput` at offset 0;
/// no default tree is returned.
pub proof fn lemma_empty_input(t: Seq<TokenView>)
    requires
        t.len() == 0,
    ensures
        spec_try_from(t) == Err::<AstView, ParseErrorView>(
            ParseErrorView::UnexpectedEndOfInput { offset: 0 },
        ),
{
}

proof fn lemma_primary_wf(t: Seq<TokenView>, idx: int)
    ensures
        spec_parse_primary(t, idx) matches Ok((n, node)) ==> wf_expr(node),
    decreases spec_rem(t, idx), 0int,
{
}

proof fn lemma_grouped_wf(t: Seq<TokenView>, idx: int)
    ensures
        spec_parse_grouped(t, idx) matches Ok((n, node)) ==> wf_expr(node),
    decreases spec_rem(t, idx), 1int,
{
    if 0 <= idx < t.len() && (t[idx] is OpenParen) {
        lemma_expr_wf(t, idx + 1);
    } else {
        lemma_primary_wf(t, idx);
    }
}

proof fn lemma_multiplicative_tail_wf(t: Seq<TokenView>, pos: int, lhs: AstView)
    requires
        wf_expr(lhs),
    ensures
        spec_parse_multiplicative_tail(t, pos, lhs) matches Ok((n, node)) ==> wf_expr(node),
    decreases spec_rem(t, pos), 2int,
{
    if 0 <= pos < t.len() && (t[pos] is OpMultiply || t[pos] is OpDivide) {
        lemma_grouped_wf(t, pos + 1);
        match spec_parse_grouped(t, pos + 1) {
            Ok((next, rhs)) => {
                let folded = AstView::BinaryExpr {
                    lhs: Box::new(lhs),
                    op: t[pos],
                    rhs: Box::new(rhs),
                };
                lemma_multiplicative_tail_wf(t, pos + 1 + next, folded);
            },
            Err(_) => {},
        }
    }
}

proof fn lemma_multiplicative_wf(t: Seq<TokenView>, idx: int)
    ensures
        spec_parse_multiplicative(t, idx) matches Ok((n, node)) ==> wf_expr(node),
    decreases spec_rem(t, idx), 3int,
{
    lemma_grouped_wf(t, idx);
    match spec_parse_grouped(t, idx) {
        Ok((first, lhs)) => {
            lemma_multiplicative_tail_wf(t, idx + first, lhs);
        },
        Err(_) => {},
    }
}

proof fn lemma_additive_tail_wf(t: Seq<TokenView>, pos: int, lhs: AstView)
    requires
        wf_expr(lhs),
    ensures
        spec_parse_additive_tail(t, pos, lhs) matches Ok((n, node)) ==> wf_expr(node),
    decreases spec_rem(t, pos), 4int,
{
    if 0 <= pos < t.len() && (t[pos] is OpAdd || t[pos] is OpSubtract) {
        lemma_multiplicative_wf(t, pos + 1);
        match spec_parse_multiplicative(t, pos + 1) {
            Ok((next, rhs)) => {
                let folded = AstView::BinaryExpr {
                    lhs: Box::new(lhs),
                    op: t[pos],
                    rhs: Box::new(rhs),
                };
                lemma_additive_tail_wf(t, pos + 1 + next, folded);
            },
            Err(_) => {},
        }
    }
}

proof fn lemma_additive_wf(t: Seq<TokenView>, idx: int)
    ensures
        spec_parse_additive(t, idx) matches Ok((n, node)) ==> wf_expr(node),
    decreases spec_rem(t, idx), 5int,
{
    lemma_multiplicative_wf(t, idx);
    match spec_parse_multiplicative(t, idx) {
        Ok((first, lhs)) => {
            lemma_additive_tail_wf(t, idx + first, lhs);
        },
        Err(_) => {},
    }
}

proof fn lemma_expr_wf(t: Seq<TokenView>, idx: int)
    ensures
        spec_parse_expr(t, idx) matches Ok((n, node)) ==> wf_expr(node),
    decreases spec_rem(t, idx), 6int,
{
    lemma_additive_wf(t, idx);
}

proof fn lemma_stmt_wf(t: Seq<TokenView>, idx: int)
    ensures
        spec_parse_stmt(t, idx) matches Ok((n, node)) ==> wf_stmt(node),
    decreases spec_rem(t, idx), 7int,
{
    if 0 <= idx && idx + 1 < t.len() && (t[idx] is Identifier) && (t[idx + 1] is OpAssign) {
        lemma_expr_wf(t, idx + 2);
    } else {
        lemma_expr_wf(t, idx);
    }
}

proof fn lemma_primary_bounds(t: Seq<TokenView>, idx: int)
    ensures
        spec_parse_primary(t, idx) matches Ok(res) ==> 0 <= idx && idx + res.0 <= t.len(),
    decreases spec_rem(t, idx), 0int,
{
}

proof fn lemma_grouped_bounds(t: Seq<TokenView>, idx: int)
    ensures
        spec_parse_grouped(t, idx) matches Ok(res) ==> 0 <= idx && idx + res.0 <= t.len(),
    decreases spec_rem(t, idx), 1int,
{
    if 0 <= idx < t.len() && (t[idx] is OpenParen) {
        lemma_expr_bounds(t, idx + 1);
    } else {
        lemma_primary_bounds(t, idx);
    }
}

proof fn lemma_multiplicative_tail_bounds(t: Seq<TokenView>, pos: int, lhs: AstView)
    requires
        0 <= pos <= t.len(),
    ensures
        spec_parse_multiplicative_tail(t, pos, lhs) matches Ok(res) ==> pos + res.0 <= t.len(),
    decreases spec_rem(t, pos), 2int,
{
    if 0 <= pos < t.len() && (t[pos] is OpMultiply || t[pos] is OpDivide) {
        lemma_grouped_bounds(t, pos + 1);
        match spec_parse_grouped(t, pos + 1) {
            Ok((next, rhs)) => {
                let folded = AstView::BinaryExpr {
                    lhs: Box::new(lhs),
                    op: t[pos],
                    rhs: Box::new(rhs),
                };
                lemma_multiplicative_tail_bounds(t, pos + 1 + next, folded);
            },
            Err(_) => {},
        }
    }
}

proof fn lemma_multiplicative_bounds(t: Seq<TokenView>, idx: int)
    ensures
        spec_parse_multiplicative(t, idx) matches Ok(res) ==> 0 <= idx && idx + res.0 <= t.len(),
    decreases spec_rem(t, idx), 3int,
{
    lemma_grouped_bounds(t, idx);
    match spec_parse_grouped(t, idx) {
        Ok((first, lhs)) => {
            lemma_multiplicative_tail_bounds(t, idx + first, lhs);
        },
        Err(_) => {},
    }
}

proof fn lemma_additive_tail_bounds(t: Seq<TokenView>, pos: int, lhs: AstView)
    requires
        0 <= pos <= t.len(),
    ensures
        spec_parse_additive_tail(t, pos, lhs) matches Ok(res) ==> pos + res.0 <= t.len(),
    decreases spec_rem(t, pos), 4int,
{
    if 0 <= pos < t.len() && (t[pos] is OpAdd || t[pos] is OpSubtract) {
        lemma_multiplicative_bounds(t, pos + 1);
        match spec_parse_multiplicative(t, pos + 1) {
            Ok((next, rhs)) => {
                let folded = AstView::BinaryExpr {
                    lhs: Box::new(lhs),
                    op: t[pos],
                    rhs: Box::new(rhs),
                };
                lemma_additive_tail_bounds(t, pos + 1 + next, folded);
            },
            Err(_) => {},
        }
    }
}

proof fn lemma_additive_bounds(t: Seq<TokenView>, idx: int)
    ensures
        spec_parse_additive(t, idx) matches Ok(res) ==> 0 <= idx && idx + res.0 <= t.len(),
    decreases spec_rem(t, idx), 5int,
{
    lemma_multiplicative_bounds(t, idx);
    match spec_parse_multiplicative(t, idx) {
        Ok((first, lhs)) => {
            lemma_additive_tail_bounds(t, idx + first, lhs);
        },
        Err(_) => {},
    }
}

proof fn lemma_expr_bounds(t: Seq<TokenView>, idx: int)
    ensures
        spec_parse_expr(t, idx) matches Ok(res) ==> 0 <= idx && idx + res.0 <= t.len(),
    decreases spec_rem(t, idx), 6int,
{
    lemma_additive_bounds(t, idx);
}

/// `t2` from `idx2` on reads token for token as `t1` from `idx1` on, with
/// exactly one further token, a close paren, at `t2`'s end. A rule that
/// succeeds on `t1` then behaves the same on `t2`: where it stopped at
/// `t1`'s end it now stops before the close paren, which no rule consumes.
spec fn aligned(t1: Seq<TokenView>, idx1: int, t2: Seq<TokenView>, idx2: int) -> bool {
    &&& 0 <= idx1 <= t1.len()
    &&& 0 <= idx2 <= t2.len()
    &&& t2.len() - idx2 == t1.len() - idx1 + 1
    &&& (forall|k: int| idx1 <= k < t1.len() ==> t2[k - idx1 + idx2] == #[trigger] t1[k])
    &&& t2[t2.len() - 1] is CloseParen
}

proof fn lemma_primary_shift(t1: Seq<TokenView>, idx1: int, t2: Seq<TokenView>, idx2: int)
    requires
        aligned(t1, idx1, t2, idx2),
    ensures
        spec_parse_primary(t1, idx1) matches Ok(res) ==> spec_parse_primary(t2, idx2) == Ok::<
            (nat, AstView),
            ParseErrorView,
        >(res),
    decreases spec_rem(t1, idx1), 0int,
{
    if idx1 < t1.len() {
        assert(t2[idx2] == t1[idx1]);
    }
}

proof fn lemma_grouped_shift(t1: Seq<TokenView>, idx1: int, t2: Seq<TokenView>, idx2: int)
    requires
        aligned(t1, idx1, t2, idx2),
    ensures
        spec_parse_grouped(t1, idx1) matches Ok(res) ==> spec_parse_grouped(t2, idx2) == Ok::<
            (nat, AstView),
            ParseErrorView,
        >(res),
    decreases spec_rem(t1, idx1), 1int,
{
    if idx1 < t1.len() {
        assert(t2[idx2] == t1[idx1]);
        if t1[idx1] is OpenParen {
            assert(aligned(t1, idx1 + 1, t2, idx2 + 1));
            lemma_expr_shift(t1, idx1 + 1, t2, idx2 + 1);
            lemma_expr_bounds(t1, idx1 + 1);
            match spec_parse_expr(t1, idx1 + 1) {
                Ok((inner, node)) => {
                    let close1 = idx1 + 1 + inner;
                    if close1 < t1.len() {
                        assert(t2[idx2 + 1 + inner] == t1[close1]);
                    }
                },
                Err(_) => {},
            }
        } else {
            lemma_primary_shift(t1, idx1, t2, idx2);
        }
    }
}

proof fn lemma_multiplicative_tail_shift(
    t1: Seq<TokenView>,
    idx1: int,
    t2: Seq<TokenView>,
    idx2: int,
    lhs: AstView,
)
    requires
        aligned(t1, idx1, t2, idx2),
    ensures
        spec_parse_multiplicative_tail(t1, idx1, lhs) matches Ok(res)
            ==> spec_parse_multiplicative_tail(t2, idx2, lhs) == Ok::<
            (nat, AstView),
            ParseErrorView,
        >(res),
    decreases spec_rem(t1, idx1), 2int,
{
    if idx1 < t1.len() {
        assert(t2[idx2] == t1[idx1]);
        if t1[idx1] is OpMultiply || t1[idx1] is OpDivide {
            assert(aligned(t1, idx1 + 1, t2, idx2 + 1));
            lemma_grouped_shift(t1, idx1 + 1, t2, idx2 + 1);
            lemma_grouped_bounds(t1, idx1 + 1);
            match spec_parse_grouped(t1, idx1 + 1) {
                Ok((next, rhs)) => {
                    let folded = AstView::BinaryExpr {
                        lhs: Box::new(lhs),
                        op: t1[idx1],
                        rhs: Box::new(rhs),
                    };
                    assert(aligned(t1, idx1 + 1 + next, t2, idx2 + 1 + next));
                    lemma_multiplicative_tail_shift(t1, idx1 + 1 + next, t2, idx2 + 1 + next, folded);
                },
                Err(_) => {},
            }
        }
    } else {
        assert(idx2 == t2.len() - 1);
    }
}

proof fn lemma_multiplicative_shift(t1: Seq<TokenView>, idx1: int, t2: Seq<TokenView>, idx2: int)
    requires
        aligned(t1, idx1, t2, idx2),
    ensures
        spec_parse_multiplicative(t1, idx1) matches Ok(res) ==> spec_parse_multiplicative(
            t2,
            idx2,
        ) == Ok::<(nat, AstView), ParseErrorView>(res),
    decreases spec_rem(t1, idx1), 3int,
{
    lemma_grouped_shift(t1, idx1, t2, idx2);
    lemma_grouped_bounds(t1, idx1);
    match spec_parse_grouped(t1, idx1) {
        Ok((first, lhs)) => {
            assert(aligned(t1, idx1 + first, t2, idx2 + first));
            lemma_multiplicative_tail_shift(t1, idx1 + first, t2, idx2 + first, lhs);
        },
        Err(_) => {},
    }
}

proof fn lemma_additive_tail_shift(
    t1: Seq<TokenView>,
    idx1: int,
    t2: Seq<TokenView>,
    idx2: int,
    lhs: AstView,
)
    requires
        aligned(t1, idx1, t2, idx2),
    ensures
        spec_parse_additive_tail(t1, idx1, lhs) matches Ok(res) ==> spec_parse_additive_tail(
            t2,
            idx2,
            lhs,
        ) == Ok::<(nat, AstView), ParseErrorView>(res),
    decreases spec_rem(t1, idx1), 4int,
{
    if idx1 < t1.len() {
        assert(t2[idx2] == t1[idx1]);
        if t1[idx1] is OpAdd || t1[idx1] is OpSubtract {
            assert(aligned(t1, idx1 + 1, t2, idx2 + 1));
            lemma_multiplicative_shift(t1, idx1 + 1, t2, idx2 + 1);
            lemma_multiplicative_bounds(t1, idx1 + 1);
            match spec_parse_multiplicative(t1, idx1 + 1) {
                Ok((next, rhs)) => {
                    let folded = AstView::BinaryExpr {
                        lhs: Box::new(lhs),
                        op: t1[idx1],
                        rhs: Box::new(rhs),
                    };
                    assert(aligned(t1, idx1 + 1 + next, t2, idx2 + 1 + next));
                    lemma_additive_tail_shift(t1, idx1 + 1 + next, t2, idx2 + 1 + next, folded);
                },
                Err(_) => {},
            }
        }
    } else {
        assert(idx2 == t2.len() - 1);
    }
}

proof fn lemma_additive_shift(t1: Seq<TokenView>, idx1: int, t2: Seq<TokenView>, idx2: int)
    requires
        aligned(t1, idx1, t2, idx2),
    ensures
        spec_parse_additive(t1, idx1) matches Ok(res) ==> spec_parse_additive(t2, idx2) == Ok::<
            (nat, AstView),
            ParseErrorView,
        >(res),
    decreases spec_rem(t1, idx1), 5int,
{
    lemma_multiplicative_shift(t1, idx1, t2, idx2);
    lemma_multiplicative_bounds(t1, idx1);
    match spec_parse_multiplicative(t1, idx1) {
        Ok((first, lhs)) => {
            assert(aligned(t1, idx1 + first, t2, idx2 + first));
            lemma_additive_tail_shift(t1, idx1 + first, t2, idx2 + first, lhs);
        },
        Err(_) => {},
    }
}

proof fn lemma_expr_shift(t1: Seq<TokenView>, idx1: int, t2: Seq<TokenView>, idx2: int)
    requires
        aligned(t1, idx1, t2, idx2),
    ensures
        spec_parse_expr(t1, idx1) matches Ok(res) ==> spec_parse_expr(t2, idx2) == Ok::<
            (nat, AstView),
            ParseErrorView,
        >(res),
    decreases spec_rem(t1, idx1), 6int,
{
    lemma_additive_shift(t1, idx1, t2, idx2);
}

/// Parenthesising a whole expression changes nothing of the tree: whenever
/// an expression parse consumes a token sequence exactly, both the bare
/// sequence and the same sequence wrapped in one pair of parens parse, as
/// whole statements, to the very same tree.
pub proof fn lemma_paren_round_trip(t: Seq<TokenView>, node: AstView)
    requires
        spec_parse_expr(t, 0) == Ok::<(nat, AstView), ParseErrorView>((t.len(), node)),
    ensures
        spec_try_from(seq![TokenView::OpenParen] + t + seq![TokenView::CloseParen]) == Ok::<
            AstView,
            ParseErrorView,
        >(node),
        spec_try_from(t) == Ok::<AstView, ParseErrorView>(node),
{
    if 1 < t.len() && (t[0] is Identifier) && (t[1] is OpAssign) {
        match t[0] {
            TokenView::Identifier(name) => {
                let variable = AstView::Variable(name);
                assert(spec_parse_grouped(t, 0) == Ok::<(nat, AstView), ParseErrorView>(
                    (1nat, variable),
                ));
                assert(spec_parse_multiplicative_tail(t, 1, variable) == Ok::<
                    (nat, AstView),
                    ParseErrorView,
                >((0nat, variable)));
                assert(spec_parse_multiplicative(t, 0) == Ok::<(nat, AstView), ParseErrorView>(
                    (1nat, variable),
                ));
                assert(spec_parse_additive_tail(t, 1, variable) == Ok::<
                    (nat, AstView),
                    ParseErrorView,
                >((0nat, variable)));
                assert(spec_parse_additive(t, 0) == Ok::<(nat, AstView), ParseErrorView>(
                    (1nat, variable),
                ));
            },
            _ => {},
        }
    }
    assert(spec_parse_stmt(t, 0) == Ok::<(nat, AstView), ParseErrorView>((t.len(), node)));
    let w = seq![TokenView::OpenParen] + t + seq![TokenView::CloseParen];
    assert(w.len() == t.len() + 2);
    assert(w[0] is OpenParen);
    assert(w[w.len() - 1] is CloseParen);
    assert forall|k: int| 0 <= k < t.len() implies w[k - 0 + 1] == t[k] by {
        assert(w[k + 1] == t[k]);
    }
    assert(aligned(t, 0, w, 1));
    lemma_expr_shift(t, 0, w, 1);
    assert(spec_parse_expr(w, 1) == Ok::<(nat, AstView), ParseErrorView>((t.len(), node)));
    let n = t.len() as int;
    assert(spec_parse_grouped(w, 0) == Ok::<(nat, AstView), ParseErrorView>(
        ((n + 2) as nat,
        node),
    ));
    assert(spec_parse_multiplicative_tail(w, n + 2, node) == Ok::<(nat, AstView), ParseErrorView>(
        (0nat, node),
    ));
    assert(spec_parse_multiplicative(w, 0) == Ok::<(nat, AstView), ParseErrorView>(
        ((n + 2) as nat,
        node),
    ));
    assert(spec_parse_additive_tail(w, n + 2, node) == Ok::<(nat, AstView), ParseErrorView>(
        (0nat, node),
    ));
    assert(spec_parse_additive(w, 0) == Ok::<(nat, AstView), ParseErrorView>(
        ((n + 2) as nat,
        node),
    ));
    assert(spec_parse_stmt(w, 0) == Ok::<(nat, AstView), ParseErrorView>(
        ((n + 2) as nat,
        node),
    ));
}

/// Multiplication binds tighter than addition: for any literal values, the
/// tokens of `a + b * c` parse to `a + (b * c)`, never to `(a + b) * c`.
pub proof fn lemma_precedence(a: u64, b: u64, c: u64)
    ensures
        spec_try_from(
            seq![
                TokenView::NumericLiteral(a),
                TokenView::OpAdd,
                TokenView::NumericLiteral(b),
                TokenView::OpMultiply,
                TokenView::NumericLiteral(c),
            ],
        ) == Ok::<AstView, ParseErrorView>(
            AstView::BinaryExpr {
                lhs: Box::new(AstView::Number(a)),
                op: TokenView::OpAdd,
                rhs: Box::new(
                    AstView::BinaryExpr {
                        lhs: Box::new(AstView::Number(b)),
                        op: TokenView::OpMultiply,
                        rhs: Box::new(AstView::Number(c)),
                    },
                ),
            },
        ),
{
    let t = seq![
        TokenView::NumericLiteral(a),
        TokenView::OpAdd,
        TokenView::NumericLiteral(b),
        TokenView::OpMultiply,
        TokenView::NumericLiteral(c),
    ];
    let product = AstView::BinaryExpr {
        lhs: Box::new(AstView::Number(b)),
        op: TokenView::OpMultiply,
        rhs: Box::new(AstView::Number(c)),
    };
    let sum = AstView::BinaryExpr {
        lhs: Box::new(AstView::Number(a)),
        op: TokenView::OpAdd,
        rhs: Box::new(product),
    };
    assert(spec_parse_grouped(t, 0) == Ok::<(nat, AstView), ParseErrorView>(
        (1nat, AstView::Number(a)),
    ));
    assert(spec_parse_multiplicative_tail(t, 1, AstView::Number(a)) == Ok::<
        (nat, AstView),
        ParseErrorView,
    >((0nat, AstView::Number(a))));
    assert(spec_parse_multiplicative(t, 0) == Ok::<(nat, AstView), ParseErrorView>(
        (1nat, AstView::Number(a)),
    ));
    assert(spec_parse_grouped(t, 2) == Ok::<(nat, AstView), ParseErrorView>(
        (1nat, AstView::Number(b)),
    ));
    assert(spec_parse_grouped(t, 4) == Ok::<(nat, AstView), ParseErrorView>(
        (1nat, AstView::Number(c)),
    ));
    assert(spec_parse_multiplicative_tail(t, 5, product) == Ok::<(nat, AstView), ParseErrorView>(
        (0nat, product),
    ));
    assert(spec_parse_multiplicative_tail(t, 3, AstView::Number(b)) == Ok::<
        (nat, AstView),
        ParseErrorView,
    >((2nat, product)));
    assert(spec_parse_multiplicative(t, 2) == Ok::<(nat, AstView), ParseErrorView>(
        (3nat, product),
    ));
    assert(spec_parse_additive_tail(t, 5, sum) == Ok::<(nat, AstView), ParseErrorView>(
        (0nat, sum),
    ));
    assert(spec_parse_additive_tail(t, 1, AstView::Number(a)) == Ok::<
        (nat, AstView),
        ParseErrorView,
    >((4nat, sum)));
    assert(spec_parse_additive(t, 0) == Ok::<(nat, AstView), ParseErrorView>((5nat, sum)));
    assert(spec_parse_stmt(t, 0) == Ok::<(nat, AstView), ParseErrorView>((5nat, sum)));
}

/// Same-tier operators fold to the left: for any literal values, the tokens
/// of `a - b - c` parse to `(a - b) - c`, never to `a - (b - c)`.
pub proof fn lemma_left_associativity(a: u64, b: u64, c: u64)
    ensures
        spec_try_from(
            seq![
                TokenView::NumericLiteral(a),
                TokenView::OpSubtract,
                TokenView::NumericLiteral(b),
                TokenView::OpSubtract,
                TokenView::NumericLiteral(c),
            ],
        ) == Ok::<AstView, ParseErrorView>(
            AstView::BinaryExpr {
                lhs: Box::new(
                    AstView::BinaryExpr {
                        lhs: Box::new(AstView::Number(a)),
                        op: TokenView::OpSubtract,
                        rhs: Box::new(AstView::Number(b)),
                    },
                ),
                op: TokenView::OpSubtract,
                rhs: Box::new(AstView::Number(c)),
            },
        ),
{
    let t = seq![
        TokenView::NumericLiteral(a),
        TokenView::OpSubtract,
        TokenView::NumericLiteral(b),
        TokenView::OpSubtract,
        TokenView::NumericLiteral(c),
    ];
    let left = AstView::BinaryExpr {
        lhs: Box::new(AstView::Number(a)),
        op: TokenView::OpSubtract,
        rhs: Box::new(AstView::Number(b)),
    };
    let whole = AstView::BinaryExpr {
        lhs: Box::new(left),
        op: TokenView::OpSubtract,
        rhs: Box::new(AstView::Number(c)),
    };
    assert(spec_parse_grouped(t, 0) == Ok::<(nat, AstView), ParseErrorView>(
        (1nat, AstView::Number(a)),
    ));
    assert(spec_parse_multiplicative_tail(t, 1, AstView::Number(a)) == Ok::<
        (nat, AstView),
        ParseErrorView,
    >((0nat, AstView::Number(a))));
    assert(spec_parse_multiplicative(t, 0) == Ok::<(nat, AstView), ParseErrorView>(
        (1nat, AstView::Number(a)),
    ));
    assert(spec_parse_grouped(t, 2) == Ok::<(nat, AstView), ParseErrorView>(
        (1nat, AstView::Number(b)),
    ));
    assert(spec_parse_multiplicative_tail(t, 3, AstView::Number(b)) == Ok::<
        (nat, AstView),
        ParseErrorView,
    >((0nat, AstView::Number(b))));
    assert(spec_parse_multiplicative(t, 2) == Ok::<(nat, AstView), ParseErrorView>(
        (1nat, AstView::Number(b)),
    ));
    assert(spec_parse_grouped(t, 4) == Ok::<(nat, AstView), ParseErrorView>(
        (1nat, AstView::Number(c)),
    ));
    assert(spec_parse_multiplicative_tail(t, 5, AstView::Number(c)) == Ok::<
        (nat, AstView),
        ParseErrorView,
    >((0nat, AstView::Number(c))));
    assert(spec_parse_multiplicative(t, 4) == Ok::<(nat, AstView), ParseErrorView>(
        (1nat, AstView::Number(c)),
    ));
    assert(spec_parse_additive_tail(t, 5, whole) == Ok::<(nat, AstView), ParseErrorView>(
        (0nat, whole),
    ));
    assert(spec_parse_additive_tail(t, 3, left) == Ok::<(nat, AstView), ParseErrorView>(
        (2nat, whole),
    ));
    assert(spec_parse_additive_tail(t, 1, AstView::Number(a)) == Ok::<
        (nat, AstView),
        ParseErrorView,
    >((4nat, whole)));
    assert(spec_parse_additive(t, 0) == Ok::<(nat, AstView), ParseErrorView>((5nat, whole)));
    assert(spec_parse_stmt(t, 0) == Ok::<(nat, AstView), ParseErrorView>((5nat, whole)));
}

/// Assignment round-trip: for any name and literal value, the tokens of
/// `name = value` parse to an `Assignment` of that name to that literal.
pub proof fn lemma_assignment_of_literal(name: Seq<char>, value: u64)
    ensures
        spec_try_from(
            seq![
                TokenView::Identifier(name),
                TokenView::OpAssign,
                TokenView::NumericLiteral(value),
            ],
        ) == Ok::<AstView, ParseErrorView>(
            AstView::Assignment(name, Box::new(AstView::Number(value))),
        ),
{
    let t = seq![
        TokenView::Identifier(name),
        TokenView::OpAssign,
        TokenView::NumericLiteral(value),
    ];
    assert(spec_parse_grouped(t, 2) == Ok::<(nat, AstView), ParseErrorView>(
        (1nat, AstView::Number(value)),
    ));
    assert(spec_parse_multiplicative_tail(t, 3, AstView::Number(value)) == Ok::<
        (nat, AstView),
        ParseErrorView,
    >((0nat, AstView::Number(value))));
    assert(spec_parse_multiplicative(t, 2) == Ok::<(nat, AstView), ParseErrorView>(
        (1nat, AstView::Number(value)),
    ));
    assert(spec_parse_additive_tail(t, 3, AstView::Number(value)) == Ok::<
        (nat, AstView),
        ParseErrorView,
    >((0nat, AstView::Number(value))));
    assert(spec_parse_additive(t, 2) == Ok::<(nat, AstView), ParseErrorView>(
        (1nat, AstView::Number(value)),
    ));
    assert(spec_parse_stmt(t, 0) == Ok::<(nat, AstView), ParseErrorView>(
        (3nat, AstView::Assignment(name, Box::new(AstView::Number(value)))),
    ));
}

/// Assignment round-trip with an expression on the right: for any name and
/// literal values, the tokens of `name = a + b` parse to an `Assignment` of
/// that name to the sum's tree.
pub proof fn lemma_assignment_of_sum(name: Seq<char>, a: u64, b: u64)
    ensures
        spec_try_from(
            seq![
                TokenView::Identifier(name),
                TokenView::OpAssign,
                TokenView::NumericLiteral(a),
                TokenView::OpAdd,
                TokenView::NumericLiteral(b),
            ],
        ) == Ok::<AstView, ParseErrorView>(
            AstView::Assignment(
                name,
                Box::new(
                    AstView::BinaryExpr {
                        lhs: Box::new(AstView::Number(a)),
                        op: TokenView::OpAdd,
                        rhs: Box::new(AstView::Number(b)),
                    },
                ),
            ),
        ),
{
    let t = seq![
        TokenView::Identifier(name),
        TokenView::OpAssign,
        TokenView::NumericLiteral(a),
        TokenView::OpAdd,
        TokenView::NumericLiteral(b),
    ];
    let sum = AstView::BinaryExpr {
        lhs: Box::new(AstView::Number(a)),
        op: TokenView::OpAdd,
        rhs: Box::new(AstView::Number(b)),
    };
    assert(spec_parse_grouped(t, 2) == Ok::<(nat, AstView), ParseErrorView>(
        (1nat, AstView::Number(a)),
    ));
    assert(spec_parse_multiplicative_tail(t, 3, AstView::Number(a)) == Ok::<
        (nat, AstView),
        ParseErrorView,
    >((0nat, AstView::Number(a))));
    assert(spec_parse_multiplicative(t, 2) == Ok::<(nat, AstView), ParseErrorView>(
        (1nat, AstView::Number(a)),
    ));
    assert(spec_parse_grouped(t, 4) == Ok::<(nat, AstView), ParseErrorView>(
        (1nat, AstView::Number(b)),
    ));
    assert(spec_parse_multiplicative_tail(t, 5, AstView::Number(b)) == Ok::<
        (nat, AstView),
        ParseErrorView,
    >((0nat, AstView::Number(b))));
    assert(spec_parse_multiplicative(t, 4) == Ok::<(nat, AstView), ParseErrorView>(
        (1nat, AstView::Number(b)),
    ));
    assert(spec_parse_additive_tail(t, 5, sum) == Ok::<(nat, AstView), ParseErrorView>(
        (0nat, sum),
    ));
    assert(spec_parse_additive_tail(t, 3, AstView::Number(a)) == Ok::<
        (nat, AstView),
        ParseErrorView,
    >((2nat, sum)));
    assert(spec_parse_additive(t, 2) == Ok::<(nat, AstView), ParseErrorView>((3nat, sum)));
    assert(spec_parse_stmt(t, 0) == Ok::<(nat, AstView), ParseErrorView>(
        (5nat, AstView::Assignment(name, Box::new(sum))),
    ));
}

/// A missing close paren is its own reported mismatch: for any literal
/// values, the tokens of `( a + b` fail with `ExpectedTokenMismatch` naming
/// the close paren and the end of the sequence, never a partial tree.
pub proof fn lemma_unmatched_paren(a: u64, b: u64)
    ensures
        spec_try_from(
            seq![
                TokenView::OpenParen,
                TokenView::NumericLiteral(a),
                TokenView::OpAdd,
                TokenView::NumericLiteral(b),
            ],
        ) == Err::<AstView, ParseErrorView>(
            ParseErrorView::ExpectedTokenMismatch {
                offset: 4,
                expected: TokenView::CloseParen,
                found: None,
            },
        ),
{
    let t = seq![
        TokenView::OpenParen,
        TokenView::NumericLiteral(a),
        TokenView::OpAdd,
        TokenView::NumericLiteral(b),
    ];
    let sum = AstView::BinaryExpr {
        lhs: Box::new(AstView::Number(a)),
        op: TokenView::OpAdd,
        rhs: Box::new(AstView::Number(b)),
    };
    assert(spec_parse_grouped(t, 1) == Ok::<(nat, AstView), ParseErrorView>(
        (1nat, AstView::Number(a)),
    ));
    assert(spec_parse_multiplicative_tail(t, 2, AstView::Number(a)) == Ok::<
        (nat, AstView),
        ParseErrorView,
    >((0nat, AstView::Number(a))));
    assert(spec_parse_multiplicative(t, 1) == Ok::<(nat, AstView), ParseErrorView>(
        (1nat, AstView::Number(a)),
    ));
    assert(spec_parse_grouped(t, 3) == Ok::<(nat, AstView), ParseErrorView>(
        (1nat, AstView::Number(b)),
    ));
    assert(spec_parse_multiplicative_tail(t, 4, AstView::Number(b)) == Ok::<
        (nat, AstView),
        ParseErrorView,
    >((0nat, AstView::Number(b))));
    assert(spec_parse_multiplicative(t, 3) == Ok::<(nat, AstView), ParseErrorView>(
        (1nat, AstView::Number(b)),
    ));
    assert(spec_parse_additive_tail(t, 4, sum) == Ok::<(nat, AstView), ParseErrorView>(
        (0nat, sum),
    ));
    assert(spec_parse_additive_tail(t, 2, AstView::Number(a)) == Ok::<
        (nat, AstView),
        ParseErrorView,
    >((2nat, sum)));
    assert(spec_parse_additive(t, 1) == Ok::<(nat, AstView), ParseErrorView>((3nat, sum)));
    assert(spec_parse_expr(t, 1) == Ok::<(nat, AstView), ParseErrorView>((3nat, sum)));
    let mismatch = ParseErrorView::ExpectedTokenMismatch {
        offset: 4,
        expected: TokenView::CloseParen,
        found: None,
    };
    assert(spec_parse_grouped(t, 0) == Err::<(nat, AstView), ParseErrorView>(mismatch));
    assert(spec_parse_stmt(t, 0) == Err::<(nat, AstView), ParseErrorView>(mismatch));
}

/// Every tree the parser yields is well-formed: each `BinaryExpr` carries
/// one of the four arithmetic operators, and an `Assignment` stands only at
/// the root of the statement, never below another node.
pub proof fn lemma_parse_wf(t: Seq<TokenView>)
    ensures
        spec_try_from(t) matches Ok(node) ==> wf_stmt(node),
{
    lemma_stmt_wf(t, 0);
}

} // verus!

