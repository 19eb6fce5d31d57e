//! What a source text means: the grammar of expressions, the code that an
//! expression compiles to, and the diagnostics that a faulty text gives
//! rise to.
use crate::chunk::{encode, OpCode, Operator, MAX_CONSTANTS};
use crate::scanner::{empty_token, lemma_scan_advances, lemma_scan_progress, scan, TokenType, TokenView};
use vstd::prelude::*;

verus! {

// ---------------------------------------------------------------------------
// Diagnostics
// ---------------------------------------------------------------------------

/// Where in the source a diagnostic points.
#[derive(Debug)]
pub enum Place {
    /// at the end of the source
    End,
    /// at the token with this text
    Lexeme(String),
    /// nowhere in particular: the message of a lexical error says it all
    Unplaced,
}

/// A reported compile error.
#[derive(Debug)]
pub struct Diagnostic {
    pub line: i32,
    pub place: Place,
    pub message: String,
}

/// Where a diagnostic points, as mathematics.
pub enum PlaceView {
    End,
    Lexeme(Seq<char>),
    Unplaced,
}

/// A diagnostic, as mathematics.
pub struct DiagnosticView {
    pub line: i32,
    pub place: PlaceView,
    pub message: Seq<char>,
}

impl View for Place {
    type V = PlaceView;

    open spec fn view(&self) -> PlaceView {
        match self {
            Place::End => PlaceView::End,
            Place::Lexeme(text) => PlaceView::Lexeme(text@),
            Place::Unplaced => PlaceView::Unplaced,
        }
    }
}

impl View for Diagnostic {
    type V = DiagnosticView;

    open spec fn view(&self) -> DiagnosticView {
        DiagnosticView { line: self.line, place: self.place@, message: self.message@ }
    }
}

/// The diagnostic that reports `message` at `token`.
pub open spec fn report(token: TokenView, message: Seq<char>) -> DiagnosticView {
    DiagnosticView {
        line: token.line,
        place: if token.kind == TokenType::EOF {
            PlaceView::End
        } else if token.kind == TokenType::Error {
            PlaceView::Unplaced
        } else {
            PlaceView::Lexeme(token.text)
        },
        message,
    }
}

// ---------------------------------------------------------------------------
// Expressions
// ---------------------------------------------------------------------------

/// An arithmetic expression. Each node remembers the line that its
/// instruction is recorded on: that of the last token read when the
/// instruction is emitted.
pub enum Expr {
    Number { text: Seq<char>, line: i32 },
    Negate { operand: Box<Expr>, line: i32 },
    Binary { op: Operator, left: Box<Expr>, right: Box<Expr>, line: i32 },
}

/// The numerals of an expression, from left to right.
pub open spec fn literals(e: Expr) -> Seq<Seq<char>>
    decreases e,
{
    match e {
        Expr::Number { text, .. } => seq![text],
        Expr::Negate { operand, .. } => literals(*operand),
        Expr::Binary { left, right, .. } => literals(*left) + literals(*right),
    }
}

/// The code of an expression whose first numeral becomes constant number
/// `base`: operands first, from left to right, then the operator.
pub open spec fn code_of(e: Expr, base: int) -> Seq<u8>
    decreases e,
{
    match e {
        Expr::Number { .. } => seq![encode(OpCode::Constant), base as u8],
        Expr::Negate { operand, .. } => code_of(*operand, base).push(encode(OpCode::Negate)),
        Expr::Binary { op, left, right, .. } => (code_of(*left, base) + code_of(
            *right,
            base + literals(*left).len(),
        )).push(encode(op.opcode())),
    }
}

/// The source line of each byte of `code_of`.
pub open spec fn lines_of(e: Expr) -> Seq<i32>
    decreases e,
{
    match e {
        Expr::Number { line, .. } => seq![line, line],
        Expr::Negate { operand, line } => lines_of(*operand).push(line),
        Expr::Binary { left, right, line, .. } => (lines_of(*left) + lines_of(*right)).push(line),
    }
}

// ---------------------------------------------------------------------------
// Reading tokens
// ---------------------------------------------------------------------------

/// Where a parse stands: the token read last, and the position in the source
/// from which the token ahead is scanned.
pub struct Cursor {
    pub previous: TokenView,
    pub at: int,
}

/// The token ahead of the cursor.
pub open spec fn ahead(src: Seq<char>, c: Cursor) -> TokenView {
    scan(src, c.at).token
}

/// How much of the source lies ahead of the cursor.
pub open spec fn unread(src: Seq<char>, c: Cursor) -> nat {
    if c.at < src.len() {
        (src.len() - c.at) as nat
    } else {
        0
    }
}

/// Moves past the token ahead. The token that then comes into view must not
/// be a lexical error: that error is reported.
pub open spec fn advance(src: Seq<char>, c: Cursor) -> Result<Cursor, DiagnosticView> {
    let next = Cursor { previous: ahead(src, c), at: scan(src, c.at).end };
    if ahead(src, next).kind == TokenType::Error {
        Err(report(ahead(src, next), ahead(src, next).text))
    } else {
        Ok(next)
    }
}

/// Moves past the token ahead if it is of the kind `kind`, and else reports
/// `message` at it.
pub open spec fn consume(src: Seq<char>, c: Cursor, kind: TokenType, message: Seq<char>) -> Result<
    Cursor,
    DiagnosticView,
> {
    if ahead(src, c).kind == kind {
        advance(src, c)
    } else {
        Err(report(ahead(src, c), message))
    }
}

/// The operation that a binary operator stands for.
pub open spec fn binary_op(kind: TokenType) -> Operator {
    if kind == TokenType::Plus {
        Operator::Add
    } else if kind == TokenType::Minus {
        Operator::Subtract
    } else if kind == TokenType::Star {
        Operator::Multiply
    } else {
        Operator::Divide
    }
}

/// A cursor from which a parse can go on: it stands inside the source, and
/// the token ahead of it is no lexical error.
pub open spec fn clean(src: Seq<char>, c: Cursor) -> bool {
    &&& 0 <= c.at <= src.len()
    &&& ahead(src, c).kind != TokenType::Error
}

/// Moving past a token goes forward, past at least one character unless
/// the token is `EOF`, and ends at a clean cursor.
pub proof fn lemma_advance(src: Seq<char>, c: Cursor)
    requires
        0 <= c.at <= src.len(),
    ensures
        advance(src, c) matches Ok(next) ==> clean(src, next) && c.at <= next.at && next.previous == ahead(
            src,
            c,
        ) && (ahead(src, c).kind != TokenType::EOF ==> c.at < next.at),
{
    lemma_scan_progress(src, c.at);
    lemma_scan_advances(src, c.at);
}

// ---------------------------------------------------------------------------
// The grammar
// ---------------------------------------------------------------------------
//
//     expression := term   ( ( "+" | "-" ) term  )*
//     term       := unary  ( ( "*" | "/" ) unary )*
//     unary      := "-" unary | NUMBER | "(" expression ")"
//
// Each function below takes the set `reads` of the numerals that the host can
// convert to a number, the cursor at which a phrase begins and the number `count`
// of constants that are in the pool by then. It gives the expression that the
// phrase denotes and the cursor behind it, or the first error of the phrase, in
// the order of reading. A numeral that the host cannot convert is an error, and so
// is one for which the pool has no room.
// A repetition groups from the left: what was read so far is the left operand of
// the next operator.
//
// Where a function goes on behind a phrase it has read, it first tests that the
// cursor has moved. That test makes the definitions well-founded. It never fails:
// every phrase holds a token (`lemma_unary`, `lemma_term`, `lemma_expression`).

/// The phrase `unary` at `c`.
pub open spec fn unary(
    src: Seq<char>,
    reads: Set<Seq<char>>,
    c: Cursor,
    count: nat,
) -> Result<(Expr, Cursor), DiagnosticView>
    decreases unread(src, c), 0int,
{
    match advance(src, c) {
        Err(d) => Err(d),
        Ok(c1) => {
            proof {
                lemma_scan_advances(src, c.at);
            }
            if c1.previous.kind == TokenType::Number {
                if !reads.contains(c1.previous.text) {
                    Err(report(c1.previous, "Could not parse number."@))
                } else if count >= MAX_CONSTANTS {
                    Err(report(c1.previous, "Too many constants in one chunk."@))
                } else {
                    Ok((Expr::Number { text: c1.previous.text, line: c1.previous.line }, c1))
                }
            } else if c1.previous.kind == TokenType::Minus {
                match unary(src, reads, c1, count) {
                    Err(d) => Err(d),
                    Ok((operand, c2)) => Ok(
                        (Expr::Negate { operand: Box::new(operand), line: c2.previous.line }, c2),
                    ),
                }
            } else if c1.previous.kind == TokenType::LeftParen {
                match expression(src, reads, c1, count) {
                    Err(d) => Err(d),
                    Ok((inner, c2)) => match consume(
                        src,
                        c2,
                        TokenType::RightParen,
                        "Expect ')' after expression."@,
                    ) {
                        Err(d) => Err(d),
                        Ok(c3) => Ok((inner, c3)),
                    },
                }
            } else {
                Err(report(c1.previous, "Expect expression."@))
            }
        },
    }
}

/// The phrase `term` at `c`.
pub open spec fn term(
    src: Seq<char>,
    reads: Set<Seq<char>>,
    c: Cursor,
    count: nat,
) -> Result<(Expr, Cursor), DiagnosticView>
    decreases unread(src, c), 1int,
{
    match unary(src, reads, c, count) {
        Err(d) => Err(d),
        Ok((left, c1)) => if unread(src, c1) < unread(src, c) {
            factors(src, reads, c1, left, count + literals(left).len())
        } else {
            Ok((left, c1))
        },
    }
}

/// The rest of a `term` of which `left` has been read: as many times `*`
/// or `/` and a `unary` as there are.
pub open spec fn factors(src: Seq<char>, reads: Set<Seq<char>>, c: Cursor, left: Expr, count: nat) -> Result<
    (Expr, Cursor),
    DiagnosticView,
>
    decreases unread(src, c), 0int,
{
    let kind = ahead(src, c).kind;
    if kind == TokenType::Star || kind == TokenType::Slash {
        match advance(src, c) {
            Err(d) => Err(d),
            Ok(c1) => {
                proof {
                    lemma_scan_advances(src, c.at);
                }
                match unary(src, reads, c1, count) {
                    Err(d) => Err(d),
                    Ok((right, c2)) => {
                        let joined = Expr::Binary {
                            op: binary_op(kind),
                            left: Box::new(left),
                            right: Box::new(right),
                            line: c2.previous.line,
                        };
                        if unread(src, c2) < unread(src, c) {
                            factors(src, reads, c2, joined, count + literals(right).len())
                        } else {
                            Ok((joined, c2))
                        }
                    },
                }
            },
        }
    } else {
        Ok((left, c))
    }
}

/// The phrase `expression` at `c`.
pub open spec fn expression(
    src: Seq<char>,
    reads: Set<Seq<char>>,
    c: Cursor,
    count: nat,
) -> Result<(Expr, Cursor), DiagnosticView>
    decreases unread(src, c), 2int,
{
    match term(src, reads, c, count) {
        Err(d) => Err(d),
        Ok((left, c1)) => if unread(src, c1) < unread(src, c) {
            terms(src, reads, c1, left, count + literals(left).len())
        } else {
            Ok((left, c1))
        },
    }
}

/// The rest of an `expression` of which `left` has been read: as many
/// times `+` or `-` and a `term` as there are.
pub open spec fn terms(src: Seq<char>, reads: Set<Seq<char>>, c: Cursor, left: Expr, count: nat) -> Result<
    (Expr, Cursor),
    DiagnosticView,
>
    decreases unread(src, c), 0int,
{
    let kind = ahead(src, c).kind;
    if kind == TokenType::Plus || kind == TokenType::Minus {
        match advance(src, c) {
            Err(d) => Err(d),
            Ok(c1) => {
                proof {
                    lemma_scan_advances(src, c.at);
                }
                match term(src, reads, c1, count) {
                    Err(d) => Err(d),
                    Ok((right, c2)) => {
                        let joined = Expr::Binary {
                            op: binary_op(kind),
                            left: Box::new(left),
                            right: Box::new(right),
                            line: c2.previous.line,
                        };
                        if unread(src, c2) < unread(src, c) {
                            terms(src, reads, c2, joined, count + literals(right).len())
                        } else {
                            Ok((joined, c2))
                        }
                    },
                }
            },
        }
    } else {
        Ok((left, c))
    }
}

/// What compiling a source text yields: the expression that the text
/// denotes, its code with the final `Return`, the line of each byte of the
/// code, and the numerals that make up the constant pool, in order.
pub struct Program {
    pub expression: Expr,
    pub code: Seq<u8>,
    pub lines: Seq<i32>,
    pub literals: Seq<Seq<char>>,
}

/// The program that `src` compiles to where `reads` are the numerals that the
/// host can convert, or the error that is reported for it: the first one that
/// reading the source meets. The source holds one expression and nothing after
/// it.
pub open spec fn compiled(src: Seq<char>, reads: Set<Seq<char>>) -> Result<Program, DiagnosticView> {
    let first = scan(src, 0).token;
    if first.kind == TokenType::Error {
        Err(report(first, first.text))
    } else {
        match expression(src, reads, Cursor { previous: empty_token(), at: 0 }, 0) {
            Err(d) => Err(d),
            Ok((e, c)) => match consume(src, c, TokenType::EOF, "Expect end of expression."@) {
                Err(d) => Err(d),
                Ok(end) => Ok(
                    Program {
                        expression: e,
                        code: code_of(e, 0).push(encode(OpCode::Return)),
                        lines: lines_of(e).push(end.previous.line),
                        literals: literals(e),
                    },
                ),
            },
        }
    }
}

/// Whether `kind` is `*` or `/`.
pub open spec fn is_factor_operator(kind: TokenType) -> bool {
    kind == TokenType::Star || kind == TokenType::Slash
}

/// Whether `kind` is `+` or `-`.
pub open spec fn is_term_operator(kind: TokenType) -> bool {
    kind == TokenType::Plus || kind == TokenType::Minus
}

/// A `unary` that is read has at least one token and ends at a clean
/// cursor.
pub proof fn lemma_unary(src: Seq<char>, reads: Set<Seq<char>>, c: Cursor, count: nat)
    requires
        0 <= c.at <= src.len(),
    ensures
        unary(src, reads, c, count) matches Ok((e, next)) ==> clean(src, next) && c.at < next.at,
    decreases unread(src, c), 0int,
{
    lemma_advance(src, c);
    if let Ok(c1) = advance(src, c) {
        if c1.previous.kind == TokenType::Minus {
            lemma_unary(src, reads, c1, count);
        } else if c1.previous.kind == TokenType::LeftParen {
            lemma_expression(src, reads, c1, count);
            if let Ok((inner, c2)) = expression(src, reads, c1, count) {
                lemma_advance(src, c2);
            }
        }
    }
}

/// A `term` that is read ends before a token that is neither `*` nor `/`.
pub proof fn lemma_term(src: Seq<char>, reads: Set<Seq<char>>, c: Cursor, count: nat)
    requires
        0 <= c.at <= src.len(),
    ensures
        term(src, reads, c, count) matches Ok((e, next)) ==> clean(src, next) && c.at < next.at
            && !is_factor_operator(ahead(src, next).kind),
    decreases unread(src, c), 1int,
{
    lemma_unary(src, reads, c, count);
    if let Ok((left, c1)) = unary(src, reads, c, count) {
        lemma_factors(src, reads, c1, left, count + literals(left).len());
    }
}

/// The rest of a `term` ends before a token that is neither `*` nor `/`.
pub proof fn lemma_factors(src: Seq<char>, reads: Set<Seq<char>>, c: Cursor, left: Expr, count: nat)
    requires
        clean(src, c),
    ensures
        factors(src, reads, c, left, count) matches Ok((e, next)) ==> clean(src, next) && c.at <= next.at
            && !is_factor_operator(ahead(src, next).kind),
    decreases unread(src, c), 0int,
{
    let kind = ahead(src, c).kind;
    if is_factor_operator(kind) {
        lemma_advance(src, c);
        if let Ok(c1) = advance(src, c) {
            lemma_unary(src, reads, c1, count);
            if let Ok((right, c2)) = unary(src, reads, c1, count) {
                let joined = Expr::Binary {
                    op: binary_op(kind),
                    left: Box::new(left),
                    right: Box::new(right),
                    line: c2.previous.line,
                };
                lemma_factors(src, reads, c2, joined, count + literals(right).len());
            }
        }
    }
}

/// An `expression` that is read ends before a token that is no operator.
pub proof fn lemma_expression(src: Seq<char>, reads: Set<Seq<char>>, c: Cursor, count: nat)
    requires
        0 <= c.at <= src.len(),
    ensures
        expression(src, reads, c, count) matches Ok((e, next)) ==> clean(src, next) && c.at < next.at
            && !is_factor_operator(ahead(src, next).kind) && !is_term_operator(ahead(src, next).kind),
    decreases unread(src, c), 2int,
{
    lemma_term(src, reads, c, count);
    if let Ok((left, c1)) = term(src, reads, c, count) {
        lemma_terms(src, reads, c1, left, count + literals(left).len());
    }
}

/// The rest of an `expression` ends before a token that is no operator.
pub proof fn lemma_terms(src: Seq<char>, reads: Set<Seq<char>>, c: Cursor, left: Expr, count: nat)
    requires
        clean(src, c),
        !is_factor_operator(ahead(src, c).kind),
    ensures
        terms(src, reads, c, left, count) matches Ok((e, next)) ==> clean(src, next) && c.at <= next.at
            && !is_factor_operator(ahead(src, next).kind) && !is_term_operator(ahead(src, next).kind),
    decreases unread(src, c), 0int,
{
    let kind = ahead(src, c).kind;
    if is_term_operator(kind) {
        lemma_advance(src, c);
        if let Ok(c1) = advance(src, c) {
            lemma_term(src, reads, c1, count);
            if let Ok((right, c2)) = term(src, reads, c1, count) {
                let joined = Expr::Binary {
                    op: binary_op(kind),
                    left: Box::new(left),
                    right: Box::new(right),
                    line: c2.previous.line,
                };
                lemma_terms(src, reads, c2, joined, count + literals(right).len());
            }
        }
    }
}

/// The code of an expression is as long as its line table.
pub proof fn lemma_code_lines(e: Expr, base: int)
    ensures
        code_of(e, base).len() == lines_of(e).len(),
        code_of(e, base).len() >= 2,
    decreases e,
{
    match e {
        Expr::Number { .. } => {},
        Expr::Negate { operand, .. } => {
            lemma_code_lines(*operand, base);
        },
        Expr::Binary { left, right, .. } => {
            lemma_code_lines(*left, base);
            lemma_code_lines(*right, base + literals(*left).len());
        },
    }
}

} // verus!
