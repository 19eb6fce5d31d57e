//! The rule table of the parser, and the parse that it drives: precedence
//! climbing.
use crate::chunk::{encode, OpCode, MAX_CONSTANTS};
use crate::scanner::{
    empty_token, lemma_line_monotonic, lemma_scan_advances, lemma_scan_progress, lemma_token_line, line_at,
    TokenType,
};
use crate::syntax::{
    advance, ahead, binary_op, clean, code_of, compiled, consume, expression, factors, is_term_operator,
    lemma_advance, lemma_code_lines, lemma_factors, lemma_term, lemma_unary, lines_of, literals, report,
    term, terms, unary, unread, Cursor, DiagnosticView, Expr,
};
use vstd::prelude::*;

verus! {

/// Binding strength, from loosest to tightest.
#[derive(Debug, PartialEq, Eq, Clone, Copy, Structural)]
pub enum Precedence {
    Lowest,
    Assignment,  // =
    Or,  // or
    And,  // and
    Equality,  // == !=
    Comparison,  // < > <= >=
    Term,  // + -
    Factor,  // * /
    Unary,  // ! -
    Call,  // . ()
    Primary,
}

impl Precedence {
    /// The place of a level in the order: `Lowest` is 0, `Primary` is 10.
    pub open spec fn level(self) -> int {
        match self {
            Precedence::Lowest => 0,
            Precedence::Assignment => 1,
            Precedence::Or => 2,
            Precedence::And => 3,
            Precedence::Equality => 4,
            Precedence::Comparison => 5,
            Precedence::Term => 6,
            Precedence::Factor => 7,
            Precedence::Unary => 8,
            Precedence::Call => 9,
            Precedence::Primary => 10,
        }
    }

    /// The level that binds one step tighter; nothing binds tighter than
    /// `Primary`.
    pub open spec fn tighter(self) -> Precedence {
        match self {
            Precedence::Lowest => Precedence::Assignment,
            Precedence::Assignment => Precedence::Or,
            Precedence::Or => Precedence::And,
            Precedence::And => Precedence::Equality,
            Precedence::Equality => Precedence::Comparison,
            Precedence::Comparison => Precedence::Term,
            Precedence::Term => Precedence::Factor,
            Precedence::Factor => Precedence::Unary,
            Precedence::Unary => Precedence::Call,
            Precedence::Call => Precedence::Primary,
            Precedence::Primary => Precedence::Primary,
        }
    }

    pub fn order(self) -> (order: u8)
        ensures
            order == self.level(),
    {
        match self {
            Precedence::Lowest => 0,
            Precedence::Assignment => 1,
            Precedence::Or => 2,
            Precedence::And => 3,
            Precedence::Equality => 4,
            Precedence::Comparison => 5,
            Precedence::Term => 6,
            Precedence::Factor => 7,
            Precedence::Unary => 8,
            Precedence::Call => 9,
            Precedence::Primary => 10,
        }
    }

    pub fn next(self) -> (next: Precedence)
        ensures
            next == self.tighter(),
            self != Precedence::Primary ==> next.level() == self.level() + 1,
    {
        match self {
            Precedence::Lowest => Precedence::Assignment,
            Precedence::Assignment => Precedence::Or,
            Precedence::Or => Precedence::And,
            Precedence::And => Precedence::Equality,
            Precedence::Equality => Precedence::Comparison,
            Precedence::Comparison => Precedence::Term,
            Precedence::Term => Precedence::Factor,
            Precedence::Factor => Precedence::Unary,
            Precedence::Unary => Precedence::Call,
            Precedence::Call => Precedence::Primary,
            Precedence::Primary => Precedence::Primary,
        }
    }
}

/// What a token does when it begins an expression.
#[derive(Debug, PartialEq, Eq, Clone, Copy, Structural)]
pub enum PrefixRule {
    Grouping,
    Unary,
    Number,
}

/// What a token does when it follows an expression.
#[derive(Debug, PartialEq, Eq, Clone, Copy, Structural)]
pub enum InfixRule {
    Binary,
}

/// One row of the rule table.
#[derive(Debug, PartialEq, Eq, Clone, Copy, Structural)]
pub struct ParseRule {
    pub prefix: Option<PrefixRule>,
    pub infix: Option<InfixRule>,
    pub precedence: Precedence,
}

/// The rule table: `(` groups, `-` negates and subtracts, `+` adds, `*` and
/// `/` multiply and divide, a number stands for itself, and no other token
/// has a part in an expression.
pub open spec fn rule_of(kind: TokenType) -> ParseRule {
    ParseRule {
        prefix: if kind == TokenType::LeftParen {
            Some(PrefixRule::Grouping)
        } else if kind == TokenType::Minus {
            Some(PrefixRule::Unary)
        } else if kind == TokenType::Number {
            Some(PrefixRule::Number)
        } else {
            None
        },
        infix: if kind == TokenType::Minus || kind == TokenType::Plus || kind == TokenType::Slash
            || kind == TokenType::Star {
            Some(InfixRule::Binary)
        } else {
            None
        },
        precedence: if kind == TokenType::Minus || kind == TokenType::Plus {
            Precedence::Term
        } else if kind == TokenType::Slash || kind == TokenType::Star {
            Precedence::Factor
        } else {
            Precedence::Lowest
        },
    }
}

/// Looks up the rule of a token kind.
pub fn get_rule(token_type: TokenType) -> (rule: ParseRule)
    ensures
        rule == rule_of(token_type),
{
    match token_type {
        TokenType::LeftParen => ParseRule {
            prefix: Some(PrefixRule::Grouping),
            infix: None,
            precedence: Precedence::Lowest,
        },
        TokenType::RightParen => ParseRule { prefix: None, infix: None, precedence: Precedence::Lowest },
        TokenType::LeftBrace => ParseRule { prefix: None, infix: None, precedence: Precedence::Lowest },
        TokenType::RightBrace => ParseRule { prefix: None, infix: None, precedence: Precedence::Lowest },
        TokenType::Comma => ParseRule { prefix: None, infix: None, precedence: Precedence::Lowest },
        TokenType::Dot => ParseRule { prefix: None, infix: None, precedence: Precedence::Lowest },
        TokenType::Minus => ParseRule {
            prefix: Some(PrefixRule::Unary),
            infix: Some(InfixRule::Binary),
            precedence: Precedence::Term,
        },
        TokenType::Plus => ParseRule {
            prefix: None,
            infix: Some(InfixRule::Binary),
            precedence: Precedence::Term,
        },
        TokenType::Semicolon => ParseRule { prefix: None, infix: None, precedence: Precedence::Lowest },
        TokenType::Slash => ParseRule {
            prefix: None,
            infix: Some(InfixRule::Binary),
            precedence: Precedence::Factor,
        },
        TokenType::Star => ParseRule {
            prefix: None,
            infix: Some(InfixRule::Binary),
            precedence: Precedence::Factor,
        },
        TokenType::Bang => ParseRule { prefix: None, infix: None, precedence: Precedence::Lowest },
        TokenType::BangEqual => ParseRule { prefix: None, infix: None, precedence: Precedence::Lowest },
        TokenType::Equal => ParseRule { prefix: None, infix: None, precedence: Precedence::Lowest },
        TokenType::EqualEqual => ParseRule { prefix: None, infix: None, precedence: Precedence::Lowest },
        TokenType::Greater => ParseRule { prefix: None, infix: None, precedence: Precedence::Lowest },
        TokenType::GreaterEqual => ParseRule {
            prefix: None,
            infix: None,
            precedence: Precedence::Lowest,
        },
        TokenType::Less => ParseRule { prefix: None, infix: None, precedence: Precedence::Lowest },
        TokenType::LessEqual => ParseRule { prefix: None, infix: None, precedence: Precedence::Lowest },
        TokenType::Identifier => ParseRule { prefix: None, infix: None, precedence: Precedence::Lowest },
        TokenType::String => ParseRule { prefix: None, infix: None, precedence: Precedence::Lowest },
        TokenType::Number => ParseRule {
            prefix: Some(PrefixRule::Number),
            infix: None,
            precedence: Precedence::Lowest,
        },
        TokenType::And => ParseRule { prefix: None, infix: None, precedence: Precedence::Lowest },
        TokenType::Class => ParseRule { prefix: None, infix: None, precedence: Precedence::Lowest },
        TokenType::Else => ParseRule { prefix: None, infix: None, precedence: Precedence::Lowest },
        TokenType::False => ParseRule { prefix: None, infix: None, precedence: Precedence::Lowest },
        TokenType::For => ParseRule { prefix: None, infix: None, precedence: Precedence::Lowest },
        TokenType::Fun => ParseRule { prefix: None, infix: None, precedence: Precedence::Lowest },
        TokenType::If => ParseRule { prefix: None, infix: None, precedence: Precedence::Lowest },
        TokenType::Nil => ParseRule { prefix: None, infix: None, precedence: Precedence::Lowest },
        TokenType::Or => ParseRule { prefix: None, infix: None, precedence: Precedence::Lowest },
        TokenType::Print => ParseRule { prefix: None, infix: None, precedence: Precedence::Lowest },
        TokenType::Return => ParseRule { prefix: None, infix: None, precedence: Precedence::Lowest },
        TokenType::Super => ParseRule { prefix: None, infix: None, precedence: Precedence::Lowest },
        TokenType::This => ParseRule { prefix: None, infix: None, precedence: Precedence::Lowest },
        TokenType::True => ParseRule { prefix: None, infix: None, precedence: Precedence::Lowest },
        TokenType::Var => ParseRule { prefix: None, infix: None, precedence: Precedence::Lowest },
        TokenType::While => ParseRule { prefix: None, infix: None, precedence: Precedence::Lowest },
        TokenType::Error => ParseRule { prefix: None, infix: None, precedence: Precedence::Lowest },
        TokenType::EOF => ParseRule { prefix: None, infix: None, precedence: Precedence::Lowest },
    }
}

// ---------------------------------------------------------------------------
// Precedence climbing
// ---------------------------------------------------------------------------

/// Parses one expression whose operators all bind at least as tightly as
/// `min`: a prefix expression, and then every infix operator of that strength
/// with its right operand. `count` is the number of constants that are already in
/// the pool. The result is the expression and where the parse then stands, or
/// the first error.
///
/// Before the parse goes on behind what it has read, it tests that the cursor
/// has moved: that makes the definition well-founded, and never fails
/// (`lemma_parse_precedence`).
pub open spec fn parse_precedence(
    src: Seq<char>,
    reads: Set<Seq<char>>,
    c: Cursor,
    min: Precedence,
    count: nat,
) -> Result<
    (Expr, Cursor),
    DiagnosticView,
>
    decreases unread(src, c), 0int,
{
    match advance(src, c) {
        Err(d) => Err(d),
        Ok(c1) => match rule_of(c1.previous.kind).prefix {
            None => Err(report(c1.previous, "Expect expression."@)),
            Some(rule) => {
                proof {
                    lemma_scan_advances(src, c.at);
                }
                match parse_prefix(src, reads, c1, rule, count) {
                    Err(d) => Err(d),
                    Ok((left, c2)) => if unread(src, c2) < unread(src, c) {
                        parse_infix(src, reads, c2, min, left, count + literals(left).len())
                    } else {
                        Ok((left, c2))
                    },
                }
            },
        },
    }
}

/// Parses what follows the token that begins an expression, by the prefix rule of
/// that token. A number stands for itself, if the host can convert it (it is in
/// `reads`) and the pool has room for it; after `(`
/// come an expression and `)`; after `-` comes the operand, which binds as tightly
/// as a unary operator does.
pub open spec fn parse_prefix(
    src: Seq<char>,
    reads: Set<Seq<char>>,
    c: Cursor,
    rule: PrefixRule,
    count: nat,
) -> Result<
    (Expr, Cursor),
    DiagnosticView,
>
    decreases unread(src, c), 1int,
{
    match rule {
        PrefixRule::Number => if !reads.contains(c.previous.text) {
            Err(report(c.previous, "Could not parse number."@))
        } else if count >= MAX_CONSTANTS {
            Err(report(c.previous, "Too many constants in one chunk."@))
        } else {
            Ok((Expr::Number { text: c.previous.text, line: c.previous.line }, c))
        },
        PrefixRule::Grouping => match parse_precedence(src, reads, c, Precedence::Assignment, count) {
            Err(d) => Err(d),
            Ok((inner, c1)) => match consume(src, c1, TokenType::RightParen, "Expect ')' after expression."@) {
                Err(d) => Err(d),
                Ok(c2) => Ok((inner, c2)),
            },
        },
        PrefixRule::Unary => match parse_precedence(src, reads, c, Precedence::Unary, count) {
            Err(d) => Err(d),
            Ok((operand, c1)) => Ok((Expr::Negate { operand: Box::new(operand), line: c1.previous.line }, c1)),
        },
    }
}

/// Parses the infix operators that follow the expression `left`, as long
/// as they bind at least as tightly as `min`. The right operand of an operator
/// binds one step tighter than the operator: so operators of one strength group
/// from the left.
pub open spec fn parse_infix(
    src: Seq<char>,
    reads: Set<Seq<char>>,
    c: Cursor,
    min: Precedence,
    left: Expr,
    count: nat,
) -> Result<
    (Expr, Cursor),
    DiagnosticView,
>
    decreases unread(src, c), 0int,
{
    let rule = rule_of(ahead(src, c).kind);
    if rule.infix is Some && min.level() <= rule.precedence.level() {
        match advance(src, c) {
            Err(d) => Err(d),
            Ok(c1) => {
                proof {
                    lemma_scan_advances(src, c.at);
                }
                match parse_precedence(src, reads, c1, rule.precedence.tighter(), count) {
                    Err(d) => Err(d),
                    Ok((right, c2)) => {
                        let joined = Expr::Binary {
                            op: binary_op(c1.previous.kind),
                            left: Box::new(left),
                            right: Box::new(right),
                            line: c2.previous.line,
                        };
                        if unread(src, c2) < unread(src, c) {
                            parse_infix(src, reads, c2, min, joined, count + literals(right).len())
                        } else {
                            Ok((joined, c2))
                        }
                    },
                }
            },
        }
    } else {
        Ok((left, c))
    }
}

/// A parse that succeeds has read at least one token, ends at a clean
/// cursor, and has found no more numerals than the pool had room for.
pub proof fn lemma_parse_precedence(
    src: Seq<char>,
    reads: Set<Seq<char>>,
    c: Cursor,
    min: Precedence,
    count: nat,
)
    requires
        0 <= c.at <= src.len(),
    ensures
        parse_precedence(src, reads, c, min, count) matches Ok((e, next)) ==> clean(src, next) && c.at < next.at
            && count + literals(e).len() <= MAX_CONSTANTS,
    decreases unread(src, c), 0int,
{
    lemma_advance(src, c);
    if let Ok(c1) = advance(src, c) {
        if let Some(rule) = rule_of(c1.previous.kind).prefix {
            lemma_parse_prefix(src, reads, c1, rule, count);
            if let Ok((left, c2)) = parse_prefix(src, reads, c1, rule, count) {
                lemma_parse_infix(src, reads, c2, min, left, count + literals(left).len());
            }
        }
    }
}

/// What a prefix rule reads ends at a clean cursor, no further back than
/// where it began.
pub proof fn lemma_parse_prefix(src: Seq<char>, reads: Set<Seq<char>>, c: Cursor, rule: PrefixRule, count: nat)
    requires
        clean(src, c),
    ensures
        parse_prefix(src, reads, c, rule, count) matches Ok((e, next)) ==> clean(src, next) && c.at <= next.at
            && count + literals(e).len() <= MAX_CONSTANTS,
    decreases unread(src, c), 1int,
{
    match rule {
        PrefixRule::Number => {},
        PrefixRule::Grouping => {
            lemma_parse_precedence(src, reads, c, Precedence::Assignment, count);
            if let Ok((inner, c1)) = parse_precedence(src, reads, c, Precedence::Assignment, count) {
                lemma_advance(src, c1);
            }
        },
        PrefixRule::Unary => {
            lemma_parse_precedence(src, reads, c, Precedence::Unary, count);
        },
    }
}

/// What the infix rules read ends at a clean cursor, no further back than
/// where it began.
pub proof fn lemma_parse_infix(
    src: Seq<char>,
    reads: Set<Seq<char>>,
    c: Cursor,
    min: Precedence,
    left: Expr,
    count: nat,
)
    requires
        clean(src, c),
        literals(left).len() <= count <= MAX_CONSTANTS,
    ensures
        parse_infix(src, reads, c, min, left, count) matches Ok((e, next)) ==> {
            &&& clean(src, next)
            &&& c.at <= next.at
            &&& count - literals(left).len() + literals(e).len() <= MAX_CONSTANTS
        },
    decreases unread(src, c), 0int,
{
    let rule = rule_of(ahead(src, c).kind);
    if rule.infix is Some && min.level() <= rule.precedence.level() {
        lemma_advance(src, c);
        if let Ok(c1) = advance(src, c) {
            lemma_parse_precedence(src, reads, c1, rule.precedence.tighter(), count);
            if let Ok((right, c2)) = parse_precedence(src, reads, c1, rule.precedence.tighter(), count) {
                let joined = Expr::Binary {
                    op: binary_op(c1.previous.kind),
                    left: Box::new(left),
                    right: Box::new(right),
                    line: c2.previous.line,
                };
                lemma_parse_infix(src, reads, c2, min, joined, count + literals(right).len());
            }
        }
    }
}

// ---------------------------------------------------------------------------
// Precedence climbing reads the grammar
// ---------------------------------------------------------------------------

/// The phrase of the grammar that precedence climbing reads from the level
/// `min`: at the level of unary operators and above a `unary`, at the level of
/// `*` and `/` a `term`, and below that an `expression`.
pub open spec fn phrase(
    src: Seq<char>,
    reads: Set<Seq<char>>,
    c: Cursor,
    min: Precedence,
    count: nat,
) -> Result<
    (Expr, Cursor),
    DiagnosticView,
> {
    if min.level() >= Precedence::Unary.level() {
        unary(src, reads, c, count)
    } else if min == Precedence::Factor {
        term(src, reads, c, count)
    } else {
        expression(src, reads, c, count)
    }
}

/// The rest of that phrase, when the expression `left` has been read and
/// the pool held `base` constants before it.
pub open spec fn rest_of_phrase(
    src: Seq<char>,
    reads: Set<Seq<char>>,
    c: Cursor,
    min: Precedence,
    left: Expr,
    base: nat,
) -> Result<
    (Expr, Cursor),
    DiagnosticView,
> {
    if min.level() >= Precedence::Unary.level() {
        Ok((left, c))
    } else if min == Precedence::Factor {
        factors(src, reads, c, left, base + literals(left).len())
    } else {
        match factors(src, reads, c, left, base + literals(left).len()) {
            Err(d) => Err(d),
            Ok((product, c1)) => terms(src, reads, c1, product, base + literals(product).len()),
        }
    }
}

/// Precedence climbing reads the grammar: from every level it gives the
/// expression, the cursor or the error that the grammar gives for the phrase
/// of that level. So `*` and `/` bind tighter than `+` and `-`, a unary `-`
/// binds tighter than both, and operators of one strength group from the left.
pub proof fn lemma_climbing_reads_phrase(
    src: Seq<char>,
    reads: Set<Seq<char>>,
    c: Cursor,
    min: Precedence,
    count: nat,
)
    requires
        0 <= c.at <= src.len(),
    ensures
        parse_precedence(src, reads, c, min, count) == phrase(src, reads, c, min, count),
    decreases unread(src, c), 0int,
{
    lemma_advance(src, c);
    if let Ok(c1) = advance(src, c) {
        if let Some(rule) = rule_of(c1.previous.kind).prefix {
            lemma_scan_advances(src, c.at);
            match rule {
                PrefixRule::Number => {},
                PrefixRule::Grouping => {
                    lemma_climbing_reads_phrase(src, reads, c1, Precedence::Assignment, count);
                },
                PrefixRule::Unary => {
                    lemma_climbing_reads_phrase(src, reads, c1, Precedence::Unary, count);
                },
            }
            lemma_unary(src, reads, c, count);
            if let Ok((left, c2)) = unary(src, reads, c, count) {
                lemma_climbing_reads_rest(src, reads, c2, min, left, count);
                lemma_factors(src, reads, c2, left, count + literals(left).len());
            }
        }
    }
}

/// Precedence climbing reads the rest of a phrase as the grammar does.
pub proof fn lemma_climbing_reads_rest(
    src: Seq<char>,
    reads: Set<Seq<char>>,
    c: Cursor,
    min: Precedence,
    left: Expr,
    base: nat,
)
    requires
        clean(src, c),
    ensures
        parse_infix(src, reads, c, min, left, base + literals(left).len()) == rest_of_phrase(
            src, reads,
            c,
            min,
            left,
            base,
        ),
    decreases unread(src, c), 0int,
{
    let count = base + literals(left).len();
    let kind = ahead(src, c).kind;
    let rule = rule_of(kind);
    if rule.infix is Some && min.level() <= rule.precedence.level() {
        lemma_advance(src, c);
        lemma_scan_advances(src, c.at);
        if let Ok(c1) = advance(src, c) {
            lemma_climbing_reads_phrase(src, reads, c1, rule.precedence.tighter(), count);
            lemma_unary(src, reads, c1, count);
            lemma_term(src, reads, c1, count);
            if let Ok((right, c2)) = phrase(src, reads, c1, rule.precedence.tighter(), count) {
                let joined = Expr::Binary {
                    op: binary_op(kind),
                    left: Box::new(left),
                    right: Box::new(right),
                    line: c2.previous.line,
                };
                lemma_climbing_reads_rest(src, reads, c2, min, joined, base);
                if is_term_operator(kind) {
                    // What follows a term is no `*` and no `/`: the product that
                    // `joined` begins ends with it.
                    assert(factors(src, reads, c2, joined, base + literals(joined).len()) == Ok::<
                        (Expr, Cursor),
                        DiagnosticView,
                    >((joined, c2)));
                }
            }
        }
    }
}

/// What `src` compiles to is what precedence climbing from the loosest level
/// reads, where no lexical error stands at the beginning and nothing follows the
/// expression.
pub proof fn lemma_compiled_by_climbing(src: Seq<char>, reads: Set<Seq<char>>)
    ensures
        expression(src, reads, Cursor { previous: empty_token(), at: 0 }, 0) == parse_precedence(
            src, reads,
            Cursor { previous: empty_token(), at: 0 },
            Precedence::Assignment,
            0,
        ),
{
    lemma_climbing_reads_phrase(
        src,
        reads,
        Cursor { previous: empty_token(), at: 0 },
        Precedence::Assignment,
        0,
    );
}

/// A program has as many numerals as one chunk can hold, or fewer: a source
/// with more of them does not compile, whatever the host converts.
pub proof fn lemma_compiled_literals(src: Seq<char>, reads: Set<Seq<char>>)
    requires
        compiled(src, reads) is Ok,
    ensures
        ({
            let program = compiled(src, reads)->Ok_0;
            &&& program.literals.len() <= MAX_CONSTANTS
            &&& program.literals == literals(program.expression)
            &&& program.code == code_of(program.expression, 0).push(encode(OpCode::Return))
        }),
{
    lemma_compiled_by_climbing(src, reads);
    lemma_parse_precedence(src, reads, Cursor { previous: empty_token(), at: 0 }, Precedence::Assignment, 0);
}

/// The lines never go back, and all lie between `low` and `high`.
pub open spec fn ascending(lines: Seq<i32>, low: int, high: int) -> bool {
    &&& forall|i: int, j: int| 0 <= i <= j < lines.len() ==> lines[i] <= lines[j]
    &&& forall|i: int| 0 <= i < lines.len() ==> low <= #[trigger] lines[i] <= high
}

/// A clean cursor whose last token lies on no later line than the cursor
/// itself.
pub open spec fn in_order(src: Seq<char>, c: Cursor) -> bool {
    &&& clean(src, c)
    &&& c.previous.line <= line_at(src, c.at)
}

proof fn lemma_advance_lines(src: Seq<char>, c: Cursor)
    requires
        in_order(src, c),
        src.len() < i32::MAX,
    ensures
        advance(src, c) matches Ok(next) ==> in_order(src, next) && line_at(src, c.at) <= next.previous.line
            == line_at(src, next.at),
{
    lemma_advance(src, c);
    lemma_token_line(src, c.at);
}

proof fn lemma_parse_precedence_lines(
    src: Seq<char>,
    reads: Set<Seq<char>>,
    c: Cursor,
    min: Precedence,
    count: nat,
)
    requires
        in_order(src, c),
        src.len() < i32::MAX,
    ensures
        parse_precedence(src, reads, c, min, count) matches Ok((e, next)) ==> in_order(src, next) && ascending(
            lines_of(e),
            line_at(src, c.at),
            next.previous.line as int,
        ) && line_at(src, c.at) <= next.previous.line == line_at(src, next.at),
    decreases unread(src, c), 0int,
{
    lemma_advance_lines(src, c);
    lemma_advance(src, c);
    if let Ok(c1) = advance(src, c) {
        if let Some(rule) = rule_of(c1.previous.kind).prefix {
            lemma_parse_prefix_lines(src, reads, c1, rule, count);
            lemma_parse_prefix(src, reads, c1, rule, count);
            if let Ok((left, c2)) = parse_prefix(src, reads, c1, rule, count) {
                lemma_parse_infix_lines(
                    src,
                    reads,
                    c2,
                    min,
                    left,
                    count + literals(left).len(),
                    line_at(src, c.at),
                );
            }
        }
    }
}

proof fn lemma_parse_prefix_lines(
    src: Seq<char>,
    reads: Set<Seq<char>>,
    c: Cursor,
    rule: PrefixRule,
    count: nat,
)
    requires
        in_order(src, c),
        c.previous.line == line_at(src, c.at),
        src.len() < i32::MAX,
    ensures
        parse_prefix(src, reads, c, rule, count) matches Ok((e, next)) ==> in_order(src, next) && ascending(
            lines_of(e),
            c.previous.line as int,
            next.previous.line as int,
        ) && c.previous.line <= next.previous.line == line_at(src, next.at),
    decreases unread(src, c), 1int,
{
    match rule {
        PrefixRule::Number => {},
        PrefixRule::Grouping => {
            lemma_parse_precedence_lines(src, reads, c, Precedence::Assignment, count);
            if let Ok((inner, c1)) = parse_precedence(src, reads, c, Precedence::Assignment, count) {
                lemma_advance_lines(src, c1);
            }
        },
        PrefixRule::Unary => {
            lemma_parse_precedence_lines(src, reads, c, Precedence::Unary, count);
        },
    }
}

proof fn lemma_parse_infix_lines(
    src: Seq<char>, reads: Set<Seq<char>>,
    c: Cursor,
    min: Precedence,
    left: Expr,
    count: nat,
    low: int,
)
    requires
        in_order(src, c),
        c.previous.line == line_at(src, c.at),
        ascending(lines_of(left), low, c.previous.line as int),
        low <= c.previous.line,
        src.len() < i32::MAX,
    ensures
        parse_infix(src, reads, c, min, left, count) matches Ok((e, next)) ==> in_order(src, next) && ascending(
            lines_of(e),
            low,
            next.previous.line as int,
        ) && low <= next.previous.line == line_at(src, next.at),
    decreases unread(src, c), 0int,
{
    let rule = rule_of(ahead(src, c).kind);
    if rule.infix is Some && min.level() <= rule.precedence.level() {
        lemma_advance_lines(src, c);
        lemma_advance(src, c);
        if let Ok(c1) = advance(src, c) {
            lemma_parse_precedence_lines(src, reads, c1, rule.precedence.tighter(), count);
            lemma_parse_precedence(src, reads, c1, rule.precedence.tighter(), count);
            if let Ok((right, c2)) = parse_precedence(src, reads, c1, rule.precedence.tighter(), count) {
                let joined = Expr::Binary {
                    op: binary_op(c1.previous.kind),
                    left: Box::new(left),
                    right: Box::new(right),
                    line: c2.previous.line,
                };
                lemma_parse_infix_lines(src, reads, c2, min, joined, count + literals(right).len(), low);
            }
        }
    }
}

/// The line table of a program never goes back: the lines of successive
/// bytes ascend, from the first line of the source to the line on which the
/// source ends.
pub proof fn lemma_compiled_lines(src: Seq<char>, reads: Set<Seq<char>>)
    requires
        src.len() < i32::MAX,
        compiled(src, reads) is Ok,
    ensures
        ascending(compiled(src, reads)->Ok_0.lines, 1, line_at(src, src.len() as int)),
        compiled(src, reads)->Ok_0.lines.len() == compiled(src, reads)->Ok_0.code.len(),
{
    let start = Cursor { previous: empty_token(), at: 0 };
    lemma_compiled_by_climbing(src, reads);
    lemma_parse_precedence_lines(src, reads, start, Precedence::Assignment, 0);
    let (e, c) = parse_precedence(src, reads, start, Precedence::Assignment, 0)->Ok_0;
    lemma_advance_lines(src, c);
    lemma_scan_progress(src, c.at);
    lemma_code_lines(e, 0);
    lemma_line_monotonic(src, c.at, src.len() as int);
}

} // verus!
