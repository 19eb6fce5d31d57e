//! The compiler: a single pass over the tokens that emits code as it
//! recognizes the grammar, with no tree in between.
use crate::chunk::{encode, Chunk, ChunkView, OpCode, MAX_CONSTANTS};
use crate::rules::{
    get_rule, lemma_compiled_by_climbing, lemma_parse_precedence, lemma_parse_prefix, parse_infix,
    parse_precedence, parse_prefix, rule_of, InfixRule, Precedence, PrefixRule,
};
use crate::scanner::{
    empty_token, is_numeral, lemma_number_is_numeral, lemma_scan_advances, lemma_scan_progress, scan,
    Scanner, Token, TokenType,
};
use crate::syntax::{
    ahead, binary_op, clean, code_of, compiled, consume, lemma_advance, lines_of, literals, report, Cursor,
    Diagnostic, DiagnosticView, Expr, Place, PlaceView, Program,
};
use vstd::prelude::*;

verus! {

/// The host's conversion can be asked about every numeral. It need not make
/// a number of each: it may fail on one, which is then reported.
pub open spec fn reads_numerals<V, P: Fn(&str) -> Option<V>>(number: P) -> bool {
    forall|text: &str| is_numeral(text@) ==> call_requires(number, (text,))
}

/// `value` is what the host's conversion can make of `text`.
pub open spec fn yields<V, P: Fn(&str) -> Option<V>>(number: P, text: Seq<char>, value: V) -> bool {
    exists|s: &str| s@ == text && #[trigger] call_ensures(number, (s,), Some(value))
}

/// The host's conversion can fail on `text`.
pub open spec fn refuses<V, P: Fn(&str) -> Option<V>>(number: P, text: Seq<char>) -> bool {
    exists|s: &str| s@ == text && #[trigger] call_ensures(number, (s,), None::<V>)
}

/// The texts that the host's conversion can make a number of.
pub open spec fn readable<V, P: Fn(&str) -> Option<V>>(number: P) -> Set<Seq<char>> {
    Set::new(|text: Seq<char>| exists|value: V| yields(number, text, value))
}

/// Whether the host's conversion fails depends on the text alone: it does not
/// make a number of a text once and fail on the same text another time.
pub open spec fn decides<V, P: Fn(&str) -> Option<V>>(number: P) -> bool {
    forall|one: &str, other: &str, value: V|
        #![trigger call_ensures(number, (one,), Some(value)), call_ensures(number, (other,), None::<V>)]
        one@ == other@ ==> !(call_ensures(number, (one,), Some(value)) && call_ensures(
            number,
            (other,),
            None::<V>,
        ))
}

/// `d` reports that the conversion of a numeral failed which the host can
/// also convert. Only a host whose conversion does not decide by the text can
/// bring that about; what is reported then need not be what the grammar gives
/// for the numerals that the host can convert.
pub open spec fn wavers<V, P: Fn(&str) -> Option<V>>(number: P, d: DiagnosticView) -> bool {
    &&& d.message == "Could not parse number."@
    &&& d.place matches PlaceView::Lexeme(text)
    &&& refuses(number, text)
    &&& readable(number).contains(text)
}

/// A conversion that decides by the text never wavers.
pub proof fn lemma_decides<V, P: Fn(&str) -> Option<V>>(number: P, d: DiagnosticView)
    requires
        decides(number),
    ensures
        !wavers(number, d),
{
    if wavers(number, d) {
        let text = d.place->Lexeme_0;
        let value = choose|value: V| yields(number, text, value);
        let one = choose|s: &str| s@ == text && #[trigger] call_ensures(number, (s,), Some(value));
        let other = choose|s: &str| s@ == text && #[trigger] call_ensures(number, (s,), None::<V>);
        assert(call_ensures(number, (one,), Some(value)) && call_ensures(number, (other,), None::<V>));
    }
}

/// `constants` are what the host's conversion can make of `texts`, one for one.
pub open spec fn converted<V, P: Fn(&str) -> Option<V>>(
    number: P,
    texts: Seq<Seq<char>>,
    constants: Seq<V>,
) -> bool {
    &&& constants.len() == texts.len()
    &&& forall|i: int| 0 <= i < texts.len() ==> yields(number, texts[i], #[trigger] constants[i])
}

/// `after` is `before` with `code` and its `lines` at the end, and with the
/// constants that the numerals `texts` were converted to.
pub open spec fn appended<V, P: Fn(&str) -> Option<V>>(
    before: ChunkView<V>,
    after: ChunkView<V>,
    code: Seq<u8>,
    lines: Seq<i32>,
    texts: Seq<Seq<char>>,
    number: P,
) -> bool {
    &&& after.code == before.code + code
    &&& after.lines == before.lines + lines
    &&& after.constants.len() == before.constants.len() + texts.len()
    &&& after.constants.take(before.constants.len() as int) == before.constants
    &&& converted(number, texts, after.constants.skip(before.constants.len() as int))
}

proof fn lemma_appended_twice<V, P: Fn(&str) -> Option<V>>(
    a: ChunkView<V>,
    b: ChunkView<V>,
    c: ChunkView<V>,
    code1: Seq<u8>,
    lines1: Seq<i32>,
    texts1: Seq<Seq<char>>,
    code2: Seq<u8>,
    lines2: Seq<i32>,
    texts2: Seq<Seq<char>>,
    number: P,
)
    requires
        appended(a, b, code1, lines1, texts1, number),
        appended(b, c, code2, lines2, texts2, number),
    ensures
        appended(a, c, code1 + code2, lines1 + lines2, texts1 + texts2, number),
{
    let n = a.constants.len() as int;
    let m = b.constants.len() as int;
    assert(c.code =~= a.code + (code1 + code2));
    assert(c.lines =~= a.lines + (lines1 + lines2));
    assert(c.constants.take(n) =~= a.constants);
    let tail = c.constants.skip(n);
    let texts = texts1 + texts2;
    assert forall|i: int| 0 <= i < texts.len() implies yields(number, texts[i], #[trigger] tail[i]) by {
        if i < texts1.len() {
            assert(b.constants.skip(n)[i] == tail[i]);
        } else {
            assert(c.constants.skip(m)[i - texts1.len()] == tail[i]);
        }
    }
}

struct Parser<'a, V> {
    current: Token,
    previous: Token,
    scanner: Scanner<'a>,
    chunk: Chunk<V>,
    had_error: bool,
    panic_mode: bool,
    /// the first error that was reported
    diagnostic: Option<Diagnostic>,
    /// the position from which `current` was scanned
    at: Ghost<int>,
}

impl<'a, V> Parser<'a, V> {
    spec fn source(&self) -> Seq<char> {
        self.scanner.source()
    }

    spec fn cursor(&self) -> Cursor {
        Cursor { previous: self.previous@, at: self.at@ }
    }

    spec fn count(&self) -> nat {
        self.chunk.constants@.len()
    }

    spec fn reported(&self) -> Option<DiagnosticView> {
        match self.diagnostic {
            Some(d) => Some(d@),
            None => None,
        }
    }

    /// What bounds the work that is left: the characters not yet scanned,
    /// and the token ahead if it is not the last one.
    spec fn remaining(&self) -> int {
        self.source().len() - self.scanner.position() + if self.current.token_type != TokenType::EOF {
            1int
        } else {
            0int
        }
    }

    /// The parser is in panic mode from its first error on, and holds the
    /// diagnostic of that error.
    spec fn flags_agree(&self) -> bool {
        &&& self.panic_mode == self.had_error
        &&& self.had_error == self.diagnostic.is_some()
    }

    /// What holds of the parser whether or not it has met an error.
    spec fn sound(&self) -> bool {
        &&& self.scanner.wf()
        &&& self.chunk.wf()
        &&& self.flags_agree()
        &&& self.current.token_type == TokenType::EOF ==> self.scanner.position() == self.source().len()
        &&& self.previous.token_type == TokenType::Number ==> is_numeral(self.previous.lexeme@)
        &&& self.current.token_type == TokenType::Number ==> is_numeral(self.current.lexeme@)
    }

    /// The parser stands where its cursor says.
    spec fn tracks(&self) -> bool {
        &&& clean(self.source(), self.cursor())
        &&& self.current@ == ahead(self.source(), self.cursor())
        &&& self.scanner.position() == scan(self.source(), self.at@).end
    }

    spec fn inv(&self) -> bool {
        &&& self.sound()
        &&& !self.had_error ==> self.tracks()
    }

    /// Nothing but the error state differs from `before`.
    spec fn flagged(&self, before: &Self) -> bool {
        &&& self.current == before.current
        &&& self.previous == before.previous
        &&& self.scanner == before.scanner
        &&& self.chunk == before.chunk
        &&& self.at == before.at
    }

    /// An error that was reported before stays the one that is reported.
    spec fn keeps_error(&self, before: &Self) -> bool {
        before.had_error ==> self.had_error && self.diagnostic == before.diagnostic
    }

    /// Nothing but the chunk differs from `before`.
    spec fn emitted(&self, before: &Self) -> bool {
        &&& self.current == before.current
        &&& self.previous == before.previous
        &&& self.scanner == before.scanner
        &&& self.at == before.at
        &&& self.had_error == before.had_error
        &&& self.panic_mode == before.panic_mode
        &&& self.diagnostic == before.diagnostic
    }

    fn new(source: &'a Vec<char>) -> (parser: Parser<'a, V>)
        requires
            source@.len() < i32::MAX,
        ensures
            parser.sound(),
            parser.source() == source@,
            parser.scanner.position() == 0,
            !parser.had_error,
            parser.current@ == empty_token(),
            parser.chunk@.code.len() == 0,
            parser.chunk@.lines.len() == 0,
            parser.chunk@.constants.len() == 0,
    {
        Parser {
            current: Token::empty(),
            previous: Token::empty(),
            scanner: Scanner::new(source),
            chunk: Chunk::new(),
            had_error: false,
            panic_mode: false,
            diagnostic: None,
            at: Ghost(0),
        }
    }

    /// Takes the next token that is no lexical error. Every lexical error on
    /// the way to it is handed to the error report, which reports the first one
    /// unless an error was reported before.
    fn advance(&mut self)
        requires
            old(self).sound(),
        ensures
            final(self).sound(),
            final(self).source() == old(self).source(),
            final(self).chunk == old(self).chunk,
            final(self).previous@ == old(self).current@,
            final(self).current.token_type != TokenType::Error,
            final(self).had_error == (old(self).had_error || scan(
                old(self).source(),
                old(self).scanner.position(),
            ).token.kind == TokenType::Error),
            final(self).remaining() <= old(self).remaining(),
            old(self).current.token_type != TokenType::EOF ==> final(self).remaining() < old(self).remaining(),
            final(self).keeps_error(old(self)),
            !old(self).had_error ==> ({
                let from = old(self).scanner.position();
                let next = scan(old(self).source(), from);
                if next.token.kind == TokenType::Error {
                    final(self).had_error && final(self).reported() == Some(
                        report(next.token, next.token.text),
                    )
                } else {
                    &&& !final(self).had_error
                    &&& final(self).current@ == next.token
                    &&& final(self).at@ == from
                    &&& 0 <= from <= final(self).source().len()
                    &&& final(self).scanner.position() == next.end
                }
            }),
    {
        self.previous = self.current.clone();
        let ghost start = self.scanner.position();
        loop
            invariant
                self.sound(),
                self.source() == old(self).source(),
                self.chunk == old(self).chunk,
                self.previous@ == old(self).current@,
                start <= self.scanner.position(),
                start == old(self).scanner.position(),
                self.keeps_error(old(self)),
                self.scanner.position() == start ==> self.had_error == old(self).had_error,
                self.scanner.position() != start ==> self.had_error && scan(self.source(), start).token.kind
                    == TokenType::Error,
                !old(self).had_error && !self.had_error ==> self.scanner.position() == start,
                !old(self).had_error && self.had_error ==> scan(self.source(), start).token.kind
                    == TokenType::Error && self.reported() == Some(
                    report(scan(self.source(), start).token, scan(self.source(), start).token.text),
                ),
            decreases self.source().len() - self.scanner.position(),
        {
            let ghost from = self.scanner.position();
            proof {
                self.scanner.lemma_wf_bounds();
                lemma_scan_progress(self.source(), from);
                lemma_scan_advances(self.source(), from);
                if scan(self.source(), from).token.kind == TokenType::Number {
                    lemma_number_is_numeral(self.source(), from);
                }
            }
            self.current = self.scanner.scan_token();
            self.at = Ghost(from);
            if self.current.token_type != TokenType::Error {
                return;
            }
            let message = self.current.lexeme.clone();
            self.error_at_current(message.as_str());
        }
    }

    /// Takes the token ahead if it is of the kind `token_type`, and else
    /// reports `message` at it.
    fn consume(&mut self, token_type: TokenType, message: &str)
        requires
            old(self).inv(),
        ensures
            final(self).inv(),
            final(self).source() == old(self).source(),
            final(self).chunk == old(self).chunk,
            final(self).remaining() <= old(self).remaining(),
            final(self).keeps_error(old(self)),
            !old(self).had_error ==> match consume(old(self).source(), old(self).cursor(), token_type, message@) {
                Err(d) => final(self).had_error && final(self).reported() == Some(d),
                Ok(c) => !final(self).had_error && final(self).cursor() == c,
            },
    {
        if self.current.token_type == token_type {
            self.advance();
            return;
        }
        self.error_at_current(message);
    }

    fn emit_byte(&mut self, byte: u8)
        requires
            old(self).chunk.wf(),
        ensures
            final(self).emitted(old(self)),
            final(self).chunk.wf(),
            final(self).chunk@.code == old(self).chunk@.code.push(byte),
            final(self).chunk@.lines == old(self).chunk@.lines.push(old(self).previous.line),
            final(self).chunk@.constants == old(self).chunk@.constants,
    {
        self.chunk.write(byte, self.previous.line);
    }

    fn emit_bytes(&mut self, byte1: u8, byte2: u8)
        requires
            old(self).chunk.wf(),
        ensures
            final(self).emitted(old(self)),
            final(self).chunk.wf(),
            final(self).chunk@.code == old(self).chunk@.code.push(byte1).push(byte2),
            final(self).chunk@.lines == old(self).chunk@.lines.push(old(self).previous.line).push(
                old(self).previous.line,
            ),
            final(self).chunk@.constants == old(self).chunk@.constants,
    {
        self.emit_byte(byte1);
        self.emit_byte(byte2);
    }

    fn emit_return(&mut self)
        requires
            old(self).chunk.wf(),
        ensures
            final(self).emitted(old(self)),
            final(self).chunk.wf(),
            final(self).chunk@.code == old(self).chunk@.code.push(encode(OpCode::Return)),
            final(self).chunk@.lines == old(self).chunk@.lines.push(old(self).previous.line),
            final(self).chunk@.constants == old(self).chunk@.constants,
    {
        self.emit_byte(OpCode::Return.to_u8());
    }

    fn end_compiler(&mut self)
        requires
            old(self).chunk.wf(),
        ensures
            final(self).emitted(old(self)),
            final(self).chunk.wf(),
            final(self).chunk@.code == old(self).chunk@.code.push(encode(OpCode::Return)),
            final(self).chunk@.lines == old(self).chunk@.lines.push(old(self).previous.line),
            final(self).chunk@.constants == old(self).chunk@.constants,
    {
        self.emit_return();
    }

    /// What every parsing function promises, where `parsed` is what the
    /// grammar gives for the numerals that the host can convert. An earlier error
    /// stays. Else, if no error was met, the parse has succeeded: the parser stands
    /// where it ends, and the chunk has grown by `code`, `lines` and the constants
    /// for the numerals. And if an error was met, it is the error of the parse,
    /// unless the host's conversion has wavered.
    spec fn follows<P: Fn(&str) -> Option<V>>(
        &self,
        before: &Self,
        parsed: Result<(Expr, Cursor), DiagnosticView>,
        code: Seq<u8>,
        lines: Seq<i32>,
        number: P,
    ) -> bool {
        &&& self.inv()
        &&& self.source() == before.source()
        &&& self.remaining() <= before.remaining()
        &&& self.keeps_error(before)
        &&& !before.had_error && !self.had_error ==> {
            &&& parsed matches Ok((e, c))
            &&& self.cursor() == c
            &&& appended(before.chunk@, self.chunk@, code, lines, literals(e), number)
        }
        &&& !before.had_error && self.had_error ==> {
            &&& self.reported() matches Some(d)
            &&& parsed == Err::<(Expr, Cursor), DiagnosticView>(d) || wavers(number, d)
        }
    }

    /// What the parser has done with the result `converted` of converting the
    /// numeral that it has just read. Where the conversion failed, that is
    /// reported and the chunk is as it was. Where it gave a value, the value is in
    /// the pool and the instruction that loads it is emitted, or it is reported
    /// that the pool is full.
    spec fn noted(&self, before: &Self, converted: Option<V>) -> bool {
        &&& self.sound()
        &&& self.current == before.current
        &&& self.previous == before.previous
        &&& self.scanner == before.scanner
        &&& self.at == before.at
        &&& self.keeps_error(before)
        &&& match converted {
            None => {
                &&& self.had_error
                &&& self.chunk@ == before.chunk@
                &&& !before.had_error ==> self.reported() == Some(
                    report(before.previous@, "Could not parse number."@),
                )
            },
            Some(value) => if before.count() < MAX_CONSTANTS {
                &&& self.had_error == before.had_error
                &&& self.chunk@.constants == before.chunk@.constants.push(value)
                &&& self.chunk@.code == before.chunk@.code.push(encode(OpCode::Constant)).push(
                    before.count() as u8,
                )
                &&& self.chunk@.lines == before.chunk@.lines.push(before.previous.line).push(
                    before.previous.line,
                )
            } else {
                &&& self.had_error
                &&& self.chunk@ == before.chunk@
                &&& !before.had_error ==> self.reported() == Some(
                    report(before.previous@, "Too many constants in one chunk."@),
                )
            },
        }
    }

    /// Compiles the number that was just read: has the host convert the
    /// numeral, and goes on with what the conversion gives.
    fn number<P: Fn(&str) -> Option<V>>(&mut self, number: &P)
        requires
            old(self).inv(),
            old(self).previous.token_type == TokenType::Number,
            reads_numerals(*number),
        ensures
            ({
                let parsed = parse_prefix(
                    old(self).source(),
                    readable(*number),
                    old(self).cursor(),
                    PrefixRule::Number,
                    old(self).count(),
                );
                final(self).follows(
                    old(self),
                    parsed,
                    code_of(parsed->Ok_0.0, old(self).count() as int),
                    lines_of(parsed->Ok_0.0),
                    *number,
                )
            }),
            exists|text: &str, converted: Option<V>|
                text@ == old(self).previous.lexeme@ && #[trigger] call_ensures(*number, (text,), converted)
                    && final(self).noted(old(self), converted),
    {
        let converted = number(self.previous.lexeme.as_str());
        let ghost given = converted;
        self.emit_number(converted);
        proof {
            let text = old(self).previous.lexeme@;
            let before = old(self).chunk@;
            let after = self.chunk@;
            match given {
                Some(value) => {
                    assert(yields(*number, text, value));
                    assert(readable(*number).contains(text));
                    if !old(self).had_error && old(self).count() < MAX_CONSTANTS {
                        let n = before.constants.len() as int;
                        assert(after.constants.take(n) =~= before.constants);
                        assert(after.code =~= before.code + seq![encode(OpCode::Constant), n as u8]);
                        assert(after.lines =~= before.lines + seq![self.previous.line, self.previous.line]);
                    }
                },
                None => {
                    assert(refuses(*number, text));
                },
            }
        }
    }

    /// Goes on with the number that was just read, where `converted` is what
    /// the host's conversion gave for it: reports that the conversion failed, or
    /// emits the constant.
    fn emit_number(&mut self, converted: Option<V>)
        requires
            old(self).sound(),
        ensures
            final(self).noted(old(self), converted),
    {
        match converted {
            Some(value) => {
                self.emit_constant(value);
            },
            None => {
                self.error("Could not parse number.");
            },
        }
    }

    /// Puts `value` into the pool and emits the instruction that loads it, or
    /// reports that the pool is full.
    fn emit_constant(&mut self, value: V)
        requires
            old(self).sound(),
        ensures
            final(self).sound(),
            final(self).current == old(self).current,
            final(self).previous == old(self).previous,
            final(self).scanner == old(self).scanner,
            final(self).at == old(self).at,
            final(self).keeps_error(old(self)),
            old(self).count() < MAX_CONSTANTS ==> {
                &&& final(self).had_error == old(self).had_error
                &&& final(self).chunk@.constants == old(self).chunk@.constants.push(value)
                &&& final(self).chunk@.code == old(self).chunk@.code.push(encode(OpCode::Constant)).push(
                    old(self).count() as u8,
                )
                &&& final(self).chunk@.lines == old(self).chunk@.lines.push(old(self).previous.line).push(
                    old(self).previous.line,
                )
            },
            old(self).count() >= MAX_CONSTANTS ==> {
                &&& final(self).had_error
                &&& final(self).chunk@ == old(self).chunk@
                &&& !old(self).had_error ==> final(self).reported() == Some(
                    report(old(self).previous@, "Too many constants in one chunk."@),
                )
            },
    {
        match self.chunk.add_constant(value) {
            Some(constant) => {
                self.emit_bytes(OpCode::Constant.to_u8(), constant);
            },
            None => {
                self.error("Too many constants in one chunk.");
            },
        }
    }

    /// Compiles what stands between the `(` that was just read and its `)`.
    fn grouping<P: Fn(&str) -> Option<V>>(&mut self, number: &P)
        requires
            old(self).inv(),
            reads_numerals(*number),
        ensures
            ({
                let parsed = parse_prefix(
                    old(self).source(),
                    readable(*number),
                    old(self).cursor(),
                    PrefixRule::Grouping,
                    old(self).count(),
                );
                final(self).follows(
                    old(self),
                    parsed,
                    code_of(parsed->Ok_0.0, old(self).count() as int),
                    lines_of(parsed->Ok_0.0),
                    *number,
                )
            }),
        decreases old(self).remaining(), 2int,
    {
        self.expression(number);
        self.consume(TokenType::RightParen, "Expect ')' after expression.");
    }

    /// Compiles the operand of the `-` that was just read, then the negation.
    fn unary<P: Fn(&str) -> Option<V>>(&mut self, number: &P)
        requires
            old(self).inv(),
            old(self).previous.token_type == TokenType::Minus,
            reads_numerals(*number),
        ensures
            ({
                let parsed = parse_prefix(
                    old(self).source(),
                    readable(*number),
                    old(self).cursor(),
                    PrefixRule::Unary,
                    old(self).count(),
                );
                final(self).follows(
                    old(self),
                    parsed,
                    code_of(parsed->Ok_0.0, old(self).count() as int),
                    lines_of(parsed->Ok_0.0),
                    *number,
                )
            }),
        decreases old(self).remaining(), 1int,
    {
        let operator_type = self.previous.token_type;
        // Compile the operand.
        self.parse_precedence(Precedence::Unary, number);
        // Emit the operator instruction.
        match operator_type {
            TokenType::Minus => self.emit_byte(OpCode::Negate.to_u8()),
            _ => {},
        }
    }

    /// Compiles the right operand of the binary operator that was just
    /// read, then the operation.
    fn binary<P: Fn(&str) -> Option<V>>(&mut self, number: &P)
        requires
            old(self).inv(),
            rule_of(old(self).previous.token_type).infix is Some,
            reads_numerals(*number),
        ensures
            ({
                let parsed = parse_precedence(
                    old(self).source(),
                    readable(*number),
                    old(self).cursor(),
                    rule_of(old(self).previous.token_type).precedence.tighter(),
                    old(self).count(),
                );
                final(self).follows(
                    old(self),
                    parsed,
                    code_of(parsed->Ok_0.0, old(self).count() as int).push(
                        encode(binary_op(old(self).previous.token_type).opcode()),
                    ),
                    lines_of(parsed->Ok_0.0).push(parsed->Ok_0.1.previous.line),
                    *number,
                )
            }),
        decreases old(self).remaining(), 1int,
    {
        let operator_type = self.previous.token_type;
        let rule = get_rule(operator_type);
        self.parse_precedence(rule.precedence.next(), number);
        match operator_type {
            TokenType::Plus => self.emit_byte(OpCode::Add.to_u8()),
            TokenType::Minus => self.emit_byte(OpCode::Subtract.to_u8()),
            TokenType::Star => self.emit_byte(OpCode::Multiply.to_u8()),
            TokenType::Slash => self.emit_byte(OpCode::Divide.to_u8()),
            _ => {},
        }
        proof {
            if !old(self).had_error && !self.had_error {
                if let Ok((e, c)) = parse_precedence(
                    old(self).source(),
                    readable(*number),
                    old(self).cursor(),
                    rule.precedence.tighter(),
                    old(self).count(),
                ) {
                    let n = old(self).count() as int;
                    assert(self.chunk@.code =~= old(self).chunk@.code + code_of(e, n).push(
                        encode(binary_op(operator_type).opcode()),
                    ));
                }
            }
        }
    }

    fn expression<P: Fn(&str) -> Option<V>>(&mut self, number: &P)
        requires
            old(self).inv(),
            reads_numerals(*number),
        ensures
            ({
                let parsed = parse_precedence(
                    old(self).source(),
                    readable(*number),
                    old(self).cursor(),
                    Precedence::Assignment,
                    old(self).count(),
                );
                final(self).follows(
                    old(self),
                    parsed,
                    code_of(parsed->Ok_0.0, old(self).count() as int),
                    lines_of(parsed->Ok_0.0),
                    *number,
                )
            }),
        decreases old(self).remaining(), 1int,
    {
        self.parse_precedence(Precedence::Assignment, number);
    }

    /// Compiles one expression whose operators all bind at least as tightly
    /// as `precedence`.
    fn parse_precedence<P: Fn(&str) -> Option<V>>(&mut self, precedence: Precedence, number: &P)
        requires
            old(self).inv(),
            precedence != Precedence::Lowest,
            reads_numerals(*number),
        ensures
            ({
                let parsed = parse_precedence(
                    old(self).source(),
                    readable(*number),
                    old(self).cursor(),
                    precedence,
                    old(self).count(),
                );
                final(self).follows(
                    old(self),
                    parsed,
                    code_of(parsed->Ok_0.0, old(self).count() as int),
                    lines_of(parsed->Ok_0.0),
                    *number,
                )
            }),
            // A token that begins no expression is reported, and nothing is emitted.
            rule_of(old(self).current.token_type).prefix is None ==> {
                &&& final(self).had_error
                &&& final(self).chunk == old(self).chunk
                &&& !old(self).had_error && !(scan(old(self).source(), old(self).scanner.position()).token.kind
                    == TokenType::Error) ==> final(self).reported() == Some(
                    report(old(self).current@, "Expect expression."@),
                )
            },
        decreases old(self).remaining(), 0int,
    {
        let ghost src = self.source();
        let ghost base = self.count();
        let ghost goal = parse_precedence(src, readable(*number), self.cursor(), precedence, base);
        proof {
            if !self.had_error {
                lemma_advance(src, self.cursor());
            }
        }
        self.advance();
        let ghost c1 = self.cursor();
        let prefix = get_rule(self.previous.token_type).prefix;
        proof {
            self.scanner.lemma_wf_bounds();
            if !self.had_error {
                if let Some(rule) = prefix {
                    lemma_parse_prefix(src, readable(*number), c1, rule, base);
                }
            }
        }
        match prefix {
            Some(PrefixRule::Grouping) => self.grouping(number),
            Some(PrefixRule::Unary) => self.unary(number),
            Some(PrefixRule::Number) => self.number(number),
            None => {
                self.error("Expect expression.");
                return;
            },
        }
        let ghost mut left: Expr = parse_prefix(src, readable(*number), c1, prefix->Some_0, base)->Ok_0.0;
        while precedence.order() <= get_rule(self.current.token_type).precedence.order()
            invariant
                self.inv(),
                self.source() == src,
                src == old(self).source(),
                base == old(self).count(),
                self.remaining() <= old(self).remaining(),
                self.keeps_error(old(self)),
                precedence != Precedence::Lowest,
                reads_numerals(*number),
                goal == parse_precedence(src, readable(*number), old(self).cursor(), precedence, base),
                !old(self).had_error && self.had_error ==> {
                    &&& self.reported() matches Some(d)
                    &&& goal == Err::<(Expr, Cursor), DiagnosticView>(d) || wavers(*number, d)
                },
                !old(self).had_error && !self.had_error ==> {
                    &&& goal == parse_infix(
                        src,
                        readable(*number),
                        self.cursor(),
                        precedence,
                        left,
                        self.count(),
                    )
                    &&& appended(
                        old(self).chunk@,
                        self.chunk@,
                        code_of(left, base as int),
                        lines_of(left),
                        literals(left),
                        *number,
                    )
                },
            decreases self.remaining(),
        {
            let ghost before = *self;
            proof {
                if !self.had_error {
                    lemma_advance(src, self.cursor());
                }
            }
            self.advance();
            let ghost c2 = self.cursor();
            proof {
                self.scanner.lemma_wf_bounds();
                if !self.had_error {
                    lemma_parse_precedence(
                        src,
                        readable(*number),
                        c2,
                        rule_of(self.previous.token_type).precedence.tighter(),
                        self.count(),
                    );
                }
            }
            match get_rule(self.previous.token_type).infix {
                Some(InfixRule::Binary) => self.binary(number),
                None => {},
            }
            proof {
                self.scanner.lemma_wf_bounds();
                if !old(self).had_error && !self.had_error {
                    let op = c2.previous.kind;
                    let parsed = parse_precedence(
                        src,
                        readable(*number),
                        c2,
                        rule_of(op).precedence.tighter(),
                        before.count(),
                    );
                    let right = parsed->Ok_0.0;
                    let joined = Expr::Binary {
                        op: binary_op(op),
                        left: Box::new(left),
                        right: Box::new(right),
                        line: parsed->Ok_0.1.previous.line,
                    };
                    lemma_appended_twice(
                        old(self).chunk@,
                        before.chunk@,
                        self.chunk@,
                        code_of(left, base as int),
                        lines_of(left),
                        literals(left),
                        code_of(right, before.count() as int).push(encode(binary_op(op).opcode())),
                        lines_of(right).push(parsed->Ok_0.1.previous.line),
                        literals(right),
                        *number,
                    );
                    assert(code_of(joined, base as int) =~= code_of(left, base as int) + code_of(
                        right,
                        before.count() as int,
                    ).push(encode(binary_op(op).opcode())));
                    assert(lines_of(joined) =~= lines_of(left) + lines_of(right).push(
                        parsed->Ok_0.1.previous.line,
                    ));
                    left = joined;
                }
            }
        }
    }

    /// Leaves panic mode: errors are reported again. The parser comes here
    /// when the one expression of the source has been parsed. That an error was
    /// met is not forgotten.
    fn synchronize(&mut self)
        ensures
            !final(self).panic_mode,
            final(self).had_error == old(self).had_error,
            final(self).diagnostic == old(self).diagnostic,
            final(self).flagged(old(self)),
    {
        self.panic_mode = false;
    }

    fn error_at_current(&mut self, message: &str)
        requires
            old(self).flags_agree(),
        ensures
            final(self).flagged(old(self)),
            final(self).flags_agree(),
            final(self).had_error,
            final(self).keeps_error(old(self)),
            !old(self).had_error ==> final(self).reported() == Some(report(old(self).current@, message@)),
    {
        let token = self.current.clone();
        self.error_at(&token, message);
    }

    fn error(&mut self, message: &str)
        requires
            old(self).flags_agree(),
        ensures
            final(self).flagged(old(self)),
            final(self).flags_agree(),
            final(self).had_error,
            final(self).keeps_error(old(self)),
            !old(self).had_error ==> final(self).reported() == Some(report(old(self).previous@, message@)),
    {
        let token = self.previous.clone();
        self.error_at(&token, message);
    }

    /// Reports `message` at `token`, unless an error was reported before:
    /// then this one is suppressed.
    fn error_at(&mut self, token: &Token, message: &str)
        requires
            old(self).flags_agree(),
        ensures
            final(self).flagged(old(self)),
            final(self).flags_agree(),
            final(self).had_error,
            final(self).keeps_error(old(self)),
            !old(self).had_error ==> final(self).reported() == Some(report(token@, message@)),
    {
        if self.panic_mode {
            return;
        }
        self.panic_mode = true;
        let place = match token.token_type {
            TokenType::EOF => Place::End,
            TokenType::Error => Place::Unplaced,
            _ => Place::Lexeme(token.lexeme.clone()),
        };
        self.diagnostic = Some(Diagnostic { line: token.line, place, message: message.to_owned() });
        self.had_error = true;
    }
}

/// Compiles the expression that `source` holds. `number` converts each
/// numeral of the source to the constant it stands for, or fails on it.
///
/// The result is the chunk for the expression, ending in `Return`, or the
/// first error that the source gives rise to. A chunk is returned only for a
/// source that compiles, and it is the program of that source. An error is the
/// error of the source, unless the host's conversion has wavered: has failed
/// on a numeral that it can also convert. A conversion that decides by the text
/// never does, so with it a source that compiles gives its chunk.
pub fn compile<V, P: Fn(&str) -> Option<V>>(source: &Vec<char>, number: &P) -> (result: Result<
    Chunk<V>,
    Diagnostic,
>)
    requires
        source@.len() < i32::MAX,
        reads_numerals(*number),
    ensures
        match result {
            Ok(chunk) => {
                &&& compiled(source@, readable(*number)) matches Ok(program)
                &&& chunk.wf()
                &&& chunk@.code == program.code
                &&& chunk@.lines == program.lines
                &&& converted(*number, program.literals, chunk@.constants)
            },
            Err(reported) => {
                &&& compiled(source@, readable(*number)) == Err::<Program, DiagnosticView>(reported@)
                    || wavers(*number, reported@)
                &&& decides(*number) ==> compiled(source@, readable(*number)) == Err::<
                    Program,
                    DiagnosticView,
                >(reported@)
            },
        },
{
    let mut parser: Parser<'_, V> = Parser::new(source);
    proof {
        lemma_compiled_by_climbing(source@, readable(*number));
    }
    parser.advance();
    if parser.had_error {
        return Err(parser.diagnostic.unwrap());
    }
    parser.expression(number);
    parser.consume(TokenType::EOF, "Expect end of expression.");
    parser.synchronize();
    parser.end_compiler();
    if parser.had_error {
        proof {
            if decides(*number) {
                lemma_decides(*number, parser.reported()->Some_0);
            }
        }
        Err(parser.diagnostic.unwrap())
    } else {
        proof {
            assert(parser.chunk@.constants.skip(0) =~= parser.chunk@.constants);
        }
        Ok(parser.chunk)
    }
}

} // verus!
