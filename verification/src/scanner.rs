//! The lexer: source text to tokens.
use vstd::prelude::*;

verus! {

/// The kind of a token.
#[derive(Debug, PartialEq, Eq, Hash, Clone, Copy, Structural)]
pub enum TokenType {
    // Single-character tokens.
    LeftParen,
    RightParen,
    LeftBrace,
    RightBrace,
    Comma,
    Dot,
    Minus,
    Plus,
    Semicolon,
    Slash,
    Star,
    // One or two character tokens.
    Bang,
    BangEqual,
    Equal,
    EqualEqual,
    Greater,
    GreaterEqual,
    Less,
    LessEqual,
    // Literals.
    Identifier,
    String,
    Number,
    // Keywords.
    And,
    Class,
    Else,
    False,
    For,
    Fun,
    If,
    Nil,
    Or,
    Print,
    Return,
    Super,
    This,
    True,
    Var,
    While,
    // Sentinels.
    Error,
    EOF,
}

/// A lexical unit. An `Error` token carries its diagnostic message in place
/// of the lexeme.
#[derive(Debug)]
pub struct Token {
    pub token_type: TokenType,
    pub lexeme: String,
    pub line: i32,
}

/// What a token is, as mathematics.
pub struct TokenView {
    pub kind: TokenType,
    pub text: Seq<char>,
    pub line: i32,
}

impl View for Token {
    type V = TokenView;

    open spec fn view(&self) -> TokenView {
        TokenView { kind: self.token_type, text: self.lexeme@, line: self.line }
    }
}

/// The token that a parser holds before it has read anything.
pub open spec fn empty_token() -> TokenView {
    TokenView { kind: TokenType::Error, text: "Empty token."@, line: -1i32 }
}

impl Token {
    pub fn empty() -> (token: Token)
        ensures
            token@ == empty_token(),
    {
        Token { token_type: TokenType::Error, lexeme: "Empty token.".to_owned(), line: -1 }
    }

    pub fn clone(&self) -> (token: Token)
        ensures
            token@ == self@,
    {
        Token { token_type: self.token_type, lexeme: self.lexeme.clone(), line: self.line }
    }
}

// ---------------------------------------------------------------------------
// The lexical grammar
// ---------------------------------------------------------------------------

/// A decimal digit.
pub open spec fn is_digit_char(c: char) -> bool {
    '0' <= c && c <= '9'
}

/// A character that can begin an identifier: a letter or an underscore.
pub open spec fn is_alpha_char(c: char) -> bool {
    ('a' <= c && c <= 'z') || ('A' <= c && c <= 'Z') || c == '_'
}

/// A character that separates tokens and is part of none.
pub open spec fn is_blank_char(c: char) -> bool {
    c == ' ' || c == '\r' || c == '\t' || c == '\n'
}

/// The number of line breaks among the first `pos` characters.
pub open spec fn newlines_before(src: Seq<char>, pos: int) -> int
    decreases pos,
{
    if pos <= 0 || pos > src.len() {
        0
    } else {
        newlines_before(src, pos - 1) + if src[pos - 1] == '\n' {
            1int
        } else {
            0int
        }
    }
}

/// The line on which position `pos` lies; lines are counted from 1.
pub open spec fn line_at(src: Seq<char>, pos: int) -> int {
    1 + newlines_before(src, pos)
}

/// The stretches of like characters that the lexer walks over.
pub enum Run {
    /// decimal digits
    Digits,
    /// letters, digits and underscores
    Word,
    /// anything up to the end of the line
    Comment,
    /// anything up to a closing quote
    Quoted,
}

/// Whether `c` can stand in the run `run`.
pub open spec fn in_run(run: Run, c: char) -> bool {
    match run {
        Run::Digits => is_digit_char(c),
        Run::Word => is_alpha_char(c) || is_digit_char(c),
        Run::Comment => c != '\n',
        Run::Quoted => c != '"',
    }
}

/// The first position at or after `from` whose character is not in `run`,
/// or the length of the source.
pub open spec fn run_end(src: Seq<char>, from: int, run: Run) -> int
    decreases src.len() - from,
{
    if 0 <= from < src.len() && in_run(run, src[from]) {
        run_end(src, from + 1, run)
    } else {
        from
    }
}

/// A run ends inside the source, holds only characters of its kind, and
/// stops before a character of another kind.
pub proof fn lemma_run_end_bounds(src: Seq<char>, from: int, run: Run)
    requires
        0 <= from <= src.len(),
    ensures
        from <= run_end(src, from, run) <= src.len(),
        forall|i: int| from <= i < run_end(src, from, run) ==> in_run(run, #[trigger] src[i]),
        run_end(src, from, run) < src.len() ==> !in_run(run, src[run_end(src, from, run)]),
    decreases src.len() - from,
{
    if from < src.len() && in_run(run, src[from]) {
        lemma_run_end_bounds(src, from + 1, run);
    }
}

/// Whether the character at `at` is `c`.
pub open spec fn follows(src: Seq<char>, at: int, c: char) -> bool {
    0 <= at < src.len() && src[at] == c
}

/// The position after the blanks and `//` comments that begin at `from`.
pub open spec fn skip_blanks(src: Seq<char>, from: int) -> int
    decreases src.len() - from,
{
    if from < 0 || from >= src.len() {
        from
    } else if is_blank_char(src[from]) {
        skip_blanks(src, from + 1)
    } else if src[from] == '/' && follows(src, from + 1, '/') {
        proof {
            lemma_run_end_bounds(src, from + 1, Run::Comment);
        }
        skip_blanks(src, run_end(src, from, Run::Comment))
    } else {
        from
    }
}

/// The keyword that `text` spells, if it spells one.
pub open spec fn keyword(text: Seq<char>) -> Option<TokenType> {
    if text == "and"@ {
        Some(TokenType::And)
    } else if text == "class"@ {
        Some(TokenType::Class)
    } else if text == "else"@ {
        Some(TokenType::Else)
    } else if text == "false"@ {
        Some(TokenType::False)
    } else if text == "for"@ {
        Some(TokenType::For)
    } else if text == "fun"@ {
        Some(TokenType::Fun)
    } else if text == "if"@ {
        Some(TokenType::If)
    } else if text == "nil"@ {
        Some(TokenType::Nil)
    } else if text == "or"@ {
        Some(TokenType::Or)
    } else if text == "print"@ {
        Some(TokenType::Print)
    } else if text == "return"@ {
        Some(TokenType::Return)
    } else if text == "super"@ {
        Some(TokenType::Super)
    } else if text == "this"@ {
        Some(TokenType::This)
    } else if text == "true"@ {
        Some(TokenType::True)
    } else if text == "var"@ {
        Some(TokenType::Var)
    } else if text == "while"@ {
        Some(TokenType::While)
    } else {
        None
    }
}

/// The kind of a word: that of the keyword it spells, else `Identifier`.
pub open spec fn word_kind(text: Seq<char>) -> TokenType {
    match keyword(text) {
        Some(kind) => kind,
        None => TokenType::Identifier,
    }
}

/// A token together with the position at which the lexer stands after it.
pub struct Scanned {
    pub token: TokenView,
    pub end: int,
}

/// The token of kind `kind` that spans `start..end`.
pub open spec fn lexeme(src: Seq<char>, kind: TokenType, start: int, end: int) -> Scanned {
    Scanned {
        token: TokenView { kind, text: src.subrange(start, end), line: line_at(src, end) as i32 },
        end,
    }
}

/// The error token with `message` that leaves the lexer at `end`.
pub open spec fn fault(src: Seq<char>, message: Seq<char>, end: int) -> Scanned {
    Scanned {
        token: TokenView { kind: TokenType::Error, text: message, line: line_at(src, end) as i32 },
        end,
    }
}

/// The message of the error token for a character that begins no token.
pub open spec fn unexpected_character(c: char) -> Seq<char> {
    "Unexpected character: "@.push(c).push('.')
}

/// The kind of the operator that begins with `c`, by whether `=` follows it.
pub open spec fn operator_kind(c: char, doubled: bool) -> Option<TokenType> {
    if c == '!' {
        Some(if doubled { TokenType::BangEqual } else { TokenType::Bang })
    } else if c == '=' {
        Some(if doubled { TokenType::EqualEqual } else { TokenType::Equal })
    } else if c == '<' {
        Some(if doubled { TokenType::LessEqual } else { TokenType::Less })
    } else if c == '>' {
        Some(if doubled { TokenType::GreaterEqual } else { TokenType::Greater })
    } else {
        None
    }
}

/// The kind of the token that the single character `c` makes up.
pub open spec fn punctuation_kind(c: char) -> Option<TokenType> {
    if c == '(' {
        Some(TokenType::LeftParen)
    } else if c == ')' {
        Some(TokenType::RightParen)
    } else if c == '{' {
        Some(TokenType::LeftBrace)
    } else if c == '}' {
        Some(TokenType::RightBrace)
    } else if c == ';' {
        Some(TokenType::Semicolon)
    } else if c == ',' {
        Some(TokenType::Comma)
    } else if c == '.' {
        Some(TokenType::Dot)
    } else if c == '-' {
        Some(TokenType::Minus)
    } else if c == '+' {
        Some(TokenType::Plus)
    } else if c == '/' {
        Some(TokenType::Slash)
    } else if c == '*' {
        Some(TokenType::Star)
    } else {
        None
    }
}

/// Where the numeral that begins at `start` ends: after its digits, and after
/// a fraction if a point and a digit follow them.
pub open spec fn number_end(src: Seq<char>, start: int) -> int {
    let whole = run_end(src, start, Run::Digits);
    if follows(src, whole, '.') && whole + 1 < src.len() && is_digit_char(src[whole + 1]) {
        run_end(src, whole + 1, Run::Digits)
    } else {
        whole
    }
}

/// The token that begins exactly at `start`.
pub open spec fn token_at(src: Seq<char>, start: int) -> Scanned {
    if start < 0 || start >= src.len() {
        lexeme(src, TokenType::EOF, start, start)
    } else {
        let c = src[start];
        if let Some(kind) = punctuation_kind(c) {
            lexeme(src, kind, start, start + 1)
        } else if let Some(kind) = operator_kind(c, follows(src, start + 1, '=')) {
            lexeme(src, kind, start, if follows(src, start + 1, '=') { start + 2 } else { start + 1 })
        } else if c == '"' {
            let close = run_end(src, start + 1, Run::Quoted);
            if close >= src.len() {
                fault(src, "Unterminated string."@, src.len() as int)
            } else {
                lexeme(src, TokenType::String, start, close + 1)
            }
        } else if is_alpha_char(c) {
            let end = run_end(src, start, Run::Word);
            lexeme(src, word_kind(src.subrange(start, end)), start, end)
        } else if is_digit_char(c) {
            lexeme(src, TokenType::Number, start, number_end(src, start))
        } else {
            fault(src, unexpected_character(c), start + 1)
        }
    }
}

/// The next token at or after `from`, once blanks and comments are skipped.
#[verifier::opaque]
pub open spec fn scan(src: Seq<char>, from: int) -> Scanned {
    token_at(src, skip_blanks(src, from))
}

// ---------------------------------------------------------------------------
// Facts about the lexical grammar
// ---------------------------------------------------------------------------

/// A line break, and nothing else, begins a new line.
pub proof fn lemma_line_step(src: Seq<char>, pos: int)
    requires
        0 <= pos < src.len(),
    ensures
        line_at(src, pos + 1) == line_at(src, pos) + if src[pos] == '\n' {
            1int
        } else {
            0int
        },
{
}

/// Lines never go back: a later position lies on the same or a later line.
pub proof fn lemma_line_monotonic(src: Seq<char>, from: int, to: int)
    requires
        0 <= from <= to <= src.len(),
    ensures
        1 <= line_at(src, from) <= line_at(src, to) <= 1 + to,
    decreases to,
{
    if from < to {
        lemma_line_monotonic(src, from, to - 1);
    } else if 0 < to {
        lemma_line_monotonic(src, 0, to - 1);
    }
}

/// Skipping blanks goes forward, to the end of the source or to a
/// character that is no blank; skipping again goes no further.
pub proof fn lemma_skip_blanks_bounds(src: Seq<char>, from: int)
    requires
        0 <= from <= src.len(),
    ensures
        from <= skip_blanks(src, from) <= src.len(),
        skip_blanks(src, skip_blanks(src, from)) == skip_blanks(src, from),
        skip_blanks(src, from) < src.len() ==> !is_blank_char(src[skip_blanks(src, from)]),
    decreases src.len() - from,
{
    if from < src.len() {
        if is_blank_char(src[from]) {
            lemma_skip_blanks_bounds(src, from + 1);
        } else if src[from] == '/' && follows(src, from + 1, '/') {
            lemma_run_end_bounds(src, from + 1, Run::Comment);
            lemma_skip_blanks_bounds(src, run_end(src, from, Run::Comment));
        }
    }
}

/// Every token but `EOF` takes up at least one character of the source.
pub proof fn lemma_scan_advances(src: Seq<char>, from: int)
    ensures
        scan(src, from).token.kind != TokenType::EOF ==> 0 <= from < scan(src, from).end <= src.len(),
{
    reveal(scan);
    if 0 <= from < src.len() {
        lemma_skip_blanks_bounds(src, from);
        let start = skip_blanks(src, from);
        if start < src.len() {
            lemma_run_end_bounds(src, start + 1, Run::Quoted);
            lemma_run_end_bounds(src, start, Run::Word);
            lemma_run_end_bounds(src, start, Run::Digits);
            let whole = run_end(src, start, Run::Digits);
            if whole + 1 < src.len() {
                lemma_run_end_bounds(src, whole + 1, Run::Digits);
            }
        }
    }
}

/// The lexer never goes back, and `EOF` comes only at the end of the source,
/// where it comes again and again.
pub proof fn lemma_scan_progress(src: Seq<char>, from: int)
    requires
        0 <= from <= src.len(),
    ensures
        from <= scan(src, from).end <= src.len(),
        scan(src, from).token.kind == TokenType::EOF ==> scan(src, from).end == src.len() && scan(
            src,
            scan(src, from).end,
        ) == scan(src, from),
{
    reveal(scan);
    lemma_scan_advances(src, from);
    lemma_skip_blanks_bounds(src, from);
}

/// A token lies on the line on which it ends, and no token lies on an
/// earlier line than the position from which it was read.
pub proof fn lemma_token_line(src: Seq<char>, from: int)
    requires
        0 <= from <= src.len() < i32::MAX,
    ensures
        scan(src, from).token.line == line_at(src, scan(src, from).end),
        line_at(src, from) <= scan(src, from).token.line,
{
    reveal(scan);
    lemma_scan_progress(src, from);
    lemma_line_monotonic(src, from, scan(src, from).end);
}

/// Tokens come in the order of their lines: the token after a token lies on
/// the same line or on a later one.
pub proof fn lemma_token_lines_ascend(src: Seq<char>, from: int)
    requires
        0 <= from <= src.len() < i32::MAX,
    ensures
        scan(src, from).token.line <= scan(src, scan(src, from).end).token.line,
{
    lemma_scan_progress(src, from);
    lemma_token_line(src, from);
    lemma_token_line(src, scan(src, from).end);
}

/// Whether `text` is a numeral whose digits before the point number `whole`.
pub open spec fn is_numeral_split(text: Seq<char>, whole: int) -> bool {
    &&& 0 < whole <= text.len()
    &&& forall|i: int| 0 <= i < whole ==> is_digit_char(#[trigger] text[i])
    &&& whole < text.len() ==> {
        &&& whole + 1 < text.len()
        &&& text[whole] == '.'
        &&& forall|i: int| whole < i < text.len() ==> is_digit_char(#[trigger] text[i])
    }
}

/// A numeral: digits, and perhaps a point and more digits.
pub open spec fn is_numeral(text: Seq<char>) -> bool {
    exists|whole: int| #[trigger] is_numeral_split(text, whole)
}

/// The text of a `Number` token is a numeral.
pub proof fn lemma_number_is_numeral(src: Seq<char>, from: int)
    requires
        0 <= from <= src.len(),
        scan(src, from).token.kind == TokenType::Number,
    ensures
        is_numeral(scan(src, from).token.text),
{
    reveal(scan);
    lemma_skip_blanks_bounds(src, from);
    let start = skip_blanks(src, from);
    lemma_run_end_bounds(src, start, Run::Digits);
    lemma_run_end_bounds(src, start, Run::Word);
    lemma_run_end_bounds(src, start + 1, Run::Quoted);
    let whole = run_end(src, start, Run::Digits);
    let end = number_end(src, start);
    if end != whole {
        lemma_run_end_bounds(src, whole + 1, Run::Digits);
    }
    let text = src.subrange(start, end);
    assert(is_numeral_split(text, whole - start));
}

// ---------------------------------------------------------------------------
// The scanner
// ---------------------------------------------------------------------------

/// `String::push`: puts one character at the end of the string.
#[verifier::external_body]
fn push_char(text: &mut String, c: char)
    ensures
        final(text)@ == old(text)@.push(c),
{
    text.push(c)
}

/// A forward-only reader of tokens over one source text.
pub struct Scanner<'a> {
    source: &'a Vec<char>,
    start: usize,
    current: usize,
    line: i32,
}

impl<'a> Scanner<'a> {
    /// The text that is being read.
    pub closed spec fn source(&self) -> Seq<char> {
        self.source@
    }

    /// How many characters have been read.
    pub closed spec fn position(&self) -> int {
        self.current as int
    }

    /// The scanner stands inside its source and knows its line.
    pub closed spec fn wf(&self) -> bool {
        &&& self.within()
        &&& self.line == line_at(self.source@, self.current as int)
    }

    /// A well-formed scanner stands inside a source whose lines an `i32` can count.
    pub proof fn lemma_wf_bounds(&self)
        requires
            self.wf(),
        ensures
            0 <= self.position() <= self.source().len() < i32::MAX,
    {
    }

    spec fn within(&self) -> bool {
        &&& self.start <= self.current <= self.source@.len()
        &&& self.source@.len() < i32::MAX
    }

    spec fn moved(&self, before: &Self) -> bool {
        &&& self.source == before.source
        &&& self.start == before.start
        &&& self.line == before.line
    }

    pub fn new(source: &'a Vec<char>) -> (scanner: Scanner<'a>)
        requires
            source@.len() < i32::MAX,
        ensures
            scanner.wf(),
            scanner.source() == source@,
            scanner.position() == 0,
    {
        Scanner { source, start: 0, current: 0, line: 1 }
    }

    /// Reads the next token. It never goes back in the source, and every
    /// token but `EOF` takes it forward. At the end of the source it yields
    /// `EOF`, as often as it is asked.
    pub fn scan_token(&mut self) -> (token: Token)
        requires
            old(self).wf(),
        ensures
            final(self).wf(),
            final(self).source() == old(self).source(),
            token@ == scan(old(self).source(), old(self).position()).token,
            final(self).position() == scan(old(self).source(), old(self).position()).end,
            old(self).position() <= final(self).position() <= final(self).source().len(),
            token.token_type != TokenType::EOF ==> old(self).position() < final(self).position(),
    {
        proof {
            lemma_scan_progress(old(self).source@, old(self).current as int);
            lemma_scan_advances(old(self).source@, old(self).current as int);
        }
        self.skip_whitespace();
        self.start = self.current;
        proof {
            reveal(scan);
            lemma_skip_blanks_bounds(old(self).source@, old(self).current as int);
        }
        if self.is_at_end() {
            return self.make_token(TokenType::EOF);
        }
        let c = self.advance();
        proof {
            lemma_line_step(self.source@, self.start as int);
            if self.current < self.source@.len() {
                lemma_line_step(self.source@, self.current as int);
            }
        }
        if c == '(' {
            self.make_token(TokenType::LeftParen)
        } else if c == ')' {
            self.make_token(TokenType::RightParen)
        } else if c == '{' {
            self.make_token(TokenType::LeftBrace)
        } else if c == '}' {
            self.make_token(TokenType::RightBrace)
        } else if c == ';' {
            self.make_token(TokenType::Semicolon)
        } else if c == ',' {
            self.make_token(TokenType::Comma)
        } else if c == '.' {
            self.make_token(TokenType::Dot)
        } else if c == '-' {
            self.make_token(TokenType::Minus)
        } else if c == '+' {
            self.make_token(TokenType::Plus)
        } else if c == '/' {
            self.make_token(TokenType::Slash)
        } else if c == '*' {
            self.make_token(TokenType::Star)
        } else if c == '!' {
            if self.match_char('=') {
                self.make_token(TokenType::BangEqual)
            } else {
                self.make_token(TokenType::Bang)
            }
        } else if c == '=' {
            if self.match_char('=') {
                self.make_token(TokenType::EqualEqual)
            } else {
                self.make_token(TokenType::Equal)
            }
        } else if c == '<' {
            if self.match_char('=') {
                self.make_token(TokenType::LessEqual)
            } else {
                self.make_token(TokenType::Less)
            }
        } else if c == '>' {
            if self.match_char('=') {
                self.make_token(TokenType::GreaterEqual)
            } else {
                self.make_token(TokenType::Greater)
            }
        } else if c == '"' {
            self.make_string()
        } else if self.is_alpha(c) {
            self.make_identifier()
        } else if self.is_digit(c) {
            self.make_number()
        } else {
            let mut message = "Unexpected character: ".to_owned();
            push_char(&mut message, c);
            push_char(&mut message, '.');
            self.error_token(message.as_str())
        }
    }

    fn is_at_end(&self) -> (at_end: bool)
        ensures
            at_end == (self.current >= self.source@.len()),
    {
        self.current >= self.source.len()
    }

    fn make_token(&self, token_type: TokenType) -> (token: Token)
        requires
            self.within(),
        ensures
            token@ == (TokenView {
                kind: token_type,
                text: self.source@.subrange(self.start as int, self.current as int),
                line: self.line,
            }),
    {
        let mut lexeme = String::new();
        let mut i = self.start;
        while i < self.current
            invariant
                self.within(),
                self.start <= i <= self.current,
                lexeme@ == self.source@.subrange(self.start as int, i as int),
            decreases self.current - i,
        {
            push_char(&mut lexeme, self.source[i]);
            i += 1;
        }
        Token { token_type, lexeme, line: self.line }
    }

    fn error_token(&self, message: &str) -> (token: Token)
        ensures
            token@ == (TokenView { kind: TokenType::Error, text: message@, line: self.line }),
    {
        Token { token_type: TokenType::Error, lexeme: message.to_owned(), line: self.line }
    }

    fn advance(&mut self) -> (c: char)
        requires
            old(self).within(),
            old(self).current < old(self).source@.len(),
        ensures
            final(self).within(),
            final(self).moved(old(self)),
            final(self).current == old(self).current + 1,
            c == old(self).source@[old(self).current as int],
    {
        self.current += 1;
        self.source[self.current - 1]
    }

    fn match_char(&mut self, expected: char) -> (matched: bool)
        requires
            old(self).within(),
        ensures
            final(self).within(),
            final(self).moved(old(self)),
            matched == follows(old(self).source@, old(self).current as int, expected),
            final(self).current == old(self).current + if matched {
                1int
            } else {
                0int
            },
    {
        if self.is_at_end() {
            return false;
        }
        if self.source[self.current] != expected {
            return false;
        }
        self.current += 1;
        true
    }

    fn skip_whitespace(&mut self)
        requires
            old(self).wf(),
        ensures
            final(self).wf(),
            final(self).source == old(self).source,
            final(self).current == skip_blanks(old(self).source@, old(self).current as int),
    {
        while !self.is_at_end()
            invariant
                self.wf(),
                self.source == old(self).source,
                skip_blanks(self.source@, self.current as int) == skip_blanks(
                    old(self).source@,
                    old(self).current as int,
                ),
            ensures
                self.wf(),
                self.source == old(self).source,
                self.current == skip_blanks(old(self).source@, old(self).current as int),
            decreases self.source@.len() - self.current,
        {
            let c = self.peek();
            proof {
                lemma_line_step(self.source@, self.current as int);
                lemma_line_monotonic(self.source@, 0, self.current as int + 1);
            }
            if c == ' ' || c == '\r' || c == '\t' {
                self.advance();
            } else if c == '\n' {
                self.line += 1;
                self.advance();
            } else if c == '/' && self.peek_next() == '/' {
                proof {
                    lemma_run_end_bounds(self.source@, self.current + 1, Run::Comment);
                }
                self.skip_comment();
            } else {
                break;
            }
        }
    }

    /// Skips to the end of the line.
    fn skip_comment(&mut self)
        requires
            old(self).wf(),
        ensures
            final(self).wf(),
            final(self).moved(old(self)),
            final(self).current == run_end(old(self).source@, old(self).current as int, Run::Comment),
    {
        while self.peek() != '\n' && !self.is_at_end()
            invariant
                self.wf(),
                self.moved(old(self)),
                run_end(self.source@, self.current as int, Run::Comment) == run_end(
                    old(self).source@,
                    old(self).current as int,
                    Run::Comment,
                ),
            decreases self.source@.len() - self.current,
        {
            proof {
                lemma_line_step(self.source@, self.current as int);
            }
            self.advance();
        }
    }

    fn peek(&self) -> (c: char)
        requires
            self.within(),
        ensures
            c == if self.current < self.source@.len() {
                self.source@[self.current as int]
            } else {
                '\0'
            },
    {
        if self.is_at_end() {
            return '\0';
        }
        self.source[self.current]
    }

    fn peek_next(&self) -> (c: char)
        requires
            self.within(),
        ensures
            c == if self.current + 1 < self.source@.len() {
                self.source@[self.current + 1]
            } else {
                '\0'
            },
    {
        if self.is_at_end() || self.current + 1 >= self.source.len() {
            return '\0';
        }
        self.source[self.current + 1]
    }

    fn make_string(&mut self) -> (token: Token)
        requires
            old(self).wf(),
            old(self).start < old(self).current,
            old(self).source@[old(self).start as int] == '"',
            old(self).current == old(self).start + 1,
        ensures
            final(self).wf(),
            final(self).source == old(self).source,
            token@ == token_at(old(self).source@, old(self).start as int).token,
            final(self).current == token_at(old(self).source@, old(self).start as int).end,
    {
        while self.peek() != '"' && !self.is_at_end()
            invariant
                self.wf(),
                self.source == old(self).source,
                self.start == old(self).start,
                run_end(self.source@, self.current as int, Run::Quoted) == run_end(
                    self.source@,
                    self.start + 1,
                    Run::Quoted,
                ),
            decreases self.source@.len() - self.current,
        {
            proof {
                lemma_line_step(self.source@, self.current as int);
                lemma_line_monotonic(self.source@, 0, self.current as int + 1);
            }
            if self.peek() == '\n' {
                self.line += 1;
            }
            self.advance();
        }
        if self.is_at_end() {
            return self.error_token("Unterminated string.");
        }
        proof {
            lemma_line_step(self.source@, self.current as int);
        }
        self.advance();
        self.make_token(TokenType::String)
    }

    fn is_digit(&self, c: char) -> (digit: bool)
        ensures
            digit == is_digit_char(c),
    {
        c >= '0' && c <= '9'
    }

    fn make_number(&mut self) -> (token: Token)
        requires
            old(self).wf(),
            old(self).current == old(self).start + 1,
            is_digit_char(old(self).source@[old(self).start as int]),
        ensures
            final(self).wf(),
            final(self).source == old(self).source,
            token@ == token_at(old(self).source@, old(self).start as int).token,
            final(self).current == token_at(old(self).source@, old(self).start as int).end,
    {
        self.skip_digits();
        // Look for a fractional part.
        if self.peek() == '.' && self.is_digit(self.peek_next()) {
            // Consume the point.
            proof {
                lemma_line_step(self.source@, self.current as int);
            }
            self.advance();
            self.skip_digits();
        }
        self.make_token(TokenType::Number)
    }

    fn skip_digits(&mut self)
        requires
            old(self).wf(),
        ensures
            final(self).wf(),
            final(self).moved(old(self)),
            final(self).current == run_end(old(self).source@, old(self).current as int, Run::Digits),
    {
        while self.is_digit(self.peek())
            invariant
                self.wf(),
                self.moved(old(self)),
                run_end(self.source@, self.current as int, Run::Digits) == run_end(
                    old(self).source@,
                    old(self).current as int,
                    Run::Digits,
                ),
            decreases self.source@.len() - self.current,
        {
            proof {
                lemma_line_step(self.source@, self.current as int);
            }
            self.advance();
        }
    }

    fn is_alpha(&self, c: char) -> (alpha: bool)
        ensures
            alpha == is_alpha_char(c),
    {
        (c >= 'a' && c <= 'z') || (c >= 'A' && c <= 'Z') || c == '_'
    }

    fn make_identifier(&mut self) -> (token: Token)
        requires
            old(self).wf(),
            old(self).current == old(self).start + 1,
            is_alpha_char(old(self).source@[old(self).start as int]),
        ensures
            final(self).wf(),
            final(self).source == old(self).source,
            token@ == token_at(old(self).source@, old(self).start as int).token,
            final(self).current == token_at(old(self).source@, old(self).start as int).end,
    {
        while self.is_alpha(self.peek()) || self.is_digit(self.peek())
            invariant
                self.wf(),
                self.moved(old(self)),
                self.start < self.current,
                run_end(self.source@, self.current as int, Run::Word) == run_end(
                    self.source@,
                    self.start as int,
                    Run::Word,
                ),
            decreases self.source@.len() - self.current,
        {
            proof {
                lemma_line_step(self.source@, self.current as int);
            }
            self.advance();
        }
        let token_type = self.identifier_type();
        self.make_token(token_type)
    }

    fn identifier_type(&self) -> (token_type: TokenType)
        requires
            self.within(),
            self.start < self.current,
        ensures
            token_type == word_kind(self.source@.subrange(self.start as int, self.current as int)),
    {
        proof {
            // The word begins as the source does at `start`: that tells the
            // keywords apart by their first characters.
            let text = self.source@.subrange(self.start as int, self.current as int);
            reveal_keywords();
            assert(text[0] == self.source@[self.start as int]);
            if text.len() > 1 {
                assert(text[1] == self.source@[self.start + 1]);
            }
        }
        let c = self.source[self.start];
        if c == 'a' {
            self.check_keyword("and", TokenType::And)
        } else if c == 'c' {
            self.check_keyword("class", TokenType::Class)
        } else if c == 'e' {
            self.check_keyword("else", TokenType::Else)
        } else if c == 'f' && self.current - self.start > 1 {
            let second = self.source[self.start + 1];
            if second == 'a' {
                self.check_keyword("false", TokenType::False)
            } else if second == 'o' {
                self.check_keyword("for", TokenType::For)
            } else if second == 'u' {
                self.check_keyword("fun", TokenType::Fun)
            } else {
                TokenType::Identifier
            }
        } else if c == 'i' {
            self.check_keyword("if", TokenType::If)
        } else if c == 'n' {
            self.check_keyword("nil", TokenType::Nil)
        } else if c == 'o' {
            self.check_keyword("or", TokenType::Or)
        } else if c == 'p' {
            self.check_keyword("print", TokenType::Print)
        } else if c == 'r' {
            self.check_keyword("return", TokenType::Return)
        } else if c == 's' {
            self.check_keyword("super", TokenType::Super)
        } else if c == 't' && self.current - self.start > 1 {
            let second = self.source[self.start + 1];
            if second == 'h' {
                self.check_keyword("this", TokenType::This)
            } else if second == 'r' {
                self.check_keyword("true", TokenType::True)
            } else {
                TokenType::Identifier
            }
        } else if c == 'v' {
            self.check_keyword("var", TokenType::Var)
        } else if c == 'w' {
            self.check_keyword("while", TokenType::While)
        } else {
            TokenType::Identifier
        }
    }

    fn check_keyword(&self, expected: &str, token_type: TokenType) -> (found: TokenType)
        requires
            self.within(),
        ensures
            found == if self.source@.subrange(self.start as int, self.current as int) == expected@ {
                token_type
            } else {
                TokenType::Identifier
            },
    {
        let length = expected.unicode_len();
        if self.current - self.start != length {
            return TokenType::Identifier;
        }
        let mut i: usize = 0;
        while i < length
            invariant
                self.within(),
                length == expected@.len(),
                self.current - self.start == length,
                i <= length,
                forall|j: int| 0 <= j < i ==> self.source@[self.start + j] == #[trigger] expected@[j],
            decreases length - i,
        {
            if self.source[self.start + i] != expected.get_char(i) {
                return TokenType::Identifier;
            }
            i += 1;
        }
        assert(self.source@.subrange(self.start as int, self.current as int) =~= expected@);
        token_type
    }
}

/// What the keywords spell.
proof fn reveal_keywords()
    ensures
        "and"@ == seq!['a', 'n', 'd'],
        "class"@ == seq!['c', 'l', 'a', 's', 's'],
        "else"@ == seq!['e', 'l', 's', 'e'],
        "false"@ == seq!['f', 'a', 'l', 's', 'e'],
        "for"@ == seq!['f', 'o', 'r'],
        "fun"@ == seq!['f', 'u', 'n'],
        "if"@ == seq!['i', 'f'],
        "nil"@ == seq!['n', 'i', 'l'],
        "or"@ == seq!['o', 'r'],
        "print"@ == seq!['p', 'r', 'i', 'n', 't'],
        "return"@ == seq!['r', 'e', 't', 'u', 'r', 'n'],
        "super"@ == seq!['s', 'u', 'p', 'e', 'r'],
        "this"@ == seq!['t', 'h', 'i', 's'],
        "true"@ == seq!['t', 'r', 'u', 'e'],
        "var"@ == seq!['v', 'a', 'r'],
        "while"@ == seq!['w', 'h', 'i', 'l', 'e'],
{
    reveal_strlit("and");
    reveal_strlit("class");
    reveal_strlit("else");
    reveal_strlit("false");
    reveal_strlit("for");
    reveal_strlit("fun");
    reveal_strlit("if");
    reveal_strlit("nil");
    reveal_strlit("or");
    reveal_strlit("print");
    reveal_strlit("return");
    reveal_strlit("super");
    reveal_strlit("this");
    reveal_strlit("true");
    reveal_strlit("var");
    reveal_strlit("while");
}

} // verus!
