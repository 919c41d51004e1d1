use vstd::prelude::*;
use vstd::string::{StrSliceExecFns, StringExecFns};

verus! {

/// The kinds of token of the language.
#[derive(Debug, Clone, Copy, PartialEq, Eq, Structural)]
pub enum TokenKind {
    // Single-character tokens
    LeftParen,
    RightParen,
    LeftBrace,
    RightBrace,
    Comma,
    Dot,
    Minus,
    Plus,
    Semicolon,
    Star,
    Slash,
    // One or two character tokens
    Bang,
    BangEquals,
    Equals,
    EqualsEquals,
    Greater,
    GreaterOrEquals,
    Less,
    LessOrEquals,
    // Literals
    Ident,
    Literal,
    // Keywords
    And,
    Else,
    False,
    Fun,
    For,
    If,
    Nil,
    Or,
    Print,
    Return,
    True,
    Var,
    Val,
    While,
    Eof,
}

/// The value that a literal token carries.
#[derive(Debug, PartialEq, Eq)]
pub enum Literal {
    /// The text between the quotes of a string literal.
    Str(String),
    /// An integer literal.
    Num(isize),
    /// A literal with a fractional part, kept as its text.
    Float(String),
}

#[derive(Debug)]
pub struct Token {
    pub kind: TokenKind,
    pub lexeme: String,
    pub literal: Option<Literal>,
    pub line: usize,
}

/// Why scanning stops.
#[derive(Debug, Clone, Copy, PartialEq, Eq, Structural)]
pub enum ScanError {
    /// A character that starts no token, on the given line.
    UnexpectedCharacter(usize),
    /// A string literal that the input ends inside, on the given line.
    UnterminatedString(usize),
    /// An integer literal too large for `isize`, on the given line.
    NumberTooLarge(usize),
}

pub open spec fn is_digit(c: char) -> bool {
    '0' <= c <= '9'
}

pub open spec fn is_alpha(c: char) -> bool {
    ('a' <= c <= 'z') || ('A' <= c <= 'Z')
}

fn is_digit_char(c: char) -> (r: bool)
    ensures
        r == is_digit(c),
{
    '0' <= c && c <= '9'
}

fn is_alpha_char(c: char) -> (r: bool)
    ensures
        r == is_alpha(c),
{
    ('a' <= c && c <= 'z') || ('A' <= c && c <= 'Z')
}

pub open spec fn all_digits(s: Seq<char>) -> bool {
    forall|i: int| 0 <= i < s.len() ==> is_digit(#[trigger] s[i])
}

/// The value of a run of decimal digits.
pub open spec fn digits_value(s: Seq<char>) -> int
    decreases s.len(),
{
    if s.len() == 0 {
        0
    } else {
        digits_value(s.drop_last()) * 10 + (s.last() as int - '0' as int)
    }
}

/// Whether two strings hold the same characters.
pub fn str_eq(a: &str, b: &str) -> (r: bool)
    ensures
        r == (a@ == b@),
{
    let n = a.unicode_len();
    if n != b.unicode_len() {
        return false;
    }
    let mut i: usize = 0;
    while i < n
        invariant
            n == a@.len(),
            n == b@.len(),
            i <= n,
            forall|j: int| 0 <= j < i ==> a@[j] == b@[j],
        decreases n - i,
    {
        if a.get_char(i) != b.get_char(i) {
            return false;
        }
        i = i + 1;
    }
    assert(a@ =~= b@);
    true
}

/// The keyword that `text` spells, or `Ident`.
fn keyword(text: &str) -> (r: TokenKind)
    ensures
        r == keyword_kind(text@),
{
    if str_eq(text, "and") {
        TokenKind::And
    } else if str_eq(text, "else") {
        TokenKind::Else
    } else if str_eq(text, "false") {
        TokenKind::False
    } else if str_eq(text, "for") {
        TokenKind::For
    } else if str_eq(text, "fun") {
        TokenKind::Fun
    } else if str_eq(text, "if") {
        TokenKind::If
    } else if str_eq(text, "nil") {
        TokenKind::Nil
    } else if str_eq(text, "or") {
        TokenKind::Or
    } else if str_eq(text, "print") {
        TokenKind::Print
    } else if str_eq(text, "return") {
        TokenKind::Return
    } else if str_eq(text, "true") {
        TokenKind::True
    } else if str_eq(text, "var") {
        TokenKind::Var
    } else if str_eq(text, "while") {
        TokenKind::While
    } else if str_eq(text, "val") {
        TokenKind::Val
    } else {
        TokenKind::Ident
    }
}

/// An integer literal token carries the value of the digits it is made of.
pub open spec fn literal_matches_lexeme(t: Token) -> bool {
    t.literal matches Some(Literal::Num(n)) ==> all_digits(t.lexeme@) && n == digits_value(
        t.lexeme@,
    )
}

/// A token list that the parser can walk: it ends with the only `Eof`.
pub open spec fn ends_with_eof(tokens: Seq<Token>) -> bool {
    &&& tokens.len() > 0
    &&& tokens.last().kind == TokenKind::Eof
    &&& forall|i: int| 0 <= i < tokens.len() - 1 ==> (#[trigger] tokens[i]).kind != TokenKind::Eof
}

/// What a literal holds, as text.
pub ghost enum LiteralView {
    Str(Seq<char>),
    Num(isize),
    Float(Seq<char>),
}

/// What a token holds, with its text as character sequences.
pub ghost struct TokenView {
    pub kind: TokenKind,
    pub lexeme: Seq<char>,
    pub literal: Option<LiteralView>,
    pub line: usize,
}

pub open spec fn literal_view(l: Option<Literal>) -> Option<LiteralView> {
    match l {
        Some(Literal::Str(s)) => Some(LiteralView::Str(s@)),
        Some(Literal::Num(n)) => Some(LiteralView::Num(n)),
        Some(Literal::Float(s)) => Some(LiteralView::Float(s@)),
        None => None,
    }
}

pub open spec fn token_view(t: Token) -> TokenView {
    TokenView { kind: t.kind, lexeme: t.lexeme@, literal: literal_view(t.literal), line: t.line }
}

pub open spec fn tokens_view(ts: Seq<Token>) -> Seq<TokenView> {
    Seq::new(ts.len(), |i: int| token_view(ts[i]))
}

/// The character at `p`, `'\0'` outside the text.
pub open spec fn char_at(src: Seq<char>, p: int) -> char {
    if 0 <= p < src.len() {
        src[p]
    } else {
        '\0'
    }
}

/// The next line number, staying at the largest one.
pub open spec fn next_line(line: usize) -> usize {
    if line < usize::MAX {
        (line + 1) as usize
    } else {
        line
    }
}

/// Where the run of digits starting at `p` ends.
pub open spec fn digits_end(src: Seq<char>, p: int) -> int
    decreases src.len() - p,
{
    if 0 <= p < src.len() && is_digit(src[p]) {
        digits_end(src, p + 1)
    } else {
        p
    }
}

/// Where the run of letters and digits starting at `p` ends.
pub open spec fn word_end(src: Seq<char>, p: int) -> int
    decreases src.len() - p,
{
    if 0 <= p < src.len() && (is_alpha(src[p]) || is_digit(src[p])) {
        word_end(src, p + 1)
    } else {
        p
    }
}

/// Where the line starting at `p` ends: at its `'\n'` or at the end.
pub open spec fn line_end(src: Seq<char>, p: int) -> int
    decreases src.len() - p,
{
    if 0 <= p < src.len() && src[p] != '\n' {
        line_end(src, p + 1)
    } else {
        p
    }
}

/// Where a block comment ends that is open `depth` deep at `p`, and the line
/// there. Comments nest.
pub open spec fn block_end(src: Seq<char>, p: int, depth: nat, line: usize) -> (int, usize)
    decreases src.len() - p,
{
    if depth == 0 || p < 0 || p >= src.len() {
        (p, line)
    } else {
        let c = src[p];
        if c == '/' && char_at(src, p + 1) == '*' && p + 1 < src.len() {
            block_end(src, p + 2, depth + 1, line)
        } else if c == '*' && char_at(src, p + 1) == '/' && p + 1 < src.len() {
            block_end(src, p + 2, (depth - 1) as nat, line)
        } else if c == '\n' {
            block_end(src, p + 1, depth, next_line(line))
        } else {
            block_end(src, p + 1, depth, line)
        }
    }
}

/// Where the body of a string literal starting at `p` ends (at its closing
/// quote or at the end), and the line there.
pub open spec fn string_end(src: Seq<char>, p: int, line: usize) -> (int, usize)
    decreases src.len() - p,
{
    if 0 <= p < src.len() && src[p] != '"' {
        string_end(src, p + 1, if src[p] == '\n' { next_line(line) } else { line })
    } else {
        (p, line)
    }
}

/// The kind of a word: a keyword, or `Ident`.
pub open spec fn keyword_kind(text: Seq<char>) -> TokenKind {
    if text == "and"@ {
        TokenKind::And
    } else if text == "else"@ {
        TokenKind::Else
    } else if text == "false"@ {
        TokenKind::False
    } else if text == "for"@ {
        TokenKind::For
    } else if text == "fun"@ {
        TokenKind::Fun
    } else if text == "if"@ {
        TokenKind::If
    } else if text == "nil"@ {
        TokenKind::Nil
    } else if text == "or"@ {
        TokenKind::Or
    } else if text == "print"@ {
        TokenKind::Print
    } else if text == "return"@ {
        TokenKind::Return
    } else if text == "true"@ {
        TokenKind::True
    } else if text == "var"@ {
        TokenKind::Var
    } else if text == "while"@ {
        TokenKind::While
    } else if text == "val"@ {
        TokenKind::Val
    } else {
        TokenKind::Ident
    }
}

/// The kind of a one-character token, if `c` is one.
pub open spec fn single_kind(c: char) -> Option<TokenKind> {
    if c == '(' {
        Some(TokenKind::LeftParen)
    } else if c == ')' {
        Some(TokenKind::RightParen)
    } else if c == '{' {
        Some(TokenKind::LeftBrace)
    } else if c == '}' {
        Some(TokenKind::RightBrace)
    } else if c == ',' {
        Some(TokenKind::Comma)
    } else if c == '.' {
        Some(TokenKind::Dot)
    } else if c == '-' {
        Some(TokenKind::Minus)
    } else if c == '+' {
        Some(TokenKind::Plus)
    } else if c == ';' {
        Some(TokenKind::Semicolon)
    } else if c == '*' {
        Some(TokenKind::Star)
    } else {
        None
    }
}

/// The kinds of `c` alone and of `c` followed by `=`, if `c` starts such a
/// token.
pub open spec fn pair_kinds(c: char) -> Option<(TokenKind, TokenKind)> {
    if c == '!' {
        Some((TokenKind::Bang, TokenKind::BangEquals))
    } else if c == '=' {
        Some((TokenKind::Equals, TokenKind::EqualsEquals))
    } else if c == '<' {
        Some((TokenKind::Less, TokenKind::LessOrEquals))
    } else if c == '>' {
        Some((TokenKind::Greater, TokenKind::GreaterOrEquals))
    } else {
        None
    }
}

pub open spec fn tok(kind: TokenKind, src: Seq<char>, a: int, b: int, literal: Option<LiteralView>, line: usize) -> Option<TokenView> {
    Some(TokenView { kind, lexeme: src.subrange(a, b), literal, line })
}

/// One scanning step from `pos` on line `line`: where the next step starts,
/// its line, and the token found, if any.
pub open spec fn scan_step(src: Seq<char>, pos: int, line: usize) -> Result<(int, usize, Option<TokenView>), ScanError> {
    let c = src[pos];
    let p1 = pos + 1;
    if single_kind(c) is Some {
        Ok((p1, line, tok(single_kind(c)->Some_0, src, pos, p1, None, line)))
    } else if pair_kinds(c) is Some {
        let (one, two) = pair_kinds(c)->Some_0;
        if p1 < src.len() && src[p1] == '=' {
            Ok((p1 + 1, line, tok(two, src, pos, p1 + 1, None, line)))
        } else {
            Ok((p1, line, tok(one, src, pos, p1, None, line)))
        }
    } else if c == '/' {
        if p1 < src.len() && src[p1] == '/' {
            Ok((line_end(src, p1 + 1), line, None))
        } else if p1 < src.len() && src[p1] == '*' {
            let (e, l) = block_end(src, p1 + 1, 1, line);
            Ok((e, l, None))
        } else {
            Ok((p1, line, tok(TokenKind::Slash, src, pos, p1, None, line)))
        }
    } else if c == ' ' || c == '\r' || c == '\t' {
        Ok((p1, line, None))
    } else if c == '\n' {
        Ok((p1, next_line(line), None))
    } else if c == '"' {
        let (e, l) = string_end(src, p1, line);
        if e >= src.len() {
            Err(ScanError::UnterminatedString(l))
        } else {
            Ok(
                (
                    e + 1,
                    l,
                    tok(
                        TokenKind::Literal,
                        src,
                        pos,
                        e + 1,
                        Some(LiteralView::Str(src.subrange(p1, e))),
                        l,
                    ),
                ),
            )
        }
    } else if is_digit(c) {
        let d = digits_end(src, p1);
        if char_at(src, d) == '.' && is_digit(char_at(src, d + 1)) {
            let f = digits_end(src, d + 1);
            Ok((f, line, tok(TokenKind::Literal, src, pos, f, Some(LiteralView::Float(src.subrange(pos, f))), line)))
        } else if digits_value(src.subrange(pos, d)) <= isize::MAX {
            Ok((d, line, tok(TokenKind::Literal, src, pos, d, Some(LiteralView::Num(digits_value(src.subrange(pos, d)) as isize)), line)))
        } else {
            Err(ScanError::NumberTooLarge(line))
        }
    } else if is_alpha(c) || c == '_' {
        let e = word_end(src, p1);
        Ok((e, line, tok(keyword_kind(src.subrange(pos, e)), src, pos, e, None, line)))
    } else {
        Err(ScanError::UnexpectedCharacter(line))
    }
}

pub open spec fn opt_seq(t: Option<TokenView>) -> Seq<TokenView> {
    match t {
        Some(x) => seq![x],
        None => Seq::empty(),
    }
}

/// The tokens of `src` from `pos` on line `line`, ending with `Eof`; or the
/// first lexical error.
pub open spec fn scan_from(src: Seq<char>, pos: int, line: usize) -> Result<Seq<TokenView>, ScanError>
    decreases src.len() - pos,
{
    if pos < 0 || pos >= src.len() {
        Ok(seq![TokenView { kind: TokenKind::Eof, lexeme: Seq::empty(), literal: None, line }])
    } else {
        match scan_step(src, pos, line) {
            Err(e) => Err(e),
            Ok((p, l, t)) => if pos < p <= src.len() {
                match scan_from(src, p, l) {
                    Err(e) => Err(e),
                    Ok(rest) => Ok(opt_seq(t) + rest),
                }
            } else {
                Err(ScanError::UnexpectedCharacter(l))
            },
        }
    }
}

/// The tokens of a whole source text, or its first lexical error.
pub open spec fn scan_spec(src: Seq<char>) -> Result<Seq<TokenView>, ScanError> {
    scan_from(src, 0, 1)
}

/// `prefix` put before the tokens of `r`.
pub open spec fn prepend(prefix: Seq<TokenView>, r: Result<Seq<TokenView>, ScanError>) -> Result<Seq<TokenView>, ScanError> {
    match r {
        Ok(s) => Ok(prefix + s),
        Err(e) => Err(e),
    }
}

/// Turns source text into tokens.
pub struct Scanner {
    source: String,
    len: usize,
    tokens: Vec<Token>,
    start: usize,
    current: usize,
    line: usize,
}

impl Scanner {
    pub closed spec fn wf(&self) -> bool {
        &&& self.len == self.source@.len()
        &&& self.start <= self.current <= self.len
        &&& forall|i: int|
            0 <= i < self.tokens@.len() ==> (#[trigger] self.tokens@[i]).kind != TokenKind::Eof
                && literal_matches_lexeme(self.tokens@[i])
    }

    /// The source text.
    pub closed spec fn text(&self) -> Seq<char> {
        self.source@
    }

    /// Number of tokens found so far.
    pub closed spec fn token_count(&self) -> nat {
        self.tokens@.len()
    }

    pub closed spec fn position(&self) -> nat {
        self.current as nat
    }

    /// The tokens found so far followed by those of the rest of the source.
    pub closed spec fn outcome(&self) -> Result<Seq<TokenView>, ScanError> {
        prepend(tokens_view(self.tokens@), scan_from(self.source@, self.current as int, self.line))
    }

    pub fn new(source: String) -> (r: Scanner)
        ensures
            r.wf(),
            r.position() == 0,
            r.text() == source@,
            r.token_count() == 0,
            r.outcome() == scan_spec(source@),
    {
        let len = source.as_str().unicode_len();
        let r = Scanner { source, len, tokens: Vec::new(), start: 0, current: 0, line: 1 };
        proof {
            assert(tokens_view(r.tokens@) =~= Seq::empty());
            if let Ok(ts) = scan_spec(r.source@) {
                assert(Seq::<TokenView>::empty() + ts =~= ts);
            }
        }
        r
    }

    /// The tokens of the whole source, ending with `Eof`, as [`scan_spec`]
    /// gives them; the first lexical error stops the scan.
    pub fn scan(self) -> (r: Result<Vec<Token>, ScanError>)
        requires
            self.wf(),
        ensures
            r matches Ok(tokens) ==> ends_with_eof(tokens@) && forall|i: int|
                0 <= i < tokens@.len() ==> literal_matches_lexeme(#[trigger] tokens@[i]),
            match r {
                Ok(tokens) => self.outcome() == Ok::<Seq<TokenView>, ScanError>(tokens_view(tokens@)),
                Err(e) => self.outcome() == Err::<Seq<TokenView>, ScanError>(e),
            },
    {
        let ghost target = self.outcome();
        let ghost entry = self;
        let mut sc = self;
        while !sc.is_at_end()
            invariant
                sc.wf(),
                sc.outcome() == target,
                entry == self,
                target == self.outcome(),
            decreases sc.len - sc.current,
        {
            sc.start = sc.current;
            let ghost before = sc;
            let step = sc.scan_token();
            proof {
                let src = before.source@;
                let tv = tokens_view(before.tokens@);
                match scan_step(src, before.current as int, before.line) {
                    Ok((p, l, t)) => {
                        if step is Ok {
                            lemma_prepend_assoc(tv, opt_seq(t), scan_from(src, p, l));
                        }
                    },
                    Err(e) => {},
                }
            }
            if let Err(e) = step {
                return Err(e);
            }
        }
        let eof = Token { kind: TokenKind::Eof, lexeme: String::new(), literal: None, line: sc.line };
        let ghost tv = tokens_view(sc.tokens@);
        sc.tokens.push(eof);
        proof {
            assert(tokens_view(sc.tokens@) =~= tv.push(token_view(eof)));
            assert(token_view(eof).lexeme =~= Seq::<char>::empty());
            let ev = TokenView { kind: TokenKind::Eof, lexeme: Seq::empty(), literal: None, line: sc.line };
            assert(token_view(eof) == ev);
            assert(tv.push(ev) =~= tv + seq![ev]);
        }
        Ok(sc.tokens)
    }

    fn scan_token(&mut self) -> (r: Result<(), ScanError>)
        requires
            old(self).wf(),
            old(self).start == old(self).current,
            old(self).current < old(self).len,
        ensures
            final(self).wf(),
            final(self).len == old(self).len,
            final(self).source@ == old(self).source@,
            final(self).current > old(self).current,
            match scan_step(old(self).source@, old(self).current as int, old(self).line) {
                Err(e) => r == Err::<(), ScanError>(e),
                Ok((p, l, t)) => r is Ok && final(self).current == p && final(self).line == l
                    && tokens_view(final(self).tokens@) == tokens_view(old(self).tokens@) + opt_seq(t),
            },
    {
        let ghost tv = tokens_view(self.tokens@);
        let c = self.advance();
        if let Some(k) = single_kind_of(c) {
            self.add_token(k, None);
            return Ok(());
        }
        if let Some((one, two)) = pair_kinds_of(c) {
            let k = if self.take_if('=') { two } else { one };
            self.add_token(k, None);
            return Ok(());
        }
        if c == '/' {
            if self.take_if('/') {
                self.skip_line();
            } else if self.take_if('*') {
                self.block_comment();
            } else {
                self.add_token(TokenKind::Slash, None);
            }
            proof {
                assert(tv + Seq::<TokenView>::empty() =~= tv);
            }
            Ok(())
        } else if c == ' ' || c == '\r' || c == '\t' {
            proof {
                assert(tv + Seq::<TokenView>::empty() =~= tv);
            }
            Ok(())
        } else if c == '\n' {
            self.line = if self.line < usize::MAX { self.line + 1 } else { self.line };
            proof {
                assert(tv + Seq::<TokenView>::empty() =~= tv);
            }
            Ok(())
        } else if c == '"' {
            self.string()
        } else if is_digit_char(c) {
            self.number()
        } else if is_alpha_char(c) || c == '_' {
            self.identifier();
            Ok(())
        } else {
            Err(ScanError::UnexpectedCharacter(self.line))
        }
    }

    /// Skips the rest of a line comment, up to its `'\n'`.
    fn skip_line(&mut self)
        requires
            old(self).wf(),
        ensures
            final(self).wf(),
            final(self).len == old(self).len,
            final(self).source@ == old(self).source@,
            final(self).start == old(self).start,
            final(self).current >= old(self).current,
            final(self).tokens == old(self).tokens,
            final(self).line == old(self).line,
            final(self).current == line_end(old(self).source@, old(self).current as int),
    {
        while self.peek() != '\n' && !self.is_at_end()
            invariant
                self.wf(),
                self.len == old(self).len,
                self.source@ == old(self).source@,
                self.start == old(self).start,
                self.current >= old(self).current,
                self.tokens == old(self).tokens,
                self.line == old(self).line,
                line_end(self.source@, self.current as int) == line_end(
                    old(self).source@,
                    old(self).current as int,
                ),
            decreases self.len - self.current,
        {
            let _ = self.advance();
        }
    }

    /// Skips a block comment, which may nest, after its opening `/*`.
    fn block_comment(&mut self)
        requires
            old(self).wf(),
        ensures
            final(self).wf(),
            final(self).len == old(self).len,
            final(self).source@ == old(self).source@,
            final(self).start == old(self).start,
            final(self).current >= old(self).current,
            final(self).tokens == old(self).tokens,
            (final(self).current as int, final(self).line) == block_end(
                old(self).source@,
                old(self).current as int,
                1,
                old(self).line,
            ),
    {
        let mut depth: usize = 1;
        while depth > 0 && !self.is_at_end()
            invariant
                self.wf(),
                self.len == old(self).len,
                self.source@ == old(self).source@,
                self.start == old(self).start,
                self.current >= old(self).current,
                self.tokens == old(self).tokens,
                depth <= self.current + 1,
                block_end(self.source@, self.current as int, depth as nat, self.line) == block_end(
                    old(self).source@,
                    old(self).current as int,
                    1,
                    old(self).line,
                ),
            decreases self.len - self.current,
        {
            let c = self.advance();
            if c == '/' && self.take_if('*') {
                depth = depth + 1;
            } else if c == '*' && self.take_if('/') {
                depth = depth - 1;
            } else if c == '\n' {
                self.line = if self.line < usize::MAX { self.line + 1 } else { self.line };
            }
        }
    }

    fn identifier(&mut self)
        requires
            old(self).wf(),
            old(self).start < old(self).current,
        ensures
            final(self).wf(),
            final(self).len == old(self).len,
            final(self).source@ == old(self).source@,
            final(self).line == old(self).line,
            final(self).current >= old(self).current,
            ({
                let e = word_end(old(self).source@, old(self).current as int);
                let text = old(self).source@.subrange(old(self).start as int, e);
                &&& final(self).current == e
                &&& tokens_view(final(self).tokens@) == tokens_view(old(self).tokens@).push(
                    TokenView { kind: keyword_kind(text), lexeme: text, literal: None, line: old(self).line },
                )
            }),
    {
        while !self.is_at_end() && is_word_char(self.peek())
            invariant
                self.wf(),
                self.len == old(self).len,
                self.source@ == old(self).source@,
                self.start == old(self).start,
                self.tokens == old(self).tokens,
                self.line == old(self).line,
                self.current >= old(self).current,
                word_end(self.source@, self.current as int) == word_end(
                    old(self).source@,
                    old(self).current as int,
                ),
            decreases self.len - self.current,
        {
            let _ = self.advance();
        }
        assert(word_end(self.source@, self.current as int) == self.current);
        let text = self.lexeme();
        let kind = keyword(text.as_str());
        self.add_token(kind, None);
    }

    fn number(&mut self) -> (r: Result<(), ScanError>)
        requires
            old(self).wf(),
            old(self).start + 1 == old(self).current,
            is_digit(old(self).source@[old(self).start as int]),
        ensures
            final(self).wf(),
            final(self).len == old(self).len,
            final(self).source@ == old(self).source@,
            final(self).current > old(self).start,
            ({
                let src = old(self).source@;
                let pos = old(self).start as int;
                let d = digits_end(src, old(self).current as int);
                let line = old(self).line;
                if char_at(src, d) == '.' && is_digit(char_at(src, d + 1)) {
                    let f = digits_end(src, d + 1);
                    &&& r is Ok
                    &&& final(self).current == f
                    &&& final(self).line == line
                    &&& tokens_view(final(self).tokens@) == tokens_view(old(self).tokens@)
                        + opt_seq(tok(TokenKind::Literal, src, pos, f, Some(LiteralView::Float(src.subrange(pos, f))), line))
                } else if digits_value(src.subrange(pos, d)) <= isize::MAX {
                    &&& r is Ok
                    &&& final(self).current == d
                    &&& final(self).line == line
                    &&& tokens_view(final(self).tokens@) == tokens_view(old(self).tokens@)
                        + opt_seq(tok(TokenKind::Literal, src, pos, d, Some(LiteralView::Num(digits_value(src.subrange(pos, d)) as isize)), line))
                } else {
                    r == Err::<(), ScanError>(ScanError::NumberTooLarge(line))
                }
            }),
    {
        let ghost tv = tokens_view(self.tokens@);
        proof {
            lemma_digits_end(self.source@, self.current as int);
        }
        self.skip_digits();
        if self.peek() == '.' && is_digit_char(self.peek_second()) {
            let _ = self.advance();
            proof {
                lemma_digits_end(self.source@, self.current as int);
            }
            self.skip_digits();
            let text = self.lexeme();
            self.add_token(TokenKind::Literal, Some(Literal::Float(text)));
            proof {
                assert(tv.push(tokens_view(self.tokens@).last()) =~= tv + opt_seq(Some(tokens_view(self.tokens@).last())));
            }
            return Ok(());
        }
        let text = self.lexeme();
        proof {
            let src = self.source@;
            assert forall|i: int| 0 <= i < text@.len() implies is_digit(#[trigger] text@[i]) by {
                assert(text@[i] == src[self.start + i]);
            }
        }
        match parse_digits(text.as_str()) {
            Some(n) => {
                self.add_token(TokenKind::Literal, Some(Literal::Num(n)));
                proof {
                    assert(tv.push(tokens_view(self.tokens@).last()) =~= tv + opt_seq(Some(tokens_view(self.tokens@).last())));
                }
                Ok(())
            },
            None => Err(ScanError::NumberTooLarge(self.line)),
        }
    }

    fn skip_digits(&mut self)
        requires
            old(self).wf(),
        ensures
            final(self).wf(),
            final(self).len == old(self).len,
            final(self).start == old(self).start,
            final(self).tokens == old(self).tokens,
            final(self).source@ == old(self).source@,
            final(self).line == old(self).line,
            final(self).current == digits_end(old(self).source@, old(self).current as int),
    {
        while !self.is_at_end() && is_digit_char(self.peek())
            invariant
                self.wf(),
                self.len == old(self).len,
                self.start == old(self).start,
                self.tokens == old(self).tokens,
                self.source@ == old(self).source@,
                self.line == old(self).line,
                digits_end(self.source@, self.current as int) == digits_end(
                    old(self).source@,
                    old(self).current as int,
                ),
            decreases self.len - self.current,
        {
            let _ = self.advance();
        }
    }

    fn string(&mut self) -> (r: Result<(), ScanError>)
        requires
            old(self).wf(),
            old(self).start + 1 == old(self).current,
        ensures
            final(self).wf(),
            final(self).len == old(self).len,
            final(self).source@ == old(self).source@,
            final(self).current > old(self).start,
            ({
                let src = old(self).source@;
                let pos = old(self).start as int;
                let (e, l) = string_end(src, old(self).current as int, old(self).line);
                if e >= src.len() {
                    r == Err::<(), ScanError>(ScanError::UnterminatedString(l))
                } else {
                    &&& r is Ok
                    &&& final(self).current == e + 1
                    &&& final(self).line == l
                    &&& tokens_view(final(self).tokens@) == tokens_view(old(self).tokens@)
                        + opt_seq(tok(TokenKind::Literal, src, pos, e + 1, Some(LiteralView::Str(src.subrange(pos + 1, e))), l))
                }
            }),
    {
        let ghost tv = tokens_view(self.tokens@);
        while self.peek() != '"' && !self.is_at_end()
            invariant
                self.wf(),
                self.len == old(self).len,
                self.source@ == old(self).source@,
                self.start == old(self).start,
                self.tokens == old(self).tokens,
                self.current >= old(self).current,
                string_end(self.source@, self.current as int, self.line) == string_end(
                    old(self).source@,
                    old(self).current as int,
                    old(self).line,
                ),
            decreases self.len - self.current,
        {
            if self.peek() == '\n' {
                self.line = if self.line < usize::MAX { self.line + 1 } else { self.line };
            }
            let _ = self.advance();
        }
        if self.is_at_end() {
            return Err(ScanError::UnterminatedString(self.line));
        }
        // the closing quote
        let _ = self.advance();
        let value = self.source.as_str().substring_char(self.start + 1, self.current - 1).to_owned();
        self.add_token(TokenKind::Literal, Some(Literal::Str(value)));
        proof {
            assert(tv.push(tokens_view(self.tokens@).last()) =~= tv + opt_seq(Some(tokens_view(self.tokens@).last())));
        }
        Ok(())
    }

    /// Consumes the next character when it is `c`.
    fn take_if(&mut self, c: char) -> (r: bool)
        requires
            old(self).wf(),
        ensures
            final(self).wf(),
            final(self).len == old(self).len,
            final(self).start == old(self).start,
            final(self).tokens == old(self).tokens,
            final(self).source@ == old(self).source@,
            final(self).line == old(self).line,
            r == (old(self).current < old(self).len && old(self).source@[old(self).current as int] == c),
            final(self).current == old(self).current + if r { 1int } else { 0int },
    {
        if self.is_at_end() {
            return false;
        }
        if self.source.as_str().get_char(self.current) != c {
            return false;
        }
        self.current = self.current + 1;
        true
    }

    /// The next character, `'\0'` at the end.
    fn peek(&self) -> (r: char)
        requires
            self.wf(),
        ensures
            r == char_at(self.source@, self.current as int),
    {
        if self.is_at_end() {
            '\0'
        } else {
            self.source.as_str().get_char(self.current)
        }
    }

    /// The character after the next, `'\0'` past the end.
    fn peek_second(&self) -> (r: char)
        requires
            self.wf(),
        ensures
            r == char_at(self.source@, self.current + 1),
    {
        if self.len - self.current <= 1 {
            '\0'
        } else {
            self.source.as_str().get_char(self.current + 1)
        }
    }

    fn advance(&mut self) -> (r: char)
        requires
            old(self).wf(),
            old(self).current < old(self).len,
        ensures
            final(self).wf(),
            final(self).len == old(self).len,
            final(self).start == old(self).start,
            final(self).tokens == old(self).tokens,
            final(self).line == old(self).line,
            final(self).current == old(self).current + 1,
            final(self).source@ == old(self).source@,
            r == old(self).source@[old(self).current as int],
    {
        let c = self.source.as_str().get_char(self.current);
        self.current = self.current + 1;
        c
    }

    /// The text of the token being scanned.
    fn lexeme(&self) -> (r: String)
        requires
            self.wf(),
        ensures
            r@ == self.source@.subrange(self.start as int, self.current as int),
    {
        self.source.as_str().substring_char(self.start, self.current).to_owned()
    }

    fn add_token(&mut self, kind: TokenKind, literal: Option<Literal>)
        requires
            old(self).wf(),
            kind != TokenKind::Eof,
            literal matches Some(Literal::Num(n)) ==> {
                let text = old(self).source@.subrange(
                    old(self).start as int,
                    old(self).current as int,
                );
                all_digits(text) && n == digits_value(text)
            },
        ensures
            final(self).wf(),
            final(self).len == old(self).len,
            final(self).start == old(self).start,
            final(self).current == old(self).current,
            final(self).line == old(self).line,
            final(self).source@ == old(self).source@,
            tokens_view(final(self).tokens@) == tokens_view(old(self).tokens@).push(
                TokenView {
                    kind,
                    lexeme: old(self).source@.subrange(old(self).start as int, old(self).current as int),
                    literal: literal_view(literal),
                    line: old(self).line,
                },
            ),
    {
        let lexeme = self.lexeme();
        let ghost tv = tokens_view(self.tokens@);
        let t = Token { kind, lexeme, literal, line: self.line };
        self.tokens.push(t);
        proof {
            assert(tokens_view(self.tokens@) =~= tv.push(token_view(t)));
        }
    }

    fn is_at_end(&self) -> (r: bool)
        requires
            self.wf(),
        ensures
            r == (self.current >= self.len),
    {
        self.current >= self.len
    }
}

proof fn lemma_prepend_assoc(a: Seq<TokenView>, b: Seq<TokenView>, r: Result<Seq<TokenView>, ScanError>)
    ensures
        prepend(a, prepend(b, r)) == prepend(a + b, r),
{
    if let Ok(s) = r {
        assert(a + (b + s) =~= (a + b) + s);
    }
}

/// The run of digits from `p` stays in the text and is all digits.
proof fn lemma_digits_end(src: Seq<char>, p: int)
    requires
        0 <= p <= src.len(),
    ensures
        p <= digits_end(src, p) <= src.len(),
        forall|i: int| p <= i < digits_end(src, p) ==> is_digit(#[trigger] src[i]),
    decreases src.len() - p,
{
    if p < src.len() && is_digit(src[p]) {
        lemma_digits_end(src, p + 1);
    }
}

fn is_word_char(c: char) -> (r: bool)
    ensures
        r == (is_alpha(c) || is_digit(c)),
{
    is_alpha_char(c) || is_digit_char(c)
}

fn single_kind_of(c: char) -> (r: Option<TokenKind>)
    ensures
        r == single_kind(c),
{
    if c == '(' {
        Some(TokenKind::LeftParen)
    } else if c == ')' {
        Some(TokenKind::RightParen)
    } else if c == '{' {
        Some(TokenKind::LeftBrace)
    } else if c == '}' {
        Some(TokenKind::RightBrace)
    } else if c == ',' {
        Some(TokenKind::Comma)
    } else if c == '.' {
        Some(TokenKind::Dot)
    } else if c == '-' {
        Some(TokenKind::Minus)
    } else if c == '+' {
        Some(TokenKind::Plus)
    } else if c == ';' {
        Some(TokenKind::Semicolon)
    } else if c == '*' {
        Some(TokenKind::Star)
    } else {
        None
    }
}

fn pair_kinds_of(c: char) -> (r: Option<(TokenKind, TokenKind)>)
    ensures
        r == pair_kinds(c),
{
    if c == '!' {
        Some((TokenKind::Bang, TokenKind::BangEquals))
    } else if c == '=' {
        Some((TokenKind::Equals, TokenKind::EqualsEquals))
    } else if c == '<' {
        Some((TokenKind::Less, TokenKind::LessOrEquals))
    } else if c == '>' {
        Some((TokenKind::Greater, TokenKind::GreaterOrEquals))
    } else {
        None
    }
}

/// The value of the decimal digits `s`, if it fits in `isize`.
pub fn parse_digits(s: &str) -> (r: Option<isize>)
    ensures
        r matches Some(n) ==> all_digits(s@) && n == digits_value(s@),
        r is None ==> !all_digits(s@) || digits_value(s@) > isize::MAX,
{
    let n = s.unicode_len();
    let mut v: i128 = 0;
    let mut i: usize = 0;
    while i < n
        invariant
            n == s@.len(),
            i <= n,
            forall|j: int| 0 <= j < i ==> is_digit(#[trigger] s@[j]),
            v == digits_value(s@.subrange(0, i as int)),
            0 <= v <= isize::MAX,
        decreases n - i,
    {
        let c = s.get_char(i);
        if !is_digit_char(c) {
            return None;
        }
        let d = (c as u32 - '0' as u32) as i128;
        proof {
            let p = s@.subrange(0, i as int + 1);
            assert(p.drop_last() =~= s@.subrange(0, i as int));
        }
        v = v * 10 + d;
        if v > isize::MAX as i128 {
            proof {
                if all_digits(s@) {
                    lemma_digits_value_grows(s@, i as int + 1);
                }
            }
            return None;
        }
        i = i + 1;
    }
    assert(s@.subrange(0, n as int) =~= s@);
    Some(v as isize)
}

/// Appending digits never makes the value smaller.
proof fn lemma_digits_value_grows(s: Seq<char>, k: int)
    requires
        0 <= k <= s.len(),
        forall|j: int| 0 <= j < s.len() ==> is_digit(#[trigger] s[j]),
    ensures
        digits_value(s) >= digits_value(s.subrange(0, k)),
        digits_value(s.subrange(0, k)) >= 0,
    decreases s.len(),
{
    if s.len() == k {
        assert(s.subrange(0, k) =~= s);
        if s.len() > 0 {
            lemma_digits_value_grows(s.drop_last(), k - 1);
            assert(s.drop_last().subrange(0, k - 1) =~= s.drop_last());
        }
    } else {
        lemma_digits_value_grows(s.drop_last(), k);
        assert(s.drop_last().subrange(0, k) =~= s.subrange(0, k));
    }
}

} // verus!
