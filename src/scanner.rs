//! The lexer: source text to a sequence of tokens ending with `EOF`.
use vstd::prelude::*;
use crate::error::{ErrV, Error};
use crate::text::{chars_of, decimal_value, digit_value, is_digit, string_of};
use crate::token::{Literal, TokV, Token, TokenType, Val};

verus! {

/// The keywords and their token kinds.
pub open spec fn keyword_table() -> Seq<(Seq<char>, TokenType)> {
    seq![
        ("and"@, TokenType::AND),
        ("class"@, TokenType::CLASS),
        ("else"@, TokenType::ELSE),
        ("false"@, TokenType::FALSE),
        ("for"@, TokenType::FOR),
        ("fun"@, TokenType::FUN),
        ("if"@, TokenType::IF),
        ("nil"@, TokenType::NIL),
        ("or"@, TokenType::OR),
        ("print"@, TokenType::PRINT),
        ("return"@, TokenType::RETURN),
        ("super"@, TokenType::SUPER),
        ("this"@, TokenType::THIS),
        ("true"@, TokenType::TRUE),
        ("var"@, TokenType::VAR),
        ("while"@, TokenType::WHILE),
        ("break"@, TokenType::BREAK),
    ]
}

/// The view of a keyword list.
pub open spec fn table_view(v: Seq<(String, TokenType)>) -> Seq<(Seq<char>, TokenType)> {
    v.map_values(|e: (String, TokenType)| (e.0@, e.1))
}

/// The kind of the first entry of `table`, from position `i` on, whose
/// text is `t`.
pub open spec fn find_kind(table: Seq<(Seq<char>, TokenType)>, t: Seq<char>, i: int) -> Option<
    TokenType,
>
    decreases table.len() - i,
{
    if i < 0 || i >= table.len() {
        None
    } else if table[i].0 == t {
        Some(table[i].1)
    } else {
        find_kind(table, t, i + 1)
    }
}

/// The keyword kind of a word, if it is a keyword.
pub open spec fn keyword(t: Seq<char>) -> Option<TokenType> {
    find_kind(keyword_table(), t, 0)
}

/// Fills `keywords` with the keyword table.
pub fn fill_keywords(keywords: &mut Vec<(String, TokenType)>)
    ensures
        table_view(final(keywords)@) == table_view(old(keywords)@) + keyword_table(),
{
    let ghost start = table_view(keywords@);
    keywords.push((String::from_str("and"), TokenType::AND));
    keywords.push((String::from_str("class"), TokenType::CLASS));
    keywords.push((String::from_str("else"), TokenType::ELSE));
    keywords.push((String::from_str("false"), TokenType::FALSE));
    keywords.push((String::from_str("for"), TokenType::FOR));
    keywords.push((String::from_str("fun"), TokenType::FUN));
    keywords.push((String::from_str("if"), TokenType::IF));
    keywords.push((String::from_str("nil"), TokenType::NIL));
    keywords.push((String::from_str("or"), TokenType::OR));
    keywords.push((String::from_str("print"), TokenType::PRINT));
    keywords.push((String::from_str("return"), TokenType::RETURN));
    keywords.push((String::from_str("super"), TokenType::SUPER));
    keywords.push((String::from_str("this"), TokenType::THIS));
    keywords.push((String::from_str("true"), TokenType::TRUE));
    keywords.push((String::from_str("var"), TokenType::VAR));
    keywords.push((String::from_str("while"), TokenType::WHILE));
    keywords.push((String::from_str("break"), TokenType::BREAK));
    assert(table_view(keywords@) =~= start + keyword_table());
}

/// The kind of a single-character token.
pub open spec fn single_kind(c: char) -> Option<TokenType> {
    if c == '(' {
        Some(TokenType::LEFT_PAREN)
    } else if c == ')' {
        Some(TokenType::RIGHT_PAREN)
    } else if c == '{' {
        Some(TokenType::LEFT_BRACE)
    } else if c == '}' {
        Some(TokenType::RIGHT_BRACE)
    } else if c == ',' {
        Some(TokenType::COMMA)
    } else if c == '.' {
        Some(TokenType::DOT)
    } else if c == '-' {
        Some(TokenType::MINUS)
    } else if c == '+' {
        Some(TokenType::PLUS)
    } else if c == ';' {
        Some(TokenType::SEMICOLON)
    } else if c == '*' {
        Some(TokenType::STAR)
    } else {
        None
    }
}

/// For `!`, `=`, `<`, `>`: the kinds without and with a trailing `=`.
pub open spec fn pair_kinds(c: char) -> Option<(TokenType, TokenType)> {
    if c == '!' {
        Some((TokenType::BANG, TokenType::BANG_EQUAL))
    } else if c == '=' {
        Some((TokenType::EQUAL, TokenType::EQUAL_EQUAL))
    } else if c == '<' {
        Some((TokenType::LESS, TokenType::LESS_EQUAL))
    } else if c == '>' {
        Some((TokenType::GREATER, TokenType::GREATER_EQUAL))
    } else {
        None
    }
}

/// Letters and `_` start a word.
pub open spec fn is_word_start(c: char) -> bool {
    ('a' <= c && c <= 'z') || ('A' <= c && c <= 'Z') || c == '_'
}

/// Letters, digits and `_` continue a word.
pub open spec fn is_word_char(c: char) -> bool {
    is_word_start(c) || is_digit(c)
}

/// The first position at or after `i` that is not a digit.
pub open spec fn digits_end(src: Seq<char>, i: int) -> int
    decreases src.len() - i,
{
    if i < 0 || i >= src.len() || !is_digit(src[i]) {
        i
    } else {
        digits_end(src, i + 1)
    }
}

/// The first position at or after `i` that does not continue a word.
pub open spec fn word_end(src: Seq<char>, i: int) -> int
    decreases src.len() - i,
{
    if i < 0 || i >= src.len() || !is_word_char(src[i]) {
        i
    } else {
        word_end(src, i + 1)
    }
}

/// The first position at or after `i` holding `c`, or the end.
pub open spec fn find_char(src: Seq<char>, i: int, c: char) -> int
    decreases src.len() - i,
{
    if i < 0 || i >= src.len() || src[i] == c {
        i
    } else {
        find_char(src, i + 1, c)
    }
}

/// The number of line breaks in `s`.
pub open spec fn newlines(s: Seq<char>) -> nat
    decreases s.len(),
{
    if s.len() == 0 {
        0
    } else {
        newlines(s.drop_last()) + if s.last() == '\n' {
            1nat
        } else {
            0nat
        }
    }
}

/// A line number moved on by `n` lines, stopping at the largest `u32`.
pub open spec fn bump(line: u32, n: nat) -> u32 {
    if line + n > u32::MAX {
        u32::MAX
    } else {
        (line + n) as u32
    }
}

/// One step of the lexer at position `i`.
pub enum LexStep {
    /// Nothing emitted; go on at the position with the line.
    Skip(int, u32),
    /// A token emitted; go on at the position with the line.
    Emit(TokV, int, u32),
    Fail(ErrV),
}

/// A token without a literal payload.
pub open spec fn plain(kind: TokenType, text: Seq<char>, line: u32) -> TokV {
    TokV { kind, text, lit: Val::Nil, line }
}

/// The lexer's step at position `i` (which is before the end of `src`).
pub open spec fn lex_step(src: Seq<char>, i: int, line: u32) -> LexStep {
    let c = src[i];
    if single_kind(c) is Some {
        LexStep::Emit(plain(single_kind(c)->0, src.subrange(i, i + 1), line), i + 1, line)
    } else if let Some((one, two)) = pair_kinds(c) {
        if i + 1 < src.len() && src[i + 1] == '=' {
            LexStep::Emit(plain(two, src.subrange(i, i + 2), line), i + 2, line)
        } else {
            LexStep::Emit(plain(one, src.subrange(i, i + 1), line), i + 1, line)
        }
    } else if c == '/' {
        if i + 1 < src.len() && src[i + 1] == '/' {
            LexStep::Skip(find_char(src, i + 2, '\n'), line)
        } else {
            LexStep::Emit(plain(TokenType::SLASH, src.subrange(i, i + 1), line), i + 1, line)
        }
    } else if c == ' ' || c == '\t' || c == '\r' {
        LexStep::Skip(i + 1, line)
    } else if c == '\n' {
        LexStep::Skip(i + 1, bump(line, 1))
    } else if c == '"' {
        let j = find_char(src, i + 1, '"');
        let l = bump(line, newlines(src.subrange(i + 1, j)));
        if j >= src.len() {
            LexStep::Fail(ErrV::Lexical(l, "Unterminated string"@, Seq::empty()))
        } else {
            let body = src.subrange(i + 1, j);
            LexStep::Emit(
                TokV { kind: TokenType::STRING, text: body, lit: Val::Str(body), line: l },
                j + 1,
                l,
            )
        }
    } else if is_digit(c) {
        let j = digits_end(src, i);
        if j + 1 < src.len() && src[j] == '.' && is_digit(src[j + 1]) {
            LexStep::Fail(
                ErrV::Lexical(
                    line,
                    "fractional numbers are not supported"@,
                    src.subrange(i, digits_end(src, j + 1)),
                ),
            )
        } else if decimal_value(src.subrange(i, j)) > i64::MAX {
            LexStep::Fail(ErrV::Lexical(line, "number too large"@, src.subrange(i, j)))
        } else {
            LexStep::Emit(
                TokV {
                    kind: TokenType::NUMBER,
                    text: src.subrange(i, j),
                    lit: Val::Num(decimal_value(src.subrange(i, j)) as int),
                    line,
                },
                j,
                line,
            )
        }
    } else if is_word_start(c) {
        let j = word_end(src, i);
        let text = src.subrange(i, j);
        match keyword(text) {
            Some(k) => LexStep::Emit(plain(k, text, line), j, line),
            None => LexStep::Emit(plain(TokenType::IDENTIFIER, text, line), j, line),
        }
    } else {
        LexStep::Fail(ErrV::Lexical(line, "unexpected character"@, seq![c]))
    }
}

/// Lexing `src` from position `i` on, at line `line`, after the tokens
/// `acc`: all tokens followed by `EOF`, or the first lexical error.
pub open spec fn lex_from(src: Seq<char>, i: int, line: u32, acc: Seq<TokV>) -> Result<
    Seq<TokV>,
    ErrV,
>
    decreases src.len() - i,
{
    if i < 0 || i >= src.len() {
        Ok(acc.push(plain(TokenType::EOF, Seq::empty(), line)))
    } else {
        match lex_step(src, i, line) {
            LexStep::Skip(j, l) => if i < j <= src.len() {
                lex_from(src, j, l, acc)
            } else {
                Ok(acc)
            },
            LexStep::Emit(t, j, l) => if i < j <= src.len() {
                lex_from(src, j, l, acc.push(t))
            } else {
                Ok(acc)
            },
            LexStep::Fail(e) => Err(e),
        }
    }
}

/// The tokens of a whole source text, starting at line 1.
pub open spec fn lex(src: Seq<char>) -> Result<Seq<TokV>, ErrV> {
    lex_from(src, 0, 1, Seq::empty())
}

proof fn lemma_find_char_bounds(src: Seq<char>, k: int, c: char)
    requires
        0 <= k <= src.len(),
    ensures
        k <= find_char(src, k, c) <= src.len(),
    decreases src.len() - k,
{
    if k < src.len() && src[k] != c {
        lemma_find_char_bounds(src, k + 1, c);
    }
}

proof fn lemma_digits_end_bounds(src: Seq<char>, k: int)
    requires
        0 <= k <= src.len(),
    ensures
        k <= digits_end(src, k) <= src.len(),
    decreases src.len() - k,
{
    if k < src.len() && is_digit(src[k]) {
        lemma_digits_end_bounds(src, k + 1);
    }
}

proof fn lemma_word_end_bounds(src: Seq<char>, k: int)
    requires
        0 <= k <= src.len(),
    ensures
        k <= word_end(src, k) <= src.len(),
    decreases src.len() - k,
{
    if k < src.len() && is_word_char(src[k]) {
        lemma_word_end_bounds(src, k + 1);
    }
}

/// Every step that does not fail moves forward within the text.
pub proof fn lemma_step_advances(src: Seq<char>, i: int, line: u32)
    requires
        0 <= i < src.len(),
    ensures
        match lex_step(src, i, line) {
            LexStep::Skip(j, _) => i < j <= src.len(),
            LexStep::Emit(_, j, _) => i < j <= src.len(),
            LexStep::Fail(_) => true,
        },
{
    if i + 2 <= src.len() {
        lemma_find_char_bounds(src, i + 2, '\n');
    }
    lemma_find_char_bounds(src, i + 1, '"');
    lemma_digits_end_bounds(src, i + 1);
    lemma_word_end_bounds(src, i + 1);
}

/// A successful lexing ends with `EOF`.
pub proof fn lemma_lex_ends_with_eof(src: Seq<char>, i: int, line: u32, acc: Seq<TokV>)
    requires
        lex_from(src, i, line, acc) is Ok,
    ensures
        lex_from(src, i, line, acc)->Ok_0.len() > 0,
        lex_from(src, i, line, acc)->Ok_0.last().kind == TokenType::EOF,
    decreases src.len() - i,
{
    if 0 <= i < src.len() {
        lemma_step_advances(src, i, line);
        match lex_step(src, i, line) {
            LexStep::Skip(j, l) => {
                lemma_lex_ends_with_eof(src, j, l, acc);
            },
            LexStep::Emit(t, j, l) => {
                lemma_lex_ends_with_eof(src, j, l, acc.push(t));
            },
            LexStep::Fail(_) => {},
        }
    }
}

/// The view of a token list.
pub open spec fn toks_view(v: Seq<Token>) -> Seq<TokV> {
    v.map_values(|t: Token| t@)
}

/// A token-list result, as values.
pub open spec fn toks_res(r: Result<Vec<Token>, Error>) -> Result<Seq<TokV>, ErrV> {
    match r {
        Ok(v) => Ok(toks_view(v@)),
        Err(e) => Err(e@),
    }
}


proof fn lemma_newlines_step(src: Seq<char>, a: int, b: int)
    requires
        0 <= a <= b < src.len(),
    ensures
        newlines(src.subrange(a, b + 1)) == newlines(src.subrange(a, b)) + if src[b] == '\n' {
            1nat
        } else {
            0nat
        },
{
    assert(src.subrange(a, b + 1).drop_last() =~= src.subrange(a, b));
}

proof fn lemma_decimal_mono(s: Seq<char>, m: int, n: int)
    requires
        0 <= m <= n <= s.len(),
        forall|k: int| 0 <= k < s.len() ==> is_digit(#[trigger] s[k]),
    ensures
        decimal_value(s.subrange(0, m)) <= decimal_value(s.subrange(0, n)),
    decreases n - m,
{
    if m < n {
        lemma_decimal_mono(s, m, n - 1);
        assert(s.subrange(0, n).drop_last() =~= s.subrange(0, n - 1));
    }
}

fn single_kind_of(c: char) -> (r: Option<TokenType>)
    ensures
        r == single_kind(c),
{
    if c == '(' {
        Some(TokenType::LEFT_PAREN)
    } else if c == ')' {
        Some(TokenType::RIGHT_PAREN)
    } else if c == '{' {
        Some(TokenType::LEFT_BRACE)
    } else if c == '}' {
        Some(TokenType::RIGHT_BRACE)
    } else if c == ',' {
        Some(TokenType::COMMA)
    } else if c == '.' {
        Some(TokenType::DOT)
    } else if c == '-' {
        Some(TokenType::MINUS)
    } else if c == '+' {
        Some(TokenType::PLUS)
    } else if c == ';' {
        Some(TokenType::SEMICOLON)
    } else if c == '*' {
        Some(TokenType::STAR)
    } else {
        None
    }
}

fn pair_kinds_of(c: char) -> (r: Option<(TokenType, TokenType)>)
    ensures
        r == pair_kinds(c),
{
    if c == '!' {
        Some((TokenType::BANG, TokenType::BANG_EQUAL))
    } else if c == '=' {
        Some((TokenType::EQUAL, TokenType::EQUAL_EQUAL))
    } else if c == '<' {
        Some((TokenType::LESS, TokenType::LESS_EQUAL))
    } else if c == '>' {
        Some((TokenType::GREATER, TokenType::GREATER_EQUAL))
    } else {
        None
    }
}

fn digit_char_test(c: char) -> (r: bool)
    ensures
        r == is_digit(c),
{
    '0' <= c && c <= '9'
}

fn word_char_test(c: char) -> (r: bool)
    ensures
        r == is_word_char(c),
{
    ('a' <= c && c <= 'z') || ('A' <= c && c <= 'Z') || c == '_' || ('0' <= c && c <= '9')
}

fn word_start_test(c: char) -> (r: bool)
    ensures
        r == is_word_start(c),
{
    ('a' <= c && c <= 'z') || ('A' <= c && c <= 'Z') || c == '_'
}

/// The lexer's state over one source text.
pub struct Scanner {
    pub source: Vec<char>,
    pub tokens: Vec<Token>,
    pub start: usize,
    pub current: usize,
    pub line: u32,
    pub keywords: Vec<(String, TokenType)>,
}

impl Scanner {
    /// Well-formedness: the position is within the text and the keyword
    /// list is the keyword table.
    pub open spec fn wf(&self) -> bool {
        &&& self.current <= self.source@.len()
        &&& table_view(self.keywords@) == keyword_table()
    }

    /// What a step keeps: the text and the keyword list.
    pub open spec fn same_input(&self, old: &Scanner) -> bool {
        &&& self.source@ == old.source@
        &&& self.keywords@ == old.keywords@
    }

    /// A scanner at the start of `source`, at line 1.
    pub fn new(source: String) -> (r: Scanner)
        ensures
            r.wf(),
            r.source@ == source@,
            r.tokens@.len() == 0,
            r.current == 0,
            r.line == 1,
    {
        let mut keywords: Vec<(String, TokenType)> = Vec::new();
        assert(table_view(keywords@) =~= Seq::empty());
        fill_keywords(&mut keywords);
        assert(table_view(keywords@) =~= keyword_table());
        Scanner {
            source: chars_of(source.as_str()),
            tokens: Vec::new(),
            start: 0,
            current: 0,
            line: 1,
            keywords,
        }
    }

    /// Lexes the rest of the text: the tokens so far and those of the rest,
    /// ending with `EOF`, or the first lexical error. On success the scanner
    /// keeps the same tokens.
    pub fn scan_tokens(&mut self) -> (r: Result<Vec<Token>, Error>)
        requires
            old(self).wf(),
        ensures
            toks_res(r) == lex_from(
                old(self).source@,
                old(self).current as int,
                old(self).line,
                toks_view(old(self).tokens@),
            ),
            final(self).wf(),
            final(self).same_input(old(self)),
            r matches Ok(ts) ==> final(self).tokens@ == ts@ && final(self).current
                == final(self).source@.len(),
    {
        while !self.at_end()
            invariant
                self.wf(),
                self.same_input(old(self)),
                lex_from(
                    old(self).source@,
                    old(self).current as int,
                    old(self).line,
                    toks_view(old(self).tokens@),
                ) == lex_from(
                    self.source@,
                    self.current as int,
                    self.line,
                    toks_view(self.tokens@),
                ),
            decreases self.source@.len() - self.current,
        {
            match self.scan_token() {
                Ok(()) => {},
                Err(e) => {
                    return Err(e);
                },
            }
        }
        let line = self.line;
        self.push_token(
            Token {
                token_type: TokenType::EOF,
                lexeme: String::new(),
                literal: Literal::Nil,
                line,
            },
        );
        let mut out: Vec<Token> = Vec::new();
        let mut i: usize = 0;
        while i < self.tokens.len()
            invariant
                i <= self.tokens@.len(),
                out@ == self.tokens@.subrange(0, i as int),
            decreases self.tokens@.len() - i,
        {
            out.push(self.tokens[i].duplicate());
            assert(out@ =~= self.tokens@.subrange(0, i + 1));
            i = i + 1;
        }
        assert(out@ =~= self.tokens@);
        Ok(out)
    }

    fn at_end(&self) -> (r: bool)
        requires
            self.wf(),
        ensures
            r == (self.current >= self.source@.len()),
    {
        self.current >= self.source.len()
    }

    fn push_token(&mut self, t: Token)
        ensures
            toks_view(final(self).tokens@) == toks_view(old(self).tokens@).push(t@),
            final(self).source == old(self).source,
            final(self).keywords == old(self).keywords,
            final(self).current == old(self).current,
            final(self).start == old(self).start,
            final(self).line == old(self).line,
    {
        let ghost v = t@;
        self.tokens.push(t);
        assert(toks_view(self.tokens@) =~= toks_view(old(self).tokens@).push(v));
    }

    /// Emits a token of kind `kind` whose text runs from `start` to the
    /// current position.
    fn add_token(&mut self, kind: TokenType)
        requires
            old(self).start <= old(self).current <= old(self).source@.len(),
        ensures
            toks_view(final(self).tokens@) == toks_view(old(self).tokens@).push(
                plain(
                    kind,
                    old(self).source@.subrange(old(self).start as int, old(self).current as int),
                    old(self).line,
                ),
            ),
            final(self).source == old(self).source,
            final(self).keywords == old(self).keywords,
            final(self).current == old(self).current,
            final(self).line == old(self).line,
    {
        let text = string_of(&self.source, self.start, self.current);
        let line = self.line;
        self.push_token(Token { token_type: kind, lexeme: text, literal: Literal::Nil, line });
    }

    /// Consumes the next character if it is `c`.
    fn match_tok(&mut self, c: char) -> (r: bool)
        requires
            old(self).current <= old(self).source@.len(),
        ensures
            r == (old(self).current < old(self).source@.len() && old(self).source@[old(
                self,
            ).current as int] == c),
            final(self).current == old(self).current + if r {
                1int
            } else {
                0int
            },
            final(self).source == old(self).source,
            final(self).keywords == old(self).keywords,
            final(self).tokens == old(self).tokens,
            final(self).start == old(self).start,
            final(self).line == old(self).line,
    {
        if self.current >= self.source.len() {
            return false;
        }
        if self.source[self.current] != c {
            return false;
        }
        self.current = self.current + 1;
        true
    }

    fn keyword_kind(&self, text: &String) -> (r: Option<TokenType>)
        requires
            self.wf(),
        ensures
            r == keyword(text@),
    {
        let mut i: usize = 0;
        while i < self.keywords.len()
            invariant
                self.wf(),
                i <= self.keywords@.len(),
                keyword(text@) == find_kind(keyword_table(), text@, i as int),
            decreases self.keywords@.len() - i,
        {
            assert(table_view(self.keywords@)[i as int] == (self.keywords@[i as int].0@, self.keywords@[i as int].1));
            if self.keywords[i].0.eq(text) {
                return Some(self.keywords[i].1);
            }
            i = i + 1;
        }
        None
    }

    /// Lexes one token (or skips whitespace or a comment) at the current
    /// position.
    fn scan_token(&mut self) -> (r: Result<(), Error>)
        requires
            old(self).wf(),
            old(self).current < old(self).source@.len(),
        ensures
            final(self).wf(),
            final(self).same_input(old(self)),
            r is Ok ==> final(self).current > old(self).current,
            match lex_step(old(self).source@, old(self).current as int, old(self).line) {
                LexStep::Skip(j, l) => {
                    &&& r is Ok
                    &&& final(self).current == j
                    &&& final(self).line == l
                    &&& toks_view(final(self).tokens@) == toks_view(old(self).tokens@)
                },
                LexStep::Emit(t, j, l) => {
                    &&& r is Ok
                    &&& final(self).current == j
                    &&& final(self).line == l
                    &&& toks_view(final(self).tokens@) == toks_view(old(self).tokens@).push(t)
                },
                LexStep::Fail(e) => r matches Err(x) && x@ == e,
            },
    {
        let i = self.current;
        let n = self.source.len();
        let c = self.source[i];
        self.start = i;
        self.current = i + 1;
        match single_kind_of(c) {
            Some(k) => {
                self.add_token(k);
                return Ok(());
            },
            None => {},
        }
        match pair_kinds_of(c) {
            Some((one, two)) => {
                if self.match_tok('=') {
                    self.add_token(two);
                } else {
                    self.add_token(one);
                }
                return Ok(());
            },
            None => {},
        }
        if c == '/' {
            if self.match_tok('/') {
                while self.current < self.source.len() && self.source[self.current] != '\n'
                    invariant
                        i + 2 <= self.current <= self.source@.len(),
                        self.same_input(old(self)),
                        self.wf(),
                        self.line == old(self).line,
                        self.tokens == old(self).tokens,
                        i == old(self).current,
                        self.source@ == old(self).source@,
                        find_char(self.source@, i + 2, '\n') == find_char(
                            self.source@,
                            self.current as int,
                            '\n',
                        ),
                    decreases self.source@.len() - self.current,
                {
                    self.current = self.current + 1;
                }
            } else {
                self.add_token(TokenType::SLASH);
            }
            return Ok(());
        }
        if c == ' ' || c == '\t' || c == '\r' {
            return Ok(());
        }
        if c == '\n' {
            if self.line < u32::MAX {
                self.line = self.line + 1;
            }
            return Ok(());
        }
        if c == '"' {
            return self.string();
        }
        if digit_char_test(c) {
            return self.number();
        }
        if word_start_test(c) {
            self.identifier();
            return Ok(());
        }
        assert(self.source@.subrange(i as int, i + 1) =~= seq![c]);
        Err(
            Error::Lexical(
                self.line,
                String::from_str("unexpected character"),
                string_of(&self.source, i, i + 1),
            ),
        )
    }

    /// Lexes a string literal whose opening quote is just before the
    /// current position.
    fn string(&mut self) -> (r: Result<(), Error>)
        requires
            old(self).wf(),
            old(self).start + 1 == old(self).current,
            old(self).current <= old(self).source@.len(),
            old(self).source@[old(self).start as int] == '"',
        ensures
            final(self).wf(),
            final(self).same_input(old(self)),
            r is Ok ==> final(self).current > old(self).start,
            match lex_step(old(self).source@, old(self).start as int, old(self).line) {
                LexStep::Emit(t, j, l) => {
                    &&& r is Ok
                    &&& final(self).current == j
                    &&& final(self).line == l
                    &&& toks_view(final(self).tokens@) == toks_view(old(self).tokens@).push(t)
                },
                LexStep::Fail(e) => r matches Err(x) && x@ == e,
                _ => false,
            },
    {
        let ghost src = self.source@;
        let ghost i = self.start as int;
        let ghost line0 = self.line;
        let mut l: u32 = self.line;
        assert(src.subrange(i + 1, i + 1) =~= Seq::<char>::empty());
        while self.current < self.source.len() && self.source[self.current] != '"'
            invariant
                i + 1 <= self.current <= src.len(),
                self.wf(),
                self.same_input(old(self)),
                self.source@ == src,
                self.start == old(self).start,
                self.tokens == old(self).tokens,
                find_char(src, i + 1, '"') == find_char(src, self.current as int, '"'),
                i == old(self).start as int,
                line0 == old(self).line,
                src == old(self).source@,
                l == bump(line0, newlines(src.subrange(i + 1, self.current as int))),
            decreases src.len() - self.current,
        {
            assert(self.current < src.len());
            let ghost cur = self.current as int;
            proof {
                lemma_newlines_step(src, i + 1, cur);
            }
            if self.source[self.current] == '\n' {
                if l < u32::MAX {
                    l = l + 1;
                }
            }
            self.current = self.current + 1;
        }
        self.line = l;
        if self.current >= self.source.len() {
            return Err(Error::Lexical(l, String::from_str("Unterminated string"), String::new()));
        }
        let body = string_of(&self.source, self.start + 1, self.current);
        self.current = self.current + 1;
        let lit = body.clone();
        self.push_token(
            Token { token_type: TokenType::STRING, lexeme: body, literal: Literal::StringLit(lit), line: l },
        );
        Ok(())
    }

    /// Lexes a number whose first digit is just before the current position.
    fn number(&mut self) -> (r: Result<(), Error>)
        requires
            old(self).wf(),
            old(self).start + 1 == old(self).current,
            old(self).current <= old(self).source@.len(),
            is_digit(old(self).source@[old(self).start as int]),
        ensures
            final(self).wf(),
            final(self).same_input(old(self)),
            r is Ok ==> final(self).current > old(self).start,
            match lex_step(old(self).source@, old(self).start as int, old(self).line) {
                LexStep::Emit(t, j, l) => {
                    &&& r is Ok
                    &&& final(self).current == j
                    &&& final(self).line == l
                    &&& toks_view(final(self).tokens@) == toks_view(old(self).tokens@).push(t)
                },
                LexStep::Fail(e) => r matches Err(x) && x@ == e,
                _ => false,
            },
    {
        let ghost src = self.source@;
        let i = self.start;
        while self.current < self.source.len() && digit_char_test(self.source[self.current])
            invariant
                i + 1 <= self.current <= src.len(),
                self.wf(),
                self.same_input(old(self)),
                self.source@ == src,
                self.start == i,
                self.line == old(self).line,
                self.tokens == old(self).tokens,
                digits_end(src, i as int) == digits_end(src, self.current as int),
                forall|k: int| i <= k < self.current ==> is_digit(#[trigger] src[k]),
            decreases src.len() - self.current,
        {
            self.current = self.current + 1;
        }
        let j = self.current;
        if j < self.source.len() && self.source.len() - j > 1 && self.source[j] == '.' && digit_char_test(self.source[j + 1]) {
            let mut k = j + 1;
            while k < self.source.len() && digit_char_test(self.source[k])
                invariant
                    j + 1 <= k <= src.len(),
                    self.source@ == src,
                    digits_end(src, j + 1) == digits_end(src, k as int),
                decreases src.len() - k,
            {
                k = k + 1;
            }
            return Err(
                Error::Lexical(
                    self.line,
                    String::from_str("fractional numbers are not supported"),
                    string_of(&self.source, i, k),
                ),
            );
        }
        let ghost digits = src.subrange(i as int, j as int);
        let mut v: u64 = 0;
        let mut p = i;
        assert(digits.subrange(0, 0) =~= Seq::<char>::empty());
        while p < j
            invariant
                i <= p <= j,
                j <= src.len(),
                self.wf(),
                self.same_input(old(self)),
                self.line == old(self).line,
                self.tokens == old(self).tokens,
                self.current == j,
                i == old(self).start,
                digits_end(src, i as int) == j,
                !(j + 1 < src.len() && src[j as int] == '.' && is_digit(src[j + 1])),
                src == old(self).source@,
                self.source@ == src,
                digits == src.subrange(i as int, j as int),
                forall|k: int| i <= k < j ==> is_digit(#[trigger] src[k]),
                v == decimal_value(digits.subrange(0, p - i)),
                v <= i64::MAX,
            decreases j - p,
        {
            assert(digits.subrange(0, p - i + 1).drop_last() =~= digits.subrange(0, p - i));
            let d = self.source[p] as u64 - '0' as u64;
            assert(d == digit_value(digits[p - i]));
            let next: u64 = if v <= (0x7fff_ffff_ffff_ffffu64 - d) / 10 {
                v * 10 + d
            } else {
                0x8000_0000_0000_0000u64
            };
            if next > 0x7fff_ffff_ffff_ffffu64 {
                proof {
                    assert(decimal_value(digits.subrange(0, p - i + 1)) > i64::MAX);
                    lemma_decimal_mono(digits, p - i + 1, digits.len() as int);
                    assert(digits.subrange(0, digits.len() as int) =~= digits);
                }
                return Err(
                    Error::Lexical(
                        self.line,
                        String::from_str("number too large"),
                        string_of(&self.source, i, j),
                    ),
                );
            }
            v = next;
            p = p + 1;
        }
        assert(digits.subrange(0, j - i) =~= digits);
        let text = string_of(&self.source, i, j);
        let line = self.line;
        self.push_token(
            Token {
                token_type: TokenType::NUMBER,
                lexeme: text,
                literal: Literal::Number(v as i64),
                line,
            },
        );
        Ok(())
    }

    /// Lexes a word whose first character is just before the current
    /// position: a keyword or an identifier.
    fn identifier(&mut self)
        requires
            old(self).wf(),
            old(self).start + 1 == old(self).current,
            old(self).current <= old(self).source@.len(),
            is_word_start(old(self).source@[old(self).start as int]),
        ensures
            final(self).wf(),
            final(self).same_input(old(self)),
            final(self).current > old(self).start,
            lex_step(old(self).source@, old(self).start as int, old(self).line) matches LexStep::Emit(
                t,
                j,
                l,
            ) && final(self).current == j && final(self).line == l && toks_view(final(self).tokens@)
                == toks_view(old(self).tokens@).push(t),
    {
        let ghost src = self.source@;
        let i = self.start;
        while self.current < self.source.len() && word_char_test(self.source[self.current])
            invariant
                i + 1 <= self.current <= src.len(),
                self.wf(),
                self.same_input(old(self)),
                self.source@ == src,
                self.start == i,
                self.line == old(self).line,
                self.tokens == old(self).tokens,
                word_end(src, i as int) == word_end(src, self.current as int),
            decreases src.len() - self.current,
        {
            self.current = self.current + 1;
        }
        let text = string_of(&self.source, i, self.current);
        let kind = match self.keyword_kind(&text) {
            Some(k) => k,
            None => TokenType::IDENTIFIER,
        };
        let line = self.line;
        self.push_token(Token { token_type: kind, lexeme: text, literal: Literal::Nil, line });
    }
}

/// The tokens of a whole source text, ending with `EOF`, or the first
/// lexical error.
pub fn scan(source: &str) -> (r: Result<Vec<Token>, Error>)
    ensures
        toks_res(r) == lex(source@),
        r matches Ok(ts) ==> ts@.len() > 0 && ts@.last().token_type == TokenType::EOF,
{
    let mut s = Scanner::new(String::from_str(source));
    assert(toks_view(s.tokens@) =~= Seq::empty());
    let r = s.scan_tokens();
    proof {
        if r is Ok {
            lemma_lex_ends_with_eof(source@, 0, 1, Seq::empty());
            let ts = r->Ok_0;
            assert(toks_view(ts@).last() == ts@.last()@);
        }
    }
    r
}

} // verus!
