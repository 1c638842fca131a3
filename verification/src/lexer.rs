//! Lexical analysis: turns a byte buffer into a stream of tokens with
//! source positions.  `next_token` consumes one token; `peek_token`
//! returns the same token without advancing.

use vstd::prelude::*;
use vstd::string::*;

verus! {

/// The kinds of token the language knows.
#[derive(Clone, Copy, Debug, PartialEq, Eq, Structural)]
pub enum TokenKind {
    Symbol,
    LeftArrow,
    RightArrow,
    Cmd,
    Bra,
    Ket,
    NewLine,
}

/// Human-readable name of a token kind, used in error messages.
pub open spec fn kind_str(k: TokenKind) -> Seq<char> {
    match k {
        TokenKind::Symbol => "Symbol"@,
        TokenKind::LeftArrow => "<-"@,
        TokenKind::RightArrow => "->"@,
        TokenKind::Cmd => "Cmd"@,
        TokenKind::Bra => "["@,
        TokenKind::Ket => "]"@,
        TokenKind::NewLine => "new line"@,
    }
}

/// Human-readable name of a token kind, as bytes, used when an error
/// message is assembled.
pub open spec fn kind_bytes(k: TokenKind) -> Seq<u8> {
    match k {
        TokenKind::Symbol => "Symbol".spec_bytes(),
        TokenKind::LeftArrow => "<-".spec_bytes(),
        TokenKind::RightArrow => "->".spec_bytes(),
        TokenKind::Cmd => "Cmd".spec_bytes(),
        TokenKind::Bra => "[".spec_bytes(),
        TokenKind::Ket => "]".spec_bytes(),
        TokenKind::NewLine => "new line".spec_bytes(),
    }
}

impl TokenKind {
    pub fn to_str(self) -> (r: &'static str)
        ensures
            r@ == kind_str(self),
    {
        match self {
            TokenKind::Symbol => "Symbol",
            TokenKind::LeftArrow => "<-",
            TokenKind::RightArrow => "->",
            TokenKind::Cmd => "Cmd",
            TokenKind::Bra => "[",
            TokenKind::Ket => "]",
            TokenKind::NewLine => "new line",
        }
    }
}

/// A source position: zero-based row and column plus the file label.
#[derive(Clone, Copy, Debug)]
pub struct Loc {
    pub file: &'static str,
    pub row: usize,
    pub col: usize,
}

/// Model of a position: the file label is carried separately.
pub ghost struct LocV {
    pub row: int,
    pub col: int,
}

impl View for Loc {
    type V = LocV;

    open spec fn view(&self) -> LocV {
        LocV { row: self.row as int, col: self.col as int }
    }
}

/// A token: its kind, the bytes it covers, and where it started.
#[derive(Clone, Debug)]
pub struct Token {
    pub kind: TokenKind,
    pub text: Vec<u8>,
    pub loc: Loc,
}

/// Model of a token.
pub ghost struct TokenV {
    pub kind: TokenKind,
    pub text: Seq<u8>,
    pub loc: LocV,
}

impl View for Token {
    type V = TokenV;

    open spec fn view(&self) -> TokenV {
        TokenV { kind: self.kind, text: self.text@, loc: self.loc@ }
    }
}

/// What a call of the lexer yields: a token, the end of input, or one
/// of the two lexical error markers.
#[derive(Clone, Debug)]
pub enum TokenResult {
    Eof { loc: Loc },
    Unknown { text: Vec<u8>, loc: Loc },
    UnclosedStr { loc: Loc },
    Valid(Token),
}

/// Model of a lexer outcome.
pub ghost enum TokV {
    Eof { loc: LocV },
    Unknown { text: Seq<u8>, loc: LocV },
    UnclosedStr { loc: LocV },
    Valid(TokenV),
}

impl View for TokenResult {
    type V = TokV;

    open spec fn view(&self) -> TokV {
        match self {
            TokenResult::Eof { loc } => TokV::Eof { loc: loc@ },
            TokenResult::Unknown { text, loc } => TokV::Unknown { text: text@, loc: loc@ },
            TokenResult::UnclosedStr { loc } => TokV::UnclosedStr { loc: loc@ },
            TokenResult::Valid(t) => TokV::Valid(t@),
        }
    }
}

/// The file label carried by an outcome's location.
pub open spec fn result_file(r: &TokenResult) -> &'static str {
    match r {
        TokenResult::Eof { loc } => loc.file,
        TokenResult::Unknown { loc, .. } => loc.file,
        TokenResult::UnclosedStr { loc } => loc.file,
        TokenResult::Valid(t) => t.loc.file,
    }
}

/// The lexer: a cursor over the source bytes, with the start of the
/// current line (`bol`) and the zero-based line number (`row`).
#[derive(Debug)]
pub struct Lexer {
    content: Vec<u8>,
    file: &'static str,
    cur: usize,
    bol: usize,
    row: usize,
}

/// Model of the lexer's state.
pub ghost struct LexerV {
    pub content: Seq<u8>,
    pub cur: int,
    pub bol: int,
    pub row: int,
}

impl LexerV {
    pub open spec fn wf(self) -> bool {
        0 <= self.bol <= self.cur <= self.content.len() && 0 <= self.row <= self.cur
    }
}

impl View for Lexer {
    type V = LexerV;

    closed spec fn view(&self) -> LexerV {
        LexerV {
            content: self.content@,
            cur: self.cur as int,
            bol: self.bol as int,
            row: self.row as int,
        }
    }
}

/// Horizontal whitespace: tab, form feed, carriage return, space.
pub open spec fn is_hws(b: u8) -> bool {
    b == 9 || b == 12 || b == 13 || b == 32
}

/// A byte that may stand in a bare symbol: not ASCII whitespace, not a
/// single quote, and not the first byte of any fixed literal token.
pub open spec fn is_symbol_byte(b: u8) -> bool {
    &&& !is_hws(b)
    &&& b != 10  // '\n'
    &&& b != 39  // '\''
    &&& b != 45  // '-'
    &&& b != 60  // '<'
    &&& b != 91  // '['
    &&& b != 93  // ']'
}

/// First index at or after `i` whose byte is not horizontal whitespace.
pub open spec fn hws_end(c: Seq<u8>, i: int) -> int
    decreases c.len() - i,
{
    if 0 <= i && i < c.len() && is_hws(c[i]) {
        hws_end(c, i + 1)
    } else {
        i
    }
}

/// First index at or after `i` whose byte is not a symbol byte.
pub open spec fn sym_end(c: Seq<u8>, i: int) -> int
    decreases c.len() - i,
{
    if 0 <= i && i < c.len() && is_symbol_byte(c[i]) {
        sym_end(c, i + 1)
    } else {
        i
    }
}

/// First index at or after `i` holding a newline, or the end of input.
pub open spec fn line_end(c: Seq<u8>, i: int) -> int
    decreases c.len() - i,
{
    if 0 <= i && i < c.len() && c[i] != 10 {
        line_end(c, i + 1)
    } else {
        i
    }
}

/// First index at or after `i` holding a newline or a single quote, or
/// the end of input.
pub open spec fn quote_end(c: Seq<u8>, i: int) -> int
    decreases c.len() - i,
{
    if 0 <= i && i < c.len() && c[i] != 10 && c[i] != 39 {
        quote_end(c, i + 1)
    } else {
        i
    }
}

/// One step of the lexer: the outcome and the state after it.
pub ghost struct LexStepV {
    pub tok: TokV,
    pub end: LexerV,
}

/// What `next_token` returns and how it moves the cursor, as a function
/// of the lexer's state.  Rules in priority order: end of input; a
/// `//` comment (skipped, the following token keeps the comment's
/// start position and text span); a quoted string; a `#` directive; a
/// bare symbol; the fixed literals `->`, `<-`, `[`, `]`, newline; and
/// otherwise a single unknown byte.
#[verifier::opaque]
pub open spec fn spec_next_token(v: LexerV) -> LexStepV {
    let c = v.content;
    let t = hws_end(c, v.cur);
    let loc = LocV { row: v.row, col: t - v.bol };
    let s = if t + 1 < c.len() && c[t] == 47 && c[t + 1] == 47 {
        line_end(c, t)
    } else {
        t
    };
    let v2 = LexerV { cur: s, ..v };
    if s >= c.len() {
        LexStepV { tok: TokV::Eof { loc }, end: v2 }
    } else if c[s] == 39 {
        let j = quote_end(c, s + 1);
        if j >= c.len() || c[j] == 10 {
            LexStepV { tok: TokV::UnclosedStr { loc }, end: LexerV { cur: j, ..v2 } }
        } else {
            LexStepV {
                tok: TokV::Valid(
                    TokenV { kind: TokenKind::Symbol, text: c.subrange(s + 1, j), loc },
                ),
                end: LexerV { cur: j + 1, ..v2 },
            }
        }
    } else if c[s] == 35 {
        let e = sym_end(c, s + 1);
        LexStepV {
            tok: TokV::Valid(TokenV { kind: TokenKind::Cmd, text: c.subrange(t, e), loc }),
            end: LexerV { cur: e, ..v2 },
        }
    } else if is_symbol_byte(c[s]) {
        let e = sym_end(c, s + 1);
        LexStepV {
            tok: TokV::Valid(TokenV { kind: TokenKind::Symbol, text: c.subrange(t, e), loc }),
            end: LexerV { cur: e, ..v2 },
        }
    } else if c[s] == 45 && s + 1 < c.len() && c[s + 1] == 62 {
        LexStepV {
            tok: TokV::Valid(
                TokenV { kind: TokenKind::RightArrow, text: c.subrange(t, s + 2), loc },
            ),
            end: LexerV { cur: s + 2, ..v2 },
        }
    } else if c[s] == 60 && s + 1 < c.len() && c[s + 1] == 45 {
        LexStepV {
            tok: TokV::Valid(
                TokenV { kind: TokenKind::LeftArrow, text: c.subrange(t, s + 2), loc },
            ),
            end: LexerV { cur: s + 1 + 1, ..v2 },
        }
    } else if c[s] == 91 {
        LexStepV {
            tok: TokV::Valid(TokenV { kind: TokenKind::Bra, text: c.subrange(t, s + 1), loc }),
            end: LexerV { cur: s + 1, ..v2 },
        }
    } else if c[s] == 93 {
        LexStepV {
            tok: TokV::Valid(TokenV { kind: TokenKind::Ket, text: c.subrange(t, s + 1), loc }),
            end: LexerV { cur: s + 1, ..v2 },
        }
    } else if c[s] == 10 {
        LexStepV {
            tok: TokV::Valid(
                TokenV { kind: TokenKind::NewLine, text: c.subrange(t, s + 1), loc },
            ),
            end: LexerV { content: v.content, cur: s + 1, bol: s + 1, row: v.row + 1 },
        }
    } else {
        LexStepV {
            tok: TokV::Unknown { text: c.subrange(t, s + 1), loc },
            end: LexerV { cur: s + 1, ..v2 },
        }
    }
}

/// Bounds of the whitespace scan: it never backs up or leaves the input.
pub proof fn lemma_hws_end_bounds(c: Seq<u8>, i: int)
    requires
        0 <= i <= c.len(),
    ensures
        i <= hws_end(c, i) <= c.len(),
    decreases c.len() - i,
{
    if i < c.len() && is_hws(c[i]) {
        lemma_hws_end_bounds(c, i + 1);
    }
}

/// Bounds of the symbol scan.
pub proof fn lemma_sym_end_bounds(c: Seq<u8>, i: int)
    requires
        0 <= i <= c.len(),
    ensures
        i <= sym_end(c, i) <= c.len(),
    decreases c.len() - i,
{
    if i < c.len() && is_symbol_byte(c[i]) {
        lemma_sym_end_bounds(c, i + 1);
    }
}

/// Bounds of the comment scan.
pub proof fn lemma_line_end_bounds(c: Seq<u8>, i: int)
    requires
        0 <= i <= c.len(),
    ensures
        i <= line_end(c, i) <= c.len(),
    decreases c.len() - i,
{
    if i < c.len() && c[i] != 10 {
        lemma_line_end_bounds(c, i + 1);
    }
}

/// Bounds of the quoted-string scan.
pub proof fn lemma_quote_end_bounds(c: Seq<u8>, i: int)
    requires
        0 <= i <= c.len(),
    ensures
        i <= quote_end(c, i) <= c.len(),
    decreases c.len() - i,
{
    if i < c.len() && c[i] != 10 && c[i] != 39 {
        lemma_quote_end_bounds(c, i + 1);
    }
}

/// The lexer only moves forward: a call of `next_token` keeps the input
/// and the well-formedness of the state, never moves the cursor back,
/// and consumes at least one byte whenever the outcome is not `Eof`.
pub proof fn lemma_next_token_advances(v: LexerV)
    requires
        v.wf(),
    ensures
        spec_next_token(v).end.wf(),
        spec_next_token(v).end.content == v.content,
        spec_next_token(v).end.cur >= v.cur,
        !(spec_next_token(v).tok is Eof) ==> spec_next_token(v).end.cur > v.cur,
{
    reveal(spec_next_token);
    let c = v.content;
    let t = hws_end(c, v.cur);
    lemma_hws_end_bounds(c, v.cur);
    let s = if t + 1 < c.len() && c[t] == 47 && c[t + 1] == 47 {
        line_end(c, t)
    } else {
        t
    };
    if t + 1 < c.len() && c[t] == 47 && c[t + 1] == 47 {
        lemma_line_end_bounds(c, t);
    }
    if s < c.len() {
        if c[s] == 39 {
            lemma_quote_end_bounds(c, s + 1);
        } else if c[s] == 35 || is_symbol_byte(c[s]) {
            lemma_sym_end_bounds(c, s + 1);
        }
    }
}

/// A stretch without a newline scans to the end of the input.
pub proof fn lemma_line_end_all(c: Seq<u8>, i: int)
    requires
        0 <= i <= c.len(),
        forall|j: int| i <= j < c.len() ==> c[j] != 10,
    ensures
        line_end(c, i) == c.len(),
    decreases c.len() - i,
{
    if i < c.len() {
        lemma_line_end_all(c, i + 1);
    }
}

/// A source holding, from the cursor on, only horizontal whitespace
/// and then at most one comment running to the end of the input lexes
/// to `Eof` as its next token.  (A newline anywhere would instead
/// produce a `NewLine` token.)
pub proof fn lemma_ws_comments_eof(v: LexerV)
    requires
        v.wf(),
        ({
            let c = v.content;
            let t = hws_end(c, v.cur);
            t == c.len() || (t + 1 < c.len() && c[t] == 47 && c[t + 1] == 47 && forall|j: int|
                t <= j < c.len() ==> c[j] != 10)
        }),
    ensures
        spec_next_token(v).tok is Eof,
{
    reveal(spec_next_token);
    lemma_hws_end_bounds(v.content, v.cur);
    let t = hws_end(v.content, v.cur);
    if t < v.content.len() {
        lemma_line_end_all(v.content, t);
    }
}

/// The whitespace scan stops exactly at the first byte that is not
/// horizontal whitespace.
pub proof fn lemma_hws_end_exact(c: Seq<u8>, i: int, j: int)
    requires
        0 <= i <= j <= c.len(),
        forall|k: int| i <= k < j ==> is_hws(c[k]),
        j == c.len() || !is_hws(c[j]),
    ensures
        hws_end(c, i) == j,
    decreases j - i,
{
    if i < j {
        lemma_hws_end_exact(c, i + 1, j);
    }
}

/// The symbol scan stops exactly at the first byte that is not a
/// symbol byte.
pub proof fn lemma_sym_end_exact(c: Seq<u8>, i: int, j: int)
    requires
        0 <= i <= j <= c.len(),
        forall|k: int| i <= k < j ==> is_symbol_byte(c[k]),
        j == c.len() || !is_symbol_byte(c[j]),
    ensures
        sym_end(c, i) == j,
    decreases j - i,
{
    if i < j {
        lemma_sym_end_exact(c, i + 1, j);
    }
}

/// At a stretch of horizontal whitespace followed by a bare symbol, the
/// lexer yields exactly that symbol and stops right after it.
pub proof fn lemma_lex_symbol(v: LexerV, t: int, j: int)
    requires
        v.wf(),
        v.cur <= t < j <= v.content.len(),
        forall|k: int| v.cur <= k < t ==> is_hws(v.content[k]),
        forall|k: int| t <= k < j ==> is_symbol_byte(v.content[k]),
        j == v.content.len() || !is_symbol_byte(v.content[j]),
        v.content[t] != 35,
        !(v.content[t] == 47 && t + 1 < v.content.len() && v.content[t + 1] == 47),
    ensures
        spec_next_token(v).tok == TokV::Valid(
            TokenV {
                kind: TokenKind::Symbol,
                text: v.content.subrange(t, j),
                loc: LocV { row: v.row, col: t - v.bol },
            },
        ),
        spec_next_token(v).end == (LexerV { cur: j, ..v }),
{
    reveal(spec_next_token);
    let c = v.content;
    lemma_hws_end_exact(c, v.cur, t);
    lemma_sym_end_exact(c, t + 1, j);
}

/// At a stretch of horizontal whitespace followed by a fixed literal
/// token of one or two bytes, the lexer yields that literal.
pub proof fn lemma_lex_literal(v: LexerV, t: int, kind: TokenKind)
    requires
        v.wf(),
        v.cur <= t < v.content.len(),
        forall|k: int| v.cur <= k < t ==> is_hws(v.content[k]),
        kind == TokenKind::LeftArrow ==> t + 1 < v.content.len() && v.content[t] == 60
            && v.content[t + 1] == 45,
        kind == TokenKind::RightArrow ==> t + 1 < v.content.len() && v.content[t] == 45
            && v.content[t + 1] == 62,
        kind == TokenKind::NewLine ==> v.content[t] == 10,
        kind == TokenKind::LeftArrow || kind == TokenKind::RightArrow || kind
            == TokenKind::NewLine,
    ensures
        kind != TokenKind::NewLine ==> spec_next_token(v) == (LexStepV {
            tok: TokV::Valid(
                TokenV {
                    kind,
                    text: v.content.subrange(t, t + 2),
                    loc: LocV { row: v.row, col: t - v.bol },
                },
            ),
            end: LexerV { cur: t + 2, ..v },
        }),
        kind == TokenKind::NewLine ==> spec_next_token(v) == (LexStepV {
            tok: TokV::Valid(
                TokenV {
                    kind,
                    text: v.content.subrange(t, t + 1),
                    loc: LocV { row: v.row, col: t - v.bol },
                },
            ),
            end: LexerV { content: v.content, cur: t + 1, bol: t + 1, row: v.row + 1 },
        }),
{
    reveal(spec_next_token);
    lemma_hws_end_exact(v.content, v.cur, t);
}

/// A bare-symbol byte test, as the grammar defines it.
pub fn is_symbol(s: u8) -> (r: bool)
    ensures
        r == is_symbol_byte(s),
{
    !(s == 9 || s == 12 || s == 13 || s == 32 || s == 10 || s == 39 || s == 45 || s == 60
        || s == 91 || s == 93)
}

/// Copies the byte range `[start, end)` out of `v`.
pub fn copy_range(v: &Vec<u8>, start: usize, end: usize) -> (r: Vec<u8>)
    requires
        start <= end <= v@.len(),
    ensures
        r@ == v@.subrange(start as int, end as int),
{
    let mut r: Vec<u8> = Vec::new();
    let mut i: usize = start;
    while i < end
        invariant
            start <= i <= end <= v@.len(),
            r@ == v@.subrange(start as int, i as int),
        decreases end - i,
    {
        r.push(v[i]);
        i = i + 1;
        assert(r@ =~= v@.subrange(start as int, i as int));
    }
    r
}

impl Lexer {
    pub open spec fn wf(&self) -> bool {
        self@.wf()
    }

    /// A fresh lexer at the start of `content`, labelled with `file`.
    pub fn new(content: Vec<u8>, file: &'static str) -> (r: Lexer)
        ensures
            r.wf(),
            r@ == (LexerV { content: content@, cur: 0, bol: 0, row: 0 }),
            r.file() == file,
    {
        Lexer { content, file, cur: 0, bol: 0, row: 0 }
    }

    pub closed spec fn file(&self) -> &'static str {
        self.file
    }

    /// The position of the cursor, as a printable location.
    pub fn loc(&self) -> (l: Loc)
        requires
            self.wf(),
        ensures
            l@ == (LocV { row: self@.row, col: self@.cur - self@.bol }),
            l.file == self.file(),
    {
        Loc { file: self.file, row: self.row, col: self.cur - self.bol }
    }

    fn exhausted(&self) -> (r: bool)
        ensures
            r == (self@.cur >= self@.content.len()),
    {
        self.content.len() <= self.cur
    }

    /// Skips horizontal whitespace (never a newline).
    fn trim_left(&mut self)
        requires
            old(self).wf(),
        ensures
            final(self).wf(),
            final(self)@.content == old(self)@.content,
            final(self)@.cur == hws_end(old(self)@.content, old(self)@.cur),
            final(self)@.bol == old(self)@.bol,
            final(self)@.row == old(self)@.row,
            final(self).file() == old(self).file(),
    {
        while self.cur < self.content.len() && (self.content[self.cur] == 9
            || self.content[self.cur] == 12 || self.content[self.cur] == 13
            || self.content[self.cur] == 32)
            invariant
                self.wf(),
                self@.content == old(self)@.content,
                self@.bol == old(self)@.bol,
                self@.row == old(self)@.row,
                self.file() == old(self).file(),
                hws_end(self@.content, self@.cur) == hws_end(old(self)@.content, old(self)@.cur),
            decreases self@.content.len() - self@.cur,
        {
            self.cur = self.cur + 1;
        }
    }

    /// Skips the rest of the line: everything up to a newline or the end
    /// of input.
    fn skip_line_comment(&mut self)
        requires
            old(self).wf(),
        ensures
            final(self).wf(),
            final(self)@.content == old(self)@.content,
            final(self)@.bol == old(self)@.bol,
            final(self)@.row == old(self)@.row,
            final(self).file() == old(self).file(),
            final(self)@.cur == line_end(old(self)@.content, old(self)@.cur),
            final(self)@.cur >= old(self)@.cur,
            final(self)@.cur == final(self)@.content.len() || final(self)@.content[final(self)@.cur]
                == 10,
    {
        while self.cur < self.content.len() && self.content[self.cur] != 10
            invariant
                self.wf(),
                self@.content == old(self)@.content,
                self@.bol == old(self)@.bol,
                self@.row == old(self)@.row,
                self@.cur >= old(self)@.cur,
                self.file() == old(self).file(),
                line_end(self@.content, self@.cur) == line_end(old(self)@.content, old(self)@.cur),
            decreases self@.content.len() - self@.cur,
        {
            self.cur = self.cur + 1;
        }
    }

    /// Scans a directive or a bare symbol: the byte under the cursor and
    /// every following symbol byte.
    fn extract_symbolic(&mut self, kind: TokenKind, start: usize, loc: Loc) -> (res: TokenResult)
        requires
            old(self).wf(),
            start <= old(self)@.cur < old(self)@.content.len(),
        ensures
            final(self).wf(),
            final(self)@.content == old(self)@.content,
            final(self)@.bol == old(self)@.bol,
            final(self)@.row == old(self)@.row,
            final(self).file() == old(self).file(),
            final(self)@.cur == sym_end(old(self)@.content, old(self)@.cur + 1),
            res@ == TokV::Valid(
                TokenV {
                    kind,
                    text: old(self)@.content.subrange(start as int, final(self)@.cur),
                    loc: loc@,
                },
            ),
            result_file(&res) == loc.file,
    {
        let _n = self.content.len();
        self.cur = self.cur + 1;
        while self.cur < self.content.len() && is_symbol(self.content[self.cur])
            invariant
                self.wf(),
                self@.content == old(self)@.content,
                self@.bol == old(self)@.bol,
                self@.row == old(self)@.row,
                self.file() == old(self).file(),
                start < self@.cur,
                sym_end(self@.content, self@.cur) == sym_end(
                    old(self)@.content,
                    old(self)@.cur + 1,
                ),
            decreases self@.content.len() - self@.cur,
        {
            self.cur = self.cur + 1;
        }
        let text = copy_range(&self.content, start, self.cur);
        TokenResult::Valid(Token { kind, text, loc })
    }

    /// Scans a quoted string: the bytes between the opening quote under
    /// the cursor and the next quote on the same line.  A newline or the
    /// end of input before the closing quote is an unclosed-string error.
    fn extract_string_token(&mut self, start: usize, loc: Loc) -> (res: TokenResult)
        requires
            old(self).wf(),
            start == old(self)@.cur,
            old(self)@.cur < old(self)@.content.len(),
        ensures
            final(self).wf(),
            final(self)@.content == old(self)@.content,
            final(self)@.bol == old(self)@.bol,
            final(self)@.row == old(self)@.row,
            final(self).file() == old(self).file(),
            ({
                let c = old(self)@.content;
                let j = quote_end(c, old(self)@.cur + 1);
                if j >= c.len() || c[j] == 10 {
                    final(self)@.cur == j && res@ == TokV::UnclosedStr { loc: loc@ }
                } else {
                    final(self)@.cur == j + 1 && res@ == TokV::Valid(
                        TokenV {
                            kind: TokenKind::Symbol,
                            text: c.subrange(start + 1, j),
                            loc: loc@,
                        },
                    )
                }
            }),
            result_file(&res) == loc.file,
    {
        let _n = self.content.len();
        self.cur = self.cur + 1;
        while self.cur < self.content.len() && self.content[self.cur] != 10 && self.content[
            self.cur
        ] != 39
            invariant
                self.wf(),
                self@.content == old(self)@.content,
                self@.bol == old(self)@.bol,
                self@.row == old(self)@.row,
                self.file() == old(self).file(),
                start < self@.cur,
                quote_end(self@.content, self@.cur) == quote_end(
                    old(self)@.content,
                    old(self)@.cur + 1,
                ),
            decreases self@.content.len() - self@.cur,
        {
            self.cur = self.cur + 1;
        }
        if self.content.len() <= self.cur || self.content[self.cur] == 10 {
            return TokenResult::UnclosedStr { loc };
        }
        let text = copy_range(&self.content, start + 1, self.cur);
        self.cur = self.cur + 1;
        TokenResult::Valid(Token { kind: TokenKind::Symbol, text, loc })
    }

    /// Returns the next token and advances past it.
    pub fn next_token(&mut self) -> (res: TokenResult)
        requires
            old(self).wf(),
        ensures
            final(self).wf(),
            res@ == spec_next_token(old(self)@).tok,
            final(self)@ == spec_next_token(old(self)@).end,
            final(self)@.content == old(self)@.content,
            final(self).file() == old(self).file(),
            result_file(&res) == old(self).file(),
    {
        proof {
            reveal(spec_next_token);
        }
        self.trim_left();

        let start = self.cur;
        let loc = self.loc();

        if self.exhausted() {
            return TokenResult::Eof { loc };
        }
        let n = self.content.len();
        if self.cur + 1 < n && self.content[self.cur] == 47 && self.content[self.cur + 1] == 47 {
            self.skip_line_comment();
            if self.exhausted() {
                return TokenResult::Eof { loc };
            }
        }

        let ch = self.content[self.cur];
        if ch == 39 {
            return self.extract_string_token(start, loc);
        }
        if ch == 35 {
            return self.extract_symbolic(TokenKind::Cmd, start, loc);
        }
        if is_symbol(ch) {
            return self.extract_symbolic(TokenKind::Symbol, start, loc);
        }

        if ch == 45 && self.cur + 1 < self.content.len() && self.content[self.cur + 1] == 62 {
            self.cur = self.cur + 2;
            let text = copy_range(&self.content, start, self.cur);
            return TokenResult::Valid(Token { kind: TokenKind::RightArrow, text, loc });
        }
        if ch == 60 && self.cur + 1 < self.content.len() && self.content[self.cur + 1] == 45 {
            self.cur = self.cur + 2;
            let text = copy_range(&self.content, start, self.cur);
            return TokenResult::Valid(Token { kind: TokenKind::LeftArrow, text, loc });
        }
        if ch == 91 {
            self.cur = self.cur + 1;
            let text = copy_range(&self.content, start, self.cur);
            return TokenResult::Valid(Token { kind: TokenKind::Bra, text, loc });
        }
        if ch == 93 {
            self.cur = self.cur + 1;
            let text = copy_range(&self.content, start, self.cur);
            return TokenResult::Valid(Token { kind: TokenKind::Ket, text, loc });
        }
        if ch == 10 {
            self.bol = self.cur + 1;
            self.row = self.row + 1;
            self.cur = self.cur + 1;
            let text = copy_range(&self.content, start, self.cur);
            return TokenResult::Valid(Token { kind: TokenKind::NewLine, text, loc });
        }

        self.cur = self.cur + 1;
        let text = copy_range(&self.content, start, self.cur);
        TokenResult::Unknown { text, loc }
    }

    /// Returns the next token without advancing: the lexer's position,
    /// line start and row are exactly what they were before the call.
    pub fn peek_token(&mut self) -> (res: TokenResult)
        requires
            old(self).wf(),
        ensures
            final(self).wf(),
            final(self)@ == old(self)@,
            final(self).file() == old(self).file(),
            res@ == spec_next_token(old(self)@).tok,
            result_file(&res) == old(self).file(),
    {
        let cur = self.cur;
        let bol = self.bol;
        let row = self.row;
        let t = self.next_token();
        self.cur = cur;
        self.bol = bol;
        self.row = row;
        t
    }
}

} // verus!
