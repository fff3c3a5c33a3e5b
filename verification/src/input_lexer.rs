//! The lexer: a single forward pass over one line's byte buffer, producing
//! tokens with byte-accurate spans. Classification is first-match-wins on the
//! current byte plus one byte of lookahead; platform differences (separator,
//! path prefix, bytes allowed inside bare words) come from a configuration
//! value supplied once at construction.

use vstd::prelude::*;
use crate::ast::Span;
use crate::diagnostics::{Diagnostic, DiagnosticKind};

verus! {

/// The byte values the classifier names: `.`, `:`, `\\`, `/`, `-`, `?`,
/// `|`, `<`, `>`, `&`, `"` and `'`.
pub const DOT: u8 = 46;
pub const COLON: u8 = 58;
pub const BACKSLASH: u8 = 92;
pub const SLASH_FORWARD: u8 = 47;
pub const DASH: u8 = 45;
pub const QMARK: u8 = 63;
pub const PIPE_BYTE: u8 = 124;
pub const LT_BYTE: u8 = 60;
pub const GT_BYTE: u8 = 62;
pub const AMP_BYTE: u8 = 38;
pub const DQUOTE: u8 = 34;
pub const SQUOTE: u8 = 39;

/// The lexical class of a token.
#[derive(Clone, Copy, Debug, PartialEq, Eq, Structural)]
pub enum TokenType {
    Identifier,
    Number,
    Path,
    String,
    /// `|` — pipes stdout to the stdin of the following program.
    Pipe,
    /// `<` — pipes a file to the stdin of the program.
    RedirIn,
    /// `>` — pipes stdout to a file.
    RedirOut,
    /// `&`.
    And,
    Whitespace,
    EOF,
}

/// A token: its class and the half-open byte range it was read from.
#[derive(Clone, Copy, Debug, PartialEq, Eq, Structural)]
pub struct Token {
    pub typ: TokenType,
    pub start: usize,
    pub end: usize,
}

impl Token {
    pub fn new(typ: TokenType, span: Span) -> (t: Token)
        ensures
            t.typ == typ,
            t.start == span.start,
            t.end == span.end,
    {
        Token { typ, start: span.start, end: span.end }
    }
}

/// Platform parameters, supplied once at lexer construction: the path
/// separator byte, whether absolute paths open with a drive-letter prefix,
/// and the bytes permitted inside bare words beyond alphanumerics.
#[derive(Clone, Debug)]
pub struct LexerConfig {
    pub slash: u8,
    pub drive_paths: bool,
    pub ident_except: Vec<u8>,
}

/// The mathematical value of a [`LexerConfig`].
pub struct LexerConfigV {
    pub slash: u8,
    pub drive_paths: bool,
    pub ident_except: Seq<u8>,
}

impl View for LexerConfig {
    type V = LexerConfigV;

    open spec fn view(&self) -> LexerConfigV {
        LexerConfigV {
            slash: self.slash,
            drive_paths: self.drive_paths,
            ident_except: self.ident_except@,
        }
    }
}

impl LexerConfig {
    /// Forward-slash separators, no drive prefix; `-` and `.` are permitted
    /// inside bare words for flags and file extensions.
    pub fn unix() -> (c: LexerConfig)
        ensures
            c@.slash == SLASH_FORWARD,
            !c@.drive_paths,
            c@.ident_except == seq![DASH, DOT],
    {
        let mut except: Vec<u8> = Vec::new();
        except.push(DASH);
        except.push(DOT);
        proof {
            assert(except@ =~= seq![DASH, DOT]);
        }
        LexerConfig { slash: SLASH_FORWARD, drive_paths: false, ident_except: except }
    }

    /// Backslash separators with drive-letter absolute paths; `/` and `?`
    /// are additionally permitted inside bare words for flag arguments.
    pub fn windows() -> (c: LexerConfig)
        ensures
            c@.slash == BACKSLASH,
            c@.drive_paths,
            c@.ident_except == seq![SLASH_FORWARD, QMARK, DASH, DOT],
    {
        let mut except: Vec<u8> = Vec::new();
        except.push(SLASH_FORWARD);
        except.push(QMARK);
        except.push(DASH);
        except.push(DOT);
        proof {
            assert(except@ =~= seq![SLASH_FORWARD, QMARK, DASH, DOT]);
        }
        LexerConfig { slash: BACKSLASH, drive_paths: true, ident_except: except }
    }
}

/// ASCII letter.
pub open spec fn is_alpha(c: u8) -> bool {
    (97 <= c && c <= 122) || (65 <= c && c <= 90)
}

/// ASCII digit.
pub open spec fn is_digit(c: u8) -> bool {
    48 <= c && c <= 57
}

/// ASCII letter or digit.
pub open spec fn is_alnum(c: u8) -> bool {
    is_alpha(c) || is_digit(c)
}

/// ASCII whitespace.
pub open spec fn is_space(c: u8) -> bool {
    c == 32 || c == 9 || c == 10 || c == 13
}

/// A byte that may continue a bare word: alphanumeric or a member of the
/// configured exception set.
pub open spec fn ident_cont(cfg: LexerConfigV, c: u8) -> bool {
    is_alnum(c) || cfg.ident_except.contains(c)
}

/// A byte that may open a bare word at position `i`: a letter that is not a
/// drive-letter prefix (on platforms with drives), or an exception byte
/// other than the dot, which instead opens a relative path.
pub open spec fn ident_start(s: Seq<u8>, cfg: LexerConfigV, i: int) -> bool {
    ||| (is_alpha(s[i]) && !(cfg.drive_paths && i + 1 < s.len() && s[i + 1] == COLON))
    ||| (cfg.ident_except.contains(s[i]) && s[i] != DOT)
}

/// The end of the run of word bytes beginning at `i`.
pub open spec fn ident_end(s: Seq<u8>, cfg: LexerConfigV, i: int) -> int
    decreases s.len() - i,
{
    if i < s.len() && ident_cont(cfg, s[i]) {
        ident_end(s, cfg, i + 1)
    } else {
        i
    }
}

/// The end of the run of digits beginning at `i`.
pub open spec fn digit_end(s: Seq<u8>, i: int) -> int
    decreases s.len() - i,
{
    if i < s.len() && is_digit(s[i]) {
        digit_end(s, i + 1)
    } else {
        i
    }
}

/// The end of the run of path bytes (alphanumerics and separators)
/// beginning at `i`.
pub open spec fn path_run_end(s: Seq<u8>, slash: u8, i: int) -> int
    decreases s.len() - i,
{
    if i < s.len() && (is_alnum(s[i]) || s[i] == slash) {
        path_run_end(s, slash, i + 1)
    } else {
        i
    }
}

/// Whether the bytes at `[i, j)` contain a dot. A bare word containing a
/// dot is reclassified as a path (file-extension heuristic).
pub open spec fn has_dot(s: Seq<u8>, i: int, j: int) -> bool {
    exists|k: int| i <= k < j && s[k] == DOT
}

/// Where scanning a string body from `i` ends: the position one past the
/// closing quote, or nothing if the input is exhausted first. A backslash
/// escapes the following byte; both are skipped as one unit.
pub open spec fn scan_string(s: Seq<u8>, quote: u8, i: int) -> Option<int>
    decreases s.len() + 2 - i,
{
    if i >= s.len() {
        None
    } else if s[i] == BACKSLASH {
        scan_string(s, quote, i + 2)
    } else if s[i] == quote {
        Some(i + 1)
    } else {
        scan_string(s, quote, i + 1)
    }
}

/// The platform path prefix at `i`: a drive letter before a colon where the
/// platform has drives, else the separator itself.
pub open spec fn abs_path_trigger(s: Seq<u8>, cfg: LexerConfigV, i: int) -> bool {
    if cfg.drive_paths {
        is_alpha(s[i]) && i + 1 < s.len() && s[i + 1] == COLON
    } else {
        s[i] == cfg.slash
    }
}

/// The smaller of two positions.
pub open spec fn min_pos(a: int, b: int) -> int {
    if a <= b {
        a
    } else {
        b
    }
}

/// The outcome of one lexing step at a position strictly inside the buffer:
/// the token class produced with its span, the position where scanning
/// resumes, and the diagnostic if the step failed. On failure the position
/// does not advance.
pub struct LexStep {
    pub typ: Option<TokenType>,
    pub start: int,
    pub end: int,
    pub next: int,
    pub error: Option<Diagnostic>,
}

/// A successful step: a token of class `t` spanning `[start, end)`.
pub open spec fn tok_step(t: TokenType, start: int, end: int) -> LexStep {
    LexStep { typ: Some(t), start, end, next: end, error: None }
}

/// A failed step: a diagnostic over `[lo, hi)`, the position kept at `at`.
pub open spec fn err_step(kind: DiagnosticKind, lo: int, hi: int, at: int) -> LexStep {
    LexStep {
        typ: None,
        start: 0,
        end: 0,
        next: at,
        error: Some(Diagnostic { kind, span: Span { start: lo as usize, end: hi as usize } }),
    }
}

/// One lexing step: the first-match classification of the byte at `i`,
/// which must lie strictly inside the buffer.
pub open spec fn lex_step(s: Seq<u8>, cfg: LexerConfigV, i: int) -> LexStep {
    let c = s[i];
    if ident_start(s, cfg, i) {
        let j = ident_end(s, cfg, i);
        tok_step(
            if has_dot(s, i, j) {
                TokenType::Path
            } else {
                TokenType::Identifier
            },
            i,
            j,
        )
    } else if is_digit(c) {
        tok_step(TokenType::Number, i, digit_end(s, i))
    } else if c == DOT {
        if i + 1 < s.len() && s[i + 1] == cfg.slash {
            tok_step(TokenType::Path, i, path_run_end(s, cfg.slash, i + 2))
        } else if i + 1 < s.len() && s[i + 1] == DOT {
            if i + 2 < s.len() && s[i + 2] == cfg.slash {
                tok_step(TokenType::Path, i, path_run_end(s, cfg.slash, i + 3))
            } else {
                err_step(DiagnosticKind::ExpectedSeparator, i + 2, min_pos(i + 3, s.len() as int), i)
            }
        } else {
            err_step(DiagnosticKind::MalformedRelativePath, i, min_pos(i + 2, s.len() as int), i)
        }
    } else if abs_path_trigger(s, cfg, i) {
        if cfg.drive_paths {
            if i + 2 < s.len() && s[i + 2] == cfg.slash {
                tok_step(TokenType::Path, i, path_run_end(s, cfg.slash, i + 3))
            } else {
                err_step(DiagnosticKind::ExpectedSeparator, i + 2, min_pos(i + 3, s.len() as int), i)
            }
        } else {
            tok_step(TokenType::Path, i, path_run_end(s, cfg.slash, i + 1))
        }
    } else if c == DQUOTE || c == SQUOTE {
        match scan_string(s, c, i + 1) {
            Some(j) => tok_step(TokenType::String, i, j),
            None => err_step(DiagnosticKind::UnterminatedString, i, s.len() as int, i),
        }
    } else if c == PIPE_BYTE {
        tok_step(TokenType::Pipe, i, i + 1)
    } else if c == LT_BYTE {
        tok_step(TokenType::RedirIn, i, i + 1)
    } else if c == GT_BYTE {
        tok_step(TokenType::RedirOut, i, i + 1)
    } else if c == AMP_BYTE {
        tok_step(TokenType::And, i, i + 1)
    } else if is_space(c) {
        tok_step(TokenType::Whitespace, i, i + 1)
    } else {
        err_step(DiagnosticKind::UnclassifiableCharacter, i, i + 1, i)
    }
}

/// The token value a step yields, if any.
pub open spec fn step_token(st: LexStep) -> Option<Token> {
    match st.typ {
        Some(t) => Some(Token { typ: t, start: st.start as usize, end: st.end as usize }),
        None => None,
    }
}

/// The stateful scanner over one line's bytes.
pub struct InputLexer {
    pub source: Vec<u8>,
    pub index: usize,
    pub eof_emitted: bool,
    pub error: Option<Diagnostic>,
    pub config: LexerConfig,
}

/// The full behaviour of one `next_token` call, relating the lexer before
/// and after the call to the returned token. At the end of the buffer an
/// EOF token with an empty span is emitted once; after that, and after any
/// lexical error, the call returns nothing and changes nothing.
pub open spec fn next_token_post(pre: InputLexer, post: InputLexer, r: Option<Token>) -> bool {
    let s = pre.source@;
    let i = pre.index as int;
    if pre.error is Some {
        r is None && post == pre
    } else if i == s.len() {
        if pre.eof_emitted {
            r is None && post == pre
        } else {
            &&& r == Some(Token { typ: TokenType::EOF, start: pre.index, end: pre.index })
            &&& post == (InputLexer { eof_emitted: true, ..pre })
        }
    } else {
        let st = lex_step(s, pre.config@, i);
        &&& r == step_token(st)
        &&& post.index as int == st.next
        &&& post.error == st.error
        &&& post.eof_emitted == pre.eof_emitted
        &&& post.source == pre.source
        &&& post.config == pre.config
    }
}

impl InputLexer {
    /// The scan position stays inside the buffer, and the buffer is small
    /// enough that two bytes of lookahead cannot overflow an index.
    pub open spec fn wf(self) -> bool {
        &&& self.index <= self.source@.len()
        &&& self.source@.len() + 3 <= usize::MAX
    }

    pub fn new(source: Vec<u8>, config: LexerConfig) -> (l: InputLexer)
        requires
            source@.len() + 3 <= usize::MAX,
        ensures
            l.wf(),
            l.source == source,
            l.config == config,
            l.index == 0,
            !l.eof_emitted,
            l.error is None,
    {
        InputLexer { source, index: 0, eof_emitted: false, error: None, config }
    }

    /// Consumes and returns one token, advancing the scan position
    /// monotonically. Returns nothing both once the buffer is exhausted
    /// (after emitting a final EOF token) and on a lexical error, which is
    /// recorded in `self.error` with its exact kind and span.
    pub fn next_token(&mut self) -> (r: Option<Token>)
        requires
            old(self).wf(),
        ensures
            final(self).wf(),
            next_token_post(*old(self), *final(self), r),
    {
        if self.error.is_some() {
            return None;
        }
        let len = self.source.len();
        let i = self.index;
        if i >= len {
            if self.eof_emitted {
                return None;
            }
            self.eof_emitted = true;
            return Some(Token::new(TokenType::EOF, Span::new(i, i)));
        }
        let c = self.source[i];
        let peek_colon = i + 1 < len && self.source[i + 1] == COLON;
        if (alpha(c) && !(self.config.drive_paths && peek_colon))
            || (contains_byte(&self.config.ident_except, c) && c != DOT) {
            let j = self.scan_word(i);
            let typ = if self.find_dot(i, j) {
                TokenType::Path
            } else {
                TokenType::Identifier
            };
            self.index = j;
            return Some(Token::new(typ, Span::new(i, j)));
        }
        if digit(c) {
            let j = self.scan_digits(i);
            self.index = j;
            return Some(Token::new(TokenType::Number, Span::new(i, j)));
        }
        if c == DOT {
            if i + 1 < len && self.source[i + 1] == self.config.slash {
                let j = self.scan_path_run(i + 2);
                self.index = j;
                return Some(Token::new(TokenType::Path, Span::new(i, j)));
            }
            if i + 1 < len && self.source[i + 1] == DOT {
                if i + 2 < len && self.source[i + 2] == self.config.slash {
                    let j = self.scan_path_run(i + 3);
                    self.index = j;
                    return Some(Token::new(TokenType::Path, Span::new(i, j)));
                }
                let hi = if i + 3 <= len {
                    i + 3
                } else {
                    len
                };
                self.error = Some(Diagnostic::new(
                    DiagnosticKind::ExpectedSeparator,
                    Span::new(i + 2, hi),
                ));
                return None;
            }
            let hi = if i + 2 <= len {
                i + 2
            } else {
                len
            };
            self.error = Some(Diagnostic::new(
                DiagnosticKind::MalformedRelativePath,
                Span::new(i, hi),
            ));
            return None;
        }
        let abs_trigger = if self.config.drive_paths {
            alpha(c) && peek_colon
        } else {
            c == self.config.slash
        };
        if abs_trigger {
            if self.config.drive_paths {
                if i + 2 < len && self.source[i + 2] == self.config.slash {
                    let j = self.scan_path_run(i + 3);
                    self.index = j;
                    return Some(Token::new(TokenType::Path, Span::new(i, j)));
                }
                let hi = if i + 3 <= len {
                    i + 3
                } else {
                    len
                };
                self.error = Some(Diagnostic::new(
                    DiagnosticKind::ExpectedSeparator,
                    Span::new(i + 2, hi),
                ));
                return None;
            }
            let j = self.scan_path_run(i + 1);
            self.index = j;
            return Some(Token::new(TokenType::Path, Span::new(i, j)));
        }
        if c == DQUOTE || c == SQUOTE {
            match self.scan_str(c, i + 1) {
                Some(j) => {
                    proof {
                        lemma_scan_string_bounds(self.source@, c, i + 1);
                    }
                    self.index = j;
                    return Some(Token::new(TokenType::String, Span::new(i, j)));
                },
                None => {
                    self.error = Some(Diagnostic::new(
                        DiagnosticKind::UnterminatedString,
                        Span::new(i, len),
                    ));
                    return None;
                },
            }
        }
        if c == PIPE_BYTE {
            self.index = i + 1;
            return Some(Token::new(TokenType::Pipe, Span::new(i, i + 1)));
        }
        if c == LT_BYTE {
            self.index = i + 1;
            return Some(Token::new(TokenType::RedirIn, Span::new(i, i + 1)));
        }
        if c == GT_BYTE {
            self.index = i + 1;
            return Some(Token::new(TokenType::RedirOut, Span::new(i, i + 1)));
        }
        if c == AMP_BYTE {
            self.index = i + 1;
            return Some(Token::new(TokenType::And, Span::new(i, i + 1)));
        }
        if space(c) {
            self.index = i + 1;
            return Some(Token::new(TokenType::Whitespace, Span::new(i, i + 1)));
        }
        self.error = Some(Diagnostic::new(
            DiagnosticKind::UnclassifiableCharacter,
            Span::new(i, i + 1),
        ));
        None
    }

    /// Scans the run of word bytes beginning at `from`.
    fn scan_word(&self, from: usize) -> (j: usize)
        requires
            self.wf(),
            from <= self.source@.len(),
        ensures
            j as int == ident_end(self.source@, self.config@, from as int),
            from <= j <= self.source@.len(),
    {
        let len = self.source.len();
        let mut j = from;
        loop
            invariant
                self.wf(),
                from <= j <= len,
                len == self.source@.len(),
                ident_end(self.source@, self.config@, from as int) == ident_end(
                    self.source@,
                    self.config@,
                    j as int,
                ),
            ensures
                j as int == ident_end(self.source@, self.config@, from as int),
                from <= j <= len,
            decreases len - j,
        {
            if j >= len {
                break;
            }
            let ch = self.source[j];
            if !(alnum(ch) || contains_byte(&self.config.ident_except, ch)) {
                break;
            }
            j += 1;
        }
        j
    }

    /// Scans the run of digits beginning at `from`.
    fn scan_digits(&self, from: usize) -> (j: usize)
        requires
            self.wf(),
            from <= self.source@.len(),
        ensures
            j as int == digit_end(self.source@, from as int),
            from <= j <= self.source@.len(),
    {
        let len = self.source.len();
        let mut j = from;
        loop
            invariant
                self.wf(),
                from <= j <= len,
                len == self.source@.len(),
                digit_end(self.source@, from as int) == digit_end(self.source@, j as int),
            ensures
                j as int == digit_end(self.source@, from as int),
                from <= j <= len,
            decreases len - j,
        {
            if j >= len {
                break;
            }
            if !digit(self.source[j]) {
                break;
            }
            j += 1;
        }
        j
    }

    /// Scans the run of path bytes beginning at `from`.
    fn scan_path_run(&self, from: usize) -> (j: usize)
        requires
            self.wf(),
            from <= self.source@.len(),
        ensures
            j as int == path_run_end(self.source@, self.config@.slash, from as int),
            from <= j <= self.source@.len(),
    {
        let len = self.source.len();
        let mut j = from;
        loop
            invariant
                self.wf(),
                from <= j <= len,
                len == self.source@.len(),
                path_run_end(self.source@, self.config@.slash, from as int) == path_run_end(
                    self.source@,
                    self.config@.slash,
                    j as int,
                ),
            ensures
                j as int == path_run_end(self.source@, self.config@.slash, from as int),
                from <= j <= len,
            decreases len - j,
        {
            if j >= len {
                break;
            }
            let ch = self.source[j];
            if !(alnum(ch) || ch == self.config.slash) {
                break;
            }
            j += 1;
        }
        j
    }

    /// Scans a string body from `from` until the closing quote.
    fn scan_str(&self, quote: u8, from: usize) -> (r: Option<usize>)
        requires
            self.wf(),
            from <= self.source@.len(),
        ensures
            match scan_string(self.source@, quote, from as int) {
                Some(j) => r matches Some(u) && u as int == j,
                None => r is None,
            },
    {
        let len = self.source.len();
        let mut j = from;
        loop
            invariant
                self.wf(),
                from <= j,
                j <= len + 1,
                len == self.source@.len(),
                scan_string(self.source@, quote, from as int) == scan_string(
                    self.source@,
                    quote,
                    j as int,
                ),
            decreases len + 2 - j,
        {
            if j >= len {
                return None;
            }
            let ch = self.source[j];
            if ch == BACKSLASH {
                j += 2;
            } else if ch == quote {
                return Some(j + 1);
            } else {
                j += 1;
            }
        }
    }

    /// Looks for a dot among the bytes at `[from, to)`.
    fn find_dot(&self, from: usize, to: usize) -> (r: bool)
        requires
            from <= to <= self.source@.len(),
        ensures
            r == has_dot(self.source@, from as int, to as int),
    {
        let mut k = from;
        while k < to
            invariant
                from <= k <= to <= self.source@.len(),
                forall|t: int| from <= t < k ==> self.source@[t] != DOT,
            decreases to - k,
        {
            if self.source[k] == DOT {
                assert(self.source@[k as int] == DOT);
                return true;
            }
            k += 1;
        }
        false
    }
}

/// ASCII letter.
fn alpha(c: u8) -> (r: bool)
    ensures
        r == is_alpha(c),
{
    (97 <= c && c <= 122) || (65 <= c && c <= 90)
}

/// ASCII digit.
fn digit(c: u8) -> (r: bool)
    ensures
        r == is_digit(c),
{
    48 <= c && c <= 57
}

/// ASCII letter or digit.
fn alnum(c: u8) -> (r: bool)
    ensures
        r == is_alnum(c),
{
    alpha(c) || digit(c)
}

/// ASCII whitespace.
fn space(c: u8) -> (r: bool)
    ensures
        r == is_space(c),
{
    c == 32 || c == 9 || c == 10 || c == 13
}

/// Whether `v` holds the byte `c`.
fn contains_byte(v: &Vec<u8>, c: u8) -> (r: bool)
    ensures
        r == v@.contains(c),
{
    let mut k: usize = 0;
    let n = v.len();
    while k < n
        invariant
            k <= n,
            n == v@.len(),
            forall|t: int| 0 <= t < k ==> v@[t] != c,
        decreases n - k,
    {
        if v[k] == c {
            assert(v@[k as int] == c);
            return true;
        }
        k += 1;
    }
    false
}

/// The run of word bytes beginning at `i` stays inside the buffer.
pub proof fn lemma_ident_end_bounds(s: Seq<u8>, cfg: LexerConfigV, i: int)
    requires
        0 <= i <= s.len(),
    ensures
        i <= ident_end(s, cfg, i) <= s.len(),
    decreases s.len() - i,
{
    if i < s.len() && ident_cont(cfg, s[i]) {
        lemma_ident_end_bounds(s, cfg, i + 1);
    }
}

/// The run of digits beginning at `i` stays inside the buffer.
pub proof fn lemma_digit_end_bounds(s: Seq<u8>, i: int)
    requires
        0 <= i <= s.len(),
    ensures
        i <= digit_end(s, i) <= s.len(),
    decreases s.len() - i,
{
    if i < s.len() && is_digit(s[i]) {
        lemma_digit_end_bounds(s, i + 1);
    }
}

/// The run of path bytes beginning at `i` stays inside the buffer.
pub proof fn lemma_path_run_end_bounds(s: Seq<u8>, slash: u8, i: int)
    requires
        0 <= i <= s.len(),
    ensures
        i <= path_run_end(s, slash, i) <= s.len(),
    decreases s.len() - i,
{
    if i < s.len() && (is_alnum(s[i]) || s[i] == slash) {
        lemma_path_run_end_bounds(s, slash, i + 1);
    }
}

/// A found closing quote lies inside the buffer, beyond the scan start.
pub proof fn lemma_scan_string_bounds(s: Seq<u8>, quote: u8, i: int)
    requires
        0 <= i,
    ensures
        scan_string(s, quote, i) matches Some(j) ==> i < j <= s.len(),
    decreases s.len() + 2 - i,
{
    if i < s.len() {
        if s[i] == BACKSLASH {
            lemma_scan_string_bounds(s, quote, i + 2);
        } else if s[i] == quote {
        } else {
            lemma_scan_string_bounds(s, quote, i + 1);
        }
    }
}

/// Whenever the lexer reports an unterminated string, the diagnostic's span
/// runs from the opening quote through the end of the input, exactly.
pub proof fn lemma_unterminated_string_span(s: Seq<u8>, cfg: LexerConfigV, i: int)
    requires
        0 <= i < s.len(),
        lex_step(s, cfg, i).error matches Some(d) && d.kind == DiagnosticKind::UnterminatedString,
    ensures
        lex_step(s, cfg, i).error == Some(
            Diagnostic {
                kind: DiagnosticKind::UnterminatedString,
                span: Span { start: i as usize, end: s.len() as usize },
            },
        ),
{
}

/// Every token the lexer produces spans exactly the bytes consumed for it:
/// the step at position `i` yields a token that starts at `i` and ends at
/// the position where scanning resumes, inside the buffer; a failed step
/// yields no token and does not advance.
pub proof fn lemma_token_spans(s: Seq<u8>, cfg: LexerConfigV, i: int)
    requires
        0 <= i < s.len(),
    ensures
        ({
            let st = lex_step(s, cfg, i);
            &&& st.typ is Some ==> st.start == i && st.end == st.next && i < st.end <= s.len()
            &&& st.typ is None ==> st.error is Some && st.next == i
        }),
{
    let st = lex_step(s, cfg, i);
    if ident_start(s, cfg, i) {
        assert(ident_cont(cfg, s[i]));
        lemma_ident_end_bounds(s, cfg, i + 1);
    } else if is_digit(s[i]) {
        lemma_digit_end_bounds(s, i + 1);
    } else if s[i] == DOT {
        if i + 1 < s.len() && s[i + 1] == cfg.slash {
            lemma_path_run_end_bounds(s, cfg.slash, i + 2);
        } else if i + 1 < s.len() && s[i + 1] == DOT {
            if i + 2 < s.len() && s[i + 2] == cfg.slash {
                lemma_path_run_end_bounds(s, cfg.slash, i + 3);
            }
        }
    } else if abs_path_trigger(s, cfg, i) {
        if cfg.drive_paths {
            if i + 2 < s.len() && s[i + 2] == cfg.slash {
                lemma_path_run_end_bounds(s, cfg.slash, i + 3);
            }
        } else {
            lemma_path_run_end_bounds(s, cfg.slash, i + 1);
        }
    } else if s[i] == DQUOTE || s[i] == SQUOTE {
        lemma_scan_string_bounds(s, s[i], i + 1);
    }
}

} // verus!
