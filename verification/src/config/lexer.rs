//! The tokenizer of the configuration language.
//!
//! A configuration is made of assignments `key = "value"` or `key = ["a", "b"]`,
//! `include = [...]` lines, and comments that start with `//` or `#`.
use vstd::prelude::*;
use crate::text::{alphabetic, chars_of, concat, decimal, usize_to_string, is_alphabetic, is_alphanumeric, is_whitespace, is_ws, numeric, push_char, str_eq};

verus! {

/// A token of the configuration language.
#[derive(Debug, PartialEq, Clone)]
pub enum Token {
    /// A key such as `git.repo`.
    Ident(String),
    /// A quoted value, without its quotes.
    String(String),
    /// `[`
    ListStart,
    /// `]`
    ListEnd,
    /// `,`
    Comma,
    /// `=`
    Equals,
    /// The `include` keyword.
    Include,
    /// A comment, `// ...` or `# ...`.
    Comment,
    /// A line break.
    Newline,
    /// The end of the input.
    Eof,
}

/// The mathematical value of a [`Token`].
pub enum TokenView {
    Ident(Seq<char>),
    Str(Seq<char>),
    ListStart,
    ListEnd,
    Comma,
    Equals,
    Include,
    Comment,
    Newline,
    Eof,
}

impl View for Token {
    type V = TokenView;

    open spec fn view(&self) -> TokenView {
        match self {
            Token::Ident(s) => TokenView::Ident(s@),
            Token::String(s) => TokenView::Str(s@),
            Token::ListStart => TokenView::ListStart,
            Token::ListEnd => TokenView::ListEnd,
            Token::Comma => TokenView::Comma,
            Token::Equals => TokenView::Equals,
            Token::Include => TokenView::Include,
            Token::Comment => TokenView::Comment,
            Token::Newline => TokenView::Newline,
            Token::Eof => TokenView::Eof,
        }
    }
}

// ---------------------------------------------------------------------------
// The token grammar
// ---------------------------------------------------------------------------

/// Whitespace that separates tokens: every `White_Space` character but the line break.
pub open spec fn blank(c: char) -> bool {
    is_ws(c) && c != '\n'
}

/// A character that may start a key.
pub open spec fn ident_start(c: char) -> bool {
    alphabetic(c) || c == '_' || c == '.'
}

/// A character that may continue a key.
pub open spec fn ident_char(c: char) -> bool {
    alphabetic(c) || numeric(c) || c == '_' || c == '.'
}

/// The first position at or after `i` that does not hold a blank.
pub open spec fn skip_blanks(s: Seq<char>, i: int) -> int
    decreases s.len() - i,
{
    if 0 <= i < s.len() && blank(s[i]) {
        skip_blanks(s, i + 1)
    } else {
        i
    }
}

/// The first position at or after `i` that does not hold a key character.
pub open spec fn ident_end(s: Seq<char>, i: int) -> int
    decreases s.len() - i,
{
    if 0 <= i < s.len() && ident_char(s[i]) {
        ident_end(s, i + 1)
    } else {
        i
    }
}

/// The first position at or after `i` that holds a line break, or the end.
pub open spec fn line_end(s: Seq<char>, i: int) -> int
    decreases s.len() - i,
{
    if 0 <= i < s.len() && s[i] != '\n' {
        line_end(s, i + 1)
    } else {
        i
    }
}

/// The first position at or after `i` that holds a double quote, or the end.
pub open spec fn quote_end(s: Seq<char>, i: int) -> int
    decreases s.len() - i,
{
    if 0 <= i < s.len() && s[i] != '"' {
        quote_end(s, i + 1)
    } else {
        i
    }
}

/// The token that starts at position `i` of `s` (after blanks) and the position
/// just after it; `None` where the text holds a character that no token starts with.
pub open spec fn token_at(s: Seq<char>, i: int) -> Option<(TokenView, int)> {
    let j = skip_blanks(s, i);
    if j >= s.len() {
        Some((TokenView::Eof, j))
    } else {
        let c = s[j];
        if c == '\n' {
            Some((TokenView::Newline, j + 1))
        } else if c == '/' {
            if j + 1 < s.len() && s[j + 1] == '/' {
                Some((TokenView::Comment, line_end(s, j + 2)))
            } else {
                None
            }
        } else if c == '#' {
            let e = line_end(s, j + 1);
            Some((TokenView::Comment, if e < s.len() { e + 1 } else { e }))
        } else if c == '[' {
            Some((TokenView::ListStart, j + 1))
        } else if c == ']' {
            Some((TokenView::ListEnd, j + 1))
        } else if c == ',' {
            Some((TokenView::Comma, j + 1))
        } else if c == '=' {
            Some((TokenView::Equals, j + 1))
        } else if c == '"' {
            let e = quote_end(s, j + 1);
            Some((TokenView::Str(s.subrange(j + 1, e)), if e < s.len() { e + 1 } else { e }))
        } else if ident_start(c) {
            let e = ident_end(s, j);
            let w = s.subrange(j, e);
            Some(
                (
                    if w == "include"@ {
                        TokenView::Include
                    } else {
                        TokenView::Ident(w)
                    },
                    e,
                ),
            )
        } else {
            None
        }
    }
}

/// Where a reader stands in a text: the index of the next character and the
/// 1-based line and column that it reports.
pub struct LexState {
    pub pos: int,
    pub line: int,
    pub col: int,
}

/// Line and column after reading the characters `s[from..to]`, starting from
/// `line` and `col`: a line break starts the next line at column 1, any other
/// character moves one column right.
pub open spec fn advance(s: Seq<char>, from: int, to: int, line: int, col: int) -> (int, int)
    decreases to - from,
{
    if to <= from {
        (line, col)
    } else {
        let (l, c) = advance(s, from, to - 1, line, col);
        if s[to - 1] == '\n' {
            (l + 1, 1)
        } else {
            (l, c + 1)
        }
    }
}

/// The token read from state `st` and the state after it.
pub open spec fn lex_step(s: Seq<char>, st: LexState) -> Option<(TokenView, LexState)> {
    match token_at(s, st.pos) {
        Some((t, e)) => {
            let (l, c) = advance(s, st.pos, e, st.line, st.col);
            Some((t, LexState { pos: e, line: l, col: c }))
        },
        None => None,
    }
}

/// Where the reader of a text with no character read yet stands.
pub open spec fn start_state() -> LexState {
    LexState { pos: 0, line: 1, col: 1 }
}

/// How a position is written in messages: `line:col`.
pub open spec fn pos_text(line: int, col: int) -> Seq<char> {
    decimal(line as nat) + ":"@ + decimal(col as nat)
}

/// The message with which reading stops where no token starts: the position is
/// the one reached after the blanks.
pub open spec fn stuck_text(s: Seq<char>, st: LexState) -> Seq<char> {
    let j = skip_blanks(s, st.pos);
    let (l, c) = advance(s, st.pos, j, st.line, st.col);
    if 0 <= j < s.len() && s[j] == '/' {
        "Unexpected character '/' at "@ + pos_text(l, c)
    } else {
        "Unexpected character at "@ + pos_text(l, c)
    }
}

/// `prefix` followed by the position `line:col`.
pub fn text_at(prefix: &str, line: usize, col: usize) -> (r: String)
    ensures
        r@ == prefix@ + pos_text(line as int, col as int),
{
    let l = usize_to_string(line);
    let c = usize_to_string(col);
    let a = concat(prefix, l.as_str());
    let b = concat(a.as_str(), ":");
    let r = concat(b.as_str(), c.as_str());
    assert(r@ =~= prefix@ + pos_text(line as int, col as int));
    r
}

// ---------------------------------------------------------------------------
// Facts about the grammar
// ---------------------------------------------------------------------------

proof fn lemma_skip_blanks(s: Seq<char>, i: int)
    requires
        0 <= i <= s.len(),
    ensures
        i <= skip_blanks(s, i) <= s.len(),
        skip_blanks(s, i) < s.len() ==> !blank(s[skip_blanks(s, i)]),
    decreases s.len() - i,
{
    if i < s.len() && blank(s[i]) {
        lemma_skip_blanks(s, i + 1);
    }
}

proof fn lemma_ident_end(s: Seq<char>, i: int)
    requires
        0 <= i <= s.len(),
    ensures
        i <= ident_end(s, i) <= s.len(),
    decreases s.len() - i,
{
    if i < s.len() && ident_char(s[i]) {
        lemma_ident_end(s, i + 1);
    }
}

proof fn lemma_line_end(s: Seq<char>, i: int)
    requires
        0 <= i <= s.len(),
    ensures
        i <= line_end(s, i) <= s.len(),
        line_end(s, i) < s.len() ==> s[line_end(s, i)] == '\n',
    decreases s.len() - i,
{
    if i < s.len() && s[i] != '\n' {
        lemma_line_end(s, i + 1);
    }
}

proof fn lemma_quote_end(s: Seq<char>, i: int)
    requires
        0 <= i <= s.len(),
    ensures
        i <= quote_end(s, i) <= s.len(),
    decreases s.len() - i,
{
    if i < s.len() && s[i] != '"' {
        lemma_quote_end(s, i + 1);
    }
}

/// Every token but the end of input moves the reader forward; the end of input
/// leaves it at the end of the text.
pub proof fn law_token_advances(s: Seq<char>, i: int)
    requires
        0 <= i <= s.len(),
    ensures
        token_at(s, i) matches Some((t, e)) ==> i <= e <= s.len() && (t !is Eof ==> i < e) && (
        t is Eof ==> e == s.len()),
{
    lemma_skip_blanks(s, i);
    let j = skip_blanks(s, i);
    if j < s.len() {
        if s[j] == '/' && j + 1 < s.len() {
            lemma_line_end(s, j + 2);
        }
        if s[j] == '#' {
            lemma_line_end(s, j + 1);
        }
        if s[j] == '"' {
            lemma_quote_end(s, j + 1);
        }
        if ident_start(s[j]) {
            lemma_ident_end(s, j);
            assert(ident_char(s[j]));
            assert(ident_end(s, j) == ident_end(s, j + 1));
            lemma_ident_end(s, j + 1);
        }
    }
}

/// Reading a token keeps the reader inside the text.
pub proof fn lemma_lex_step(s: Seq<char>, st: LexState)
    requires
        0 <= st.pos <= s.len(),
    ensures
        lex_step(s, st) matches Some((t, st2)) ==> st.pos <= st2.pos <= s.len() && (t !is Eof
            ==> st.pos < st2.pos) && (t is Eof ==> st2.pos == s.len()),
{
    law_token_advances(s, st.pos);
}

/// Reading stops exactly where, after the blanks, a character stands that
/// starts no token: not a line break, `[`, `]`, `,`, `=`, `"` or `#`; a `/`
/// not followed by another `/`; or else no letter, `_` or `.`. So `1` and `/x` stop the
/// reading, and a text of blanks gives the end of input.
pub proof fn law_where_reading_stops(s: Seq<char>, i: int)
    requires
        0 <= i <= s.len(),
    ensures
        token_at(s, i) is None <==> ({
            let j = skip_blanks(s, i);
            &&& j < s.len()
            &&& s[j] != '\n' && s[j] != '[' && s[j] != ']' && s[j] != ',' && s[j] != '='
            &&& s[j] != '"' && s[j] != '#'
            &&& if s[j] == '/' {
                !(j + 1 < s.len() && s[j + 1] == '/')
            } else {
                !ident_start(s[j])
            }
        }),
{
    lemma_skip_blanks(s, i);
}

/// The number of line breaks among the first `p` characters of `s`.
pub open spec fn breaks_before(s: Seq<char>, p: int) -> int
    decreases p,
{
    if p <= 0 {
        0
    } else {
        breaks_before(s, p - 1) + if s[p - 1] == '\n' {
            1int
        } else {
            0int
        }
    }
}

/// Where the line of position `p` starts: just after the last line break
/// before `p`, or at 0.
pub open spec fn line_start(s: Seq<char>, p: int) -> int
    decreases p,
{
    if p <= 0 {
        0
    } else if s[p - 1] == '\n' {
        p
    } else {
        line_start(s, p - 1)
    }
}

/// The line and column of position `p`: one more than the line breaks before
/// it, and one more than the characters since the last of them.
pub open spec fn position_of(s: Seq<char>, p: int) -> (int, int) {
    (1 + breaks_before(s, p), 1 + p - line_start(s, p))
}

/// Reading the first `p` characters from line 1, column 1 reaches the line and
/// column of position `p`.
pub proof fn lemma_advance_from_start(s: Seq<char>, p: int)
    requires
        0 <= p,
    ensures
        advance(s, 0, p, 1, 1) == position_of(s, p),
    decreases p,
{
    if p > 0 {
        lemma_advance_from_start(s, p - 1);
    }
}

/// Each token read keeps the reported line and column true: a reader whose
/// line and column are those of its position still has that after the token.
pub proof fn law_line_and_column(s: Seq<char>, st: LexState)
    requires
        0 <= st.pos <= s.len(),
        (st.line, st.col) == position_of(s, st.pos),
    ensures
        lex_step(s, st) matches Some((t, st2)) ==> (st2.line, st2.col) == position_of(s, st2.pos),
{
    law_token_advances(s, st.pos);
    if let Some((t, e)) = token_at(s, st.pos) {
        lemma_advance_from_start(s, st.pos);
        lemma_advance_from_start(s, e);
        lemma_advance_split(s, 0, st.pos, e, 1, 1);
    }
}

/// The state of a reader after `n` tokens read from the start of `s`, or
/// `None` once reading has stopped.
pub open spec fn lex_run(s: Seq<char>, n: nat) -> Option<LexState>
    decreases n,
{
    if n == 0 {
        Some(start_state())
    } else {
        match lex_run(s, (n - 1) as nat) {
            Some(st) => match lex_step(s, st) {
                Some((_, st2)) => Some(st2),
                None => None,
            },
            None => None,
        }
    }
}

/// After any number of tokens read from the start of a text (a new [`Lexer`]
/// and calls of [`Lexer::next_token`]), the line is one more than the line
/// breaks read, and the column one more than the characters read since the
/// last of them.
pub proof fn law_lexer_position(s: Seq<char>, n: nat)
    ensures
        lex_run(s, n) matches Some(st) ==> 0 <= st.pos <= s.len() && (st.line, st.col)
            == position_of(s, st.pos),
    decreases n,
{
    if n > 0 {
        law_lexer_position(s, (n - 1) as nat);
        if let Some(st) = lex_run(s, (n - 1) as nat) {
            lemma_lex_step(s, st);
            law_line_and_column(s, st);
        }
    }
}

// ---------------------------------------------------------------------------
// The lexer
// ---------------------------------------------------------------------------

/// Reads the tokens of a configuration text one by one.
pub struct Lexer {
    chars: Vec<char>,
    pos: usize,
    /// Line of the next character, starting at 1.
    pub line: usize,
    /// Column of the next character, starting at 1.
    pub col: usize,
}

impl Lexer {
    /// The text being read.
    pub closed spec fn text(&self) -> Seq<char> {
        self.chars@
    }

    /// Where the lexer stands in its text.
    pub closed spec fn state(&self) -> LexState {
        LexState { pos: self.pos as int, line: self.line as int, col: self.col as int }
    }

    /// The lexer's counters are in range: its position lies inside its text and
    /// line and column have not run ahead of the position.
    pub closed spec fn wf(&self) -> bool {
        &&& self.pos <= self.chars@.len()
        &&& self.chars@.len() < usize::MAX
        &&& self.line <= self.pos + 1
        &&& self.col <= self.pos + 1
    }

    /// A lexer standing in a well-formed place can read its next token exactly
    /// where the text holds one.
    pub proof fn lemma_state_in_text(&self)
        requires
            self.wf(),
        ensures
            0 <= self.state().pos <= self.text().len(),
    {
    }

    /// The line of the next character.
    pub fn current_line(&self) -> (r: usize)
        ensures
            r == self.state().line,
    {
        self.line
    }

    /// The column of the next character.
    pub fn current_col(&self) -> (r: usize)
        ensures
            r == self.state().col,
    {
        self.col
    }

    /// The message of a lexer that stands where no token starts: it skips the
    /// blanks and names the position it reached.
    pub fn fault_message(&mut self) -> (r: String)
        requires
            old(self).wf(),
        ensures
            final(self).wf(),
            final(self).text() == old(self).text(),
            r@ == stuck_text(old(self).text(), old(self).state()),
    {
        proof {
            lemma_skip_blanks(self.chars@, self.pos as int);
        }
        self.skip_whitespace();
        let slash = self.pos < self.chars.len() && self.chars[self.pos] == '/';
        if slash {
            text_at("Unexpected character '/' at ", self.line, self.col)
        } else {
            text_at("Unexpected character at ", self.line, self.col)
        }
    }

    /// A lexer at the start of `input`, line 1, column 1.
    pub fn new(input: &str) -> (r: Lexer)
        requires
            input@.len() < usize::MAX,
        ensures
            r.wf(),
            r.text() == input@,
            r.state() == start_state(),
    {
        Lexer { chars: chars_of(input), pos: 0, line: 1, col: 1 }
    }

    /// Consumes one character, keeping line and column up to date.
    fn next_char(&mut self) -> (r: Option<char>)
        requires
            old(self).wf(),
        ensures
            final(self).wf(),
            final(self).chars@ == old(self).chars@,
            old(self).pos < old(self).chars@.len() ==> {
                &&& r == Some(old(self).chars@[old(self).pos as int])
                &&& final(self).pos == old(self).pos + 1
                &&& (final(self).line as int, final(self).col as int) == (if old(self).chars@[old(self).pos as int]
                    == '\n' {
                    (old(self).line + 1, 1int)
                } else {
                    (old(self).line as int, old(self).col + 1)
                })
            },
            old(self).pos >= old(self).chars@.len() ==> r is None && final(self).pos == old(
                self,
            ).pos && final(self).line == old(self).line && final(self).col == old(self).col,
    {
        if self.pos < self.chars.len() {
            let c = self.chars[self.pos];
            self.pos = self.pos + 1;
            if c == '\n' {
                self.line = self.line + 1;
                self.col = 1;
            } else {
                self.col = self.col + 1;
            }
            Some(c)
        } else {
            None
        }
    }

    /// The next character, not consumed.
    fn peek_char(&self) -> (r: Option<char>)
        requires
            self.wf(),
        ensures
            self.pos < self.chars@.len() ==> r == Some(self.chars@[self.pos as int]),
            self.pos >= self.chars@.len() ==> r is None,
    {
        if self.pos < self.chars.len() {
            Some(self.chars[self.pos])
        } else {
            None
        }
    }

    /// The character after the next one, not consumed.
    fn peek_next(&self) -> (r: Option<char>)
        requires
            self.wf(),
        ensures
            self.pos + 1 < self.chars@.len() ==> r == Some(self.chars@[self.pos + 1]),
            self.pos + 1 >= self.chars@.len() ==> r is None,
    {
        if self.pos + 1 < self.chars.len() {
            Some(self.chars[self.pos + 1])
        } else {
            None
        }
    }

    /// Consumes blanks (whitespace other than line breaks).
    fn skip_whitespace(&mut self)
        requires
            old(self).wf(),
        ensures
            final(self).wf(),
            final(self).chars@ == old(self).chars@,
            final(self).pos == skip_blanks(old(self).chars@, old(self).pos as int),
            (final(self).line as int, final(self).col as int) == advance(
                old(self).chars@,
                old(self).pos as int,
                final(self).pos as int,
                old(self).line as int,
                old(self).col as int,
            ),
    {
        let ghost s = self.chars@;
        let ghost p0 = self.pos as int;
        let ghost l0 = self.line as int;
        let ghost c0 = self.col as int;
        loop
            invariant
                self.wf(),
                self.chars@ == s,
                s == old(self).chars@,
                p0 == old(self).pos,
                l0 == old(self).line,
                c0 == old(self).col,
                p0 <= self.pos,
                skip_blanks(s, p0) == skip_blanks(s, self.pos as int),
                (self.line as int, self.col as int) == advance(s, p0, self.pos as int, l0, c0),
            decreases s.len() - self.pos,
        {
            match self.peek_char() {
                Some(ch) => {
                    if is_whitespace(ch) && ch != '\n' {
                        self.next_char();
                    } else {
                        return ;
                    }
                },
                None => {
                    return ;
                },
            }
        }
    }

    /// Consumes characters up to, not including, the next line break.
    fn skip_to_line_end(&mut self)
        requires
            old(self).wf(),
        ensures
            final(self).wf(),
            final(self).chars@ == old(self).chars@,
            final(self).pos == line_end(old(self).chars@, old(self).pos as int),
            (final(self).line as int, final(self).col as int) == advance(
                old(self).chars@,
                old(self).pos as int,
                final(self).pos as int,
                old(self).line as int,
                old(self).col as int,
            ),
    {
        let ghost s = self.chars@;
        let ghost p0 = self.pos as int;
        let ghost l0 = self.line as int;
        let ghost c0 = self.col as int;
        loop
            invariant
                self.wf(),
                self.chars@ == s,
                s == old(self).chars@,
                p0 == old(self).pos,
                l0 == old(self).line,
                c0 == old(self).col,
                p0 <= self.pos,
                line_end(s, p0) == line_end(s, self.pos as int),
                (self.line as int, self.col as int) == advance(s, p0, self.pos as int, l0, c0),
            decreases s.len() - self.pos,
        {
            match self.peek_char() {
                Some(ch) => {
                    if ch == '\n' {
                        return ;
                    }
                    self.next_char();
                },
                None => {
                    return ;
                },
            }
        }
    }

    /// Reads the characters of a quoted value after its opening quote, and the
    /// closing quote if there is one.
    fn read_quoted(&mut self) -> (r: String)
        requires
            old(self).wf(),
        ensures
            final(self).wf(),
            final(self).chars@ == old(self).chars@,
            ({
                let e = quote_end(old(self).chars@, old(self).pos as int);
                &&& r@ == old(self).chars@.subrange(old(self).pos as int, e)
                &&& final(self).pos == (if e < old(self).chars@.len() {
                    e + 1
                } else {
                    e
                })
            }),
            (final(self).line as int, final(self).col as int) == advance(
                old(self).chars@,
                old(self).pos as int,
                final(self).pos as int,
                old(self).line as int,
                old(self).col as int,
            ),
    {
        let ghost s = self.chars@;
        let ghost p0 = self.pos as int;
        let ghost l0 = self.line as int;
        let ghost c0 = self.col as int;
        let mut out = String::new();
        loop
            invariant
                self.wf(),
                self.chars@ == s,
                s == old(self).chars@,
                p0 == old(self).pos,
                l0 == old(self).line,
                c0 == old(self).col,
                p0 <= self.pos,
                quote_end(s, p0) == quote_end(s, self.pos as int),
                out@ == s.subrange(p0, self.pos as int),
                (self.line as int, self.col as int) == advance(s, p0, self.pos as int, l0, c0),
            decreases s.len() - self.pos,
        {
            match self.peek_char() {
                Some(ch) => {
                    if ch == '"' {
                        self.next_char();
                        return out;
                    }
                    let ghost pb = self.pos as int;
                    push_char(&mut out, ch);
                    self.next_char();
                    assert(s.subrange(p0, pb + 1) =~= s.subrange(p0, pb).push(s[pb]));
                },
                None => {
                    return out;
                },
            }
        }
    }

    /// Reads the characters of a key.
    fn read_ident(&mut self) -> (r: String)
        requires
            old(self).wf(),
        ensures
            final(self).wf(),
            final(self).chars@ == old(self).chars@,
            final(self).pos == ident_end(old(self).chars@, old(self).pos as int),
            r@ == old(self).chars@.subrange(old(self).pos as int, final(self).pos as int),
            (final(self).line as int, final(self).col as int) == advance(
                old(self).chars@,
                old(self).pos as int,
                final(self).pos as int,
                old(self).line as int,
                old(self).col as int,
            ),
    {
        let ghost s = self.chars@;
        let ghost p0 = self.pos as int;
        let ghost l0 = self.line as int;
        let ghost c0 = self.col as int;
        let mut out = String::new();
        loop
            invariant
                self.wf(),
                self.chars@ == s,
                s == old(self).chars@,
                p0 == old(self).pos,
                l0 == old(self).line,
                c0 == old(self).col,
                p0 <= self.pos,
                ident_end(s, p0) == ident_end(s, self.pos as int),
                out@ == s.subrange(p0, self.pos as int),
                (self.line as int, self.col as int) == advance(s, p0, self.pos as int, l0, c0),
            decreases s.len() - self.pos,
        {
            match self.peek_char() {
                Some(ch) => {
                    if is_alphanumeric(ch) || ch == '_' || ch == '.' {
                        let ghost pb = self.pos as int;
                        push_char(&mut out, ch);
                        self.next_char();
                        assert(s.subrange(p0, pb + 1) =~= s.subrange(p0, pb).push(s[pb]));
                    } else {
                        return out;
                    }
                },
                None => {
                    return out;
                },
            }
        }
    }

    /// Whether the text holds a token at the lexer's position, so that
    /// [`Lexer::next_token`] can read it.
    pub fn at_token(&self) -> (r: bool)
        requires
            self.wf(),
        ensures
            r == token_at(self.text(), self.state().pos) is Some,
    {
        let ghost s = self.chars@;
        let mut j = self.pos;
        while j < self.chars.len() && is_whitespace(self.chars[j]) && self.chars[j] != '\n'
            invariant
                self.wf(),
                s == self.chars@,
                self.pos <= j <= s.len(),
                skip_blanks(s, self.pos as int) == skip_blanks(s, j as int),
            decreases s.len() - j,
        {
            j = j + 1;
        }
        if j >= self.chars.len() {
            return true;
        }
        let c = self.chars[j];
        if c == '/' {
            j + 1 < self.chars.len() && self.chars[j + 1] == '/'
        } else {
            c == '\n' || c == '#' || c == '[' || c == ']' || c == ',' || c == '=' || c == '"'
                || is_alphabetic(c) || c == '_' || c == '.'
        }
    }

    /// Reads the next token. A `//` comment stops before its line break; a `#`
    /// comment takes its line break with it.
    pub fn next_token(&mut self) -> (r: Token)
        requires
            old(self).wf(),
            token_at(old(self).text(), old(self).state().pos) is Some,
        ensures
            final(self).wf(),
            final(self).text() == old(self).text(),
            lex_step(old(self).text(), old(self).state()) == Some((r@, final(self).state())),
    {
        let ghost s = self.chars@;
        let ghost p0 = self.pos as int;
        let ghost l0 = self.line as int;
        let ghost c0 = self.col as int;
        proof {
            law_token_advances(s, p0);
            lemma_skip_blanks(s, p0);
        }
        self.skip_whitespace();
        let ghost j = self.pos as int;
        let ghost l1 = self.line as int;
        let ghost c1 = self.col as int;
        assert(advance(s, j, j, l1, c1) == (l1, c1));
        proof {
            lemma_ident_end(s, j);
        }
        let r = match self.peek_char() {
            None => Token::Eof,
            Some(c) => {
                if c == '\n' {
                    self.next_char();
                    Token::Newline
                } else if c == '/' {
                    // token_at rules out a single '/', so a second one follows.
                    self.next_char();
                    assert((self.line as int, self.col as int) == advance(s, j, self.pos as int, l1, c1));
                    self.next_char();
                    assert((self.line as int, self.col as int) == advance(s, j, self.pos as int, l1, c1));
                    let ghost m = self.pos as int;
                    self.skip_to_line_end();
                    proof {
                        lemma_line_end(s, m);
                        lemma_advance_split(s, j, m, self.pos as int, l1, c1);
                    }
                    Token::Comment
                } else if c == '#' {
                    self.next_char();
                    assert((self.line as int, self.col as int) == advance(s, j, self.pos as int, l1, c1));
                    let ghost m = self.pos as int;
                    self.skip_to_line_end();
                    proof {
                        lemma_line_end(s, m);
                        lemma_advance_split(s, j, m, self.pos as int, l1, c1);
                        lemma_line_end(s, j + 1);
                    }
                    if self.pos < self.chars.len() {
                        self.next_char();
                        assert((self.line as int, self.col as int) == advance(s, j, self.pos as int, l1, c1));
                    }
                    Token::Comment
                } else if c == '[' {
                    self.next_char();
                    Token::ListStart
                } else if c == ']' {
                    self.next_char();
                    Token::ListEnd
                } else if c == ',' {
                    self.next_char();
                    Token::Comma
                } else if c == '=' {
                    self.next_char();
                    Token::Equals
                } else if c == '"' {
                    self.next_char();
                    assert((self.line as int, self.col as int) == advance(s, j, self.pos as int, l1, c1));
                    let ghost m = self.pos as int;
                    let v = self.read_quoted();
                    proof {
                        lemma_quote_end(s, m);
                        lemma_advance_split(s, j, m, self.pos as int, l1, c1);
                    }
                    Token::String(v)
                } else {
                    assert(advance(s, j, j, l1, c1) == (l1, c1));
                    let ident = self.read_ident();
                    if str_eq(ident.as_str(), "include") {
                        Token::Include
                    } else {
                        Token::Ident(ident)
                    }
                }
            },
        };
        proof {
            lemma_advance_split(s, p0, j, self.pos as int, l0, c0);
        }
        r
    }
}

/// Reading `s[a..b]` and then `s[b..c]` moves line and column as reading `s[a..c]` does.
pub proof fn lemma_advance_split(s: Seq<char>, a: int, b: int, c: int, line: int, col: int)
    requires
        a <= b <= c,
    ensures
        advance(s, a, c, line, col) == ({
            let (l, k) = advance(s, a, b, line, col);
            advance(s, b, c, l, k)
        }),
    decreases c - b,
{
    if c > b {
        lemma_advance_split(s, a, b, c - 1, line, col);
    }
}

} // verus!
