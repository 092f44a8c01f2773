//! The parser of the configuration language: assignments, lists and includes.
use vstd::prelude::*;
use crate::assoc::{assoc_insert, Duplicate, Table};
use crate::config::lexer::{
    lemma_lex_step, lex_step, pos_text, start_state, stuck_text, text_at, LexState, Lexer, Token,
    TokenView,
};
use crate::text::{
    concat, copy_string, copy_strings, debug_quoted, debug_str, lemma_views_push, str_eq, views,
};

verus! {

/// A configuration value: a quoted text or a list of quoted texts.
#[derive(Debug, Clone, PartialEq)]
pub enum Value {
    String(String),
    List(Vec<String>),
}

/// The mathematical value of a [`Value`].
pub enum ValueView {
    Str(Seq<char>),
    List(Seq<Seq<char>>),
}

impl View for Value {
    type V = ValueView;

    open spec fn view(&self) -> ValueView {
        match self {
            Value::String(s) => ValueView::Str(s@),
            Value::List(v) => ValueView::List(views(v@)),
        }
    }
}

impl Duplicate for Value {
    /// A fresh copy of the value.
    fn duplicate(&self) -> (r: Value) {
        match self {
            Value::String(s) => Value::String(copy_string(s)),
            Value::List(v) => Value::List(copy_strings(v)),
        }
    }
}

/// The assignments of a configuration: each key once, with its value, in the
/// order in which the keys first appeared.
pub type ConfigMap = Table<Value>;

/// The result of reading one configuration text: its assignments and the paths
/// that its `include` lines name.
pub struct ConfigFile {
    pub assignments: ConfigMap,
    pub includes: Vec<String>,
}

// ---------------------------------------------------------------------------
// The grammar and its errors
// ---------------------------------------------------------------------------

/// What went wrong, before the position is added.
pub enum FaultKind {
    ExpectedEqualsAfterInclude,
    IncludeNotList,
    ExpectedEqualsAfterKey(Seq<char>),
    UnexpectedToken,
    DoubleComma,
    UnexpectedInList(TokenView),
    ExpectedValue,
}

/// A parse error and the line and column at which it was found.
pub struct Fault {
    pub kind: FaultKind,
    pub line: int,
    pub col: int,
}

/// The outcome of reading: a result, an error, or a position where the text holds
/// a character that no token starts with (where reading panics).
pub enum Outcome<T> {
    Done(T),
    Fail(Fault),
    Stuck(LexState),
}

/// An error found with the reader standing at `st`.
pub open spec fn fault_at(kind: FaultKind, st: LexState) -> Fault {
    Fault { kind, line: st.line, col: st.col }
}

/// How a token prints with `{:?}`.
pub open spec fn token_debug(t: TokenView) -> Seq<char> {
    match t {
        TokenView::Ident(k) => "Ident("@ + debug_quoted(k) + ")"@,
        TokenView::Str(k) => "String("@ + debug_quoted(k) + ")"@,
        TokenView::ListStart => "ListStart"@,
        TokenView::ListEnd => "ListEnd"@,
        TokenView::Comma => "Comma"@,
        TokenView::Equals => "Equals"@,
        TokenView::Include => "Include"@,
        TokenView::Comment => "Comment"@,
        TokenView::Newline => "Newline"@,
        TokenView::Eof => "Eof"@,
    }
}

/// The message of a parse error.
pub open spec fn fault_text(f: Fault) -> Seq<char> {
    let at = pos_text(f.line, f.col);
    match f.kind {
        FaultKind::ExpectedEqualsAfterInclude => "Expected '=' after include at "@ + at,
        FaultKind::IncludeNotList => "Include must be a list at "@ + at,
        FaultKind::ExpectedEqualsAfterKey(k) => "Expected '=' after key '"@ + k + "' at "@ + at,
        FaultKind::UnexpectedToken => "Unexpected token at "@ + at,
        FaultKind::DoubleComma => "Double comma in list at "@ + at,
        FaultKind::UnexpectedInList(t) => "Unexpected token in list at "@ + at + " (got "@
            + token_debug(t) + ")"@,
        FaultKind::ExpectedValue => "Expected value at "@ + at,
    }
}

/// Reading the rest of a list from `st`, with `items` read so far and
/// `last_comma` telling whether the last item-level token was a comma. Line
/// breaks and comments are skipped; a trailing comma is allowed.
pub open spec fn list_outcome(s: Seq<char>, st: LexState, items: Seq<Seq<char>>, last_comma: bool) -> Outcome<
    (ValueView, LexState),
>
    decreases s.len() - st.pos,
{
    if !(0 <= st.pos <= s.len()) {
        Outcome::Stuck(st)
    } else {
        match lex_step(s, st) {
            None => Outcome::Stuck(st),
            Some((t, st1)) => {
                proof {
                    lemma_lex_step(s, st);
                }
                match t {
                    TokenView::Str(x) => list_outcome(s, st1, items.push(x), false),
                    TokenView::Comma => if last_comma {
                        Outcome::Fail(fault_at(FaultKind::DoubleComma, st1))
                    } else {
                        list_outcome(s, st1, items, true)
                    },
                    TokenView::ListEnd => Outcome::Done((ValueView::List(items), st1)),
                    TokenView::Newline => list_outcome(s, st1, items, last_comma),
                    TokenView::Comment => list_outcome(s, st1, items, last_comma),
                    _ => Outcome::Fail(fault_at(FaultKind::UnexpectedInList(t), st1)),
                }
            },
        }
    }
}

/// Reading a value from `st`: a quoted text, or a list in brackets.
pub open spec fn value_outcome(s: Seq<char>, st: LexState) -> Outcome<(ValueView, LexState)> {
    match lex_step(s, st) {
        None => Outcome::Stuck(st),
        Some((t, st1)) => match t {
            TokenView::Str(x) => Outcome::Done((ValueView::Str(x), st1)),
            TokenView::ListStart => list_outcome(s, st1, Seq::empty(), false),
            _ => Outcome::Fail(fault_at(FaultKind::ExpectedValue, st1)),
        },
    }
}

/// A value that is read ends after where reading started and inside the text.
pub proof fn lemma_list_outcome_pos(s: Seq<char>, st: LexState, items: Seq<Seq<char>>, last: bool)
    requires
        0 <= st.pos <= s.len(),
    ensures
        list_outcome(s, st, items, last) matches Outcome::Done((_, st2)) ==> st.pos < st2.pos
            <= s.len(),
    decreases s.len() - st.pos,
{
    lemma_lex_step(s, st);
    match lex_step(s, st) {
        Some((t, st1)) => {
            match t {
                TokenView::Str(x) => lemma_list_outcome_pos(s, st1, items.push(x), false),
                TokenView::Comma => {
                    if !last {
                        lemma_list_outcome_pos(s, st1, items, true);
                    }
                },
                TokenView::Newline => lemma_list_outcome_pos(s, st1, items, last),
                TokenView::Comment => lemma_list_outcome_pos(s, st1, items, last),
                _ => {},
            }
        },
        None => {},
    }
}

/// A value that is read ends after where reading started and inside the text.
pub proof fn lemma_value_outcome_pos(s: Seq<char>, st: LexState)
    requires
        0 <= st.pos <= s.len(),
    ensures
        value_outcome(s, st) matches Outcome::Done((_, st2)) ==> st.pos < st2.pos <= s.len(),
{
    lemma_lex_step(s, st);
    match lex_step(s, st) {
        Some((t, st1)) => {
            if t is ListStart {
                lemma_list_outcome_pos(s, st1, Seq::empty(), false);
            }
        },
        None => {},
    }
}

/// Reading the statements of a text from `st`, with the assignments and includes
/// read so far. A later assignment to a key replaces an earlier one.
pub open spec fn stmts_outcome(
    s: Seq<char>,
    st: LexState,
    acc: Seq<(Seq<char>, ValueView)>,
    incs: Seq<Seq<char>>,
) -> Outcome<(Seq<(Seq<char>, ValueView)>, Seq<Seq<char>>)>
    decreases s.len() - st.pos,
{
    if !(0 <= st.pos <= s.len()) {
        Outcome::Stuck(st)
    } else {
        match lex_step(s, st) {
            None => Outcome::Stuck(st),
            Some((t, st1)) => {
                proof {
                    lemma_lex_step(s, st);
                }
                match t {
                    TokenView::Eof => Outcome::Done((acc, incs)),
                    TokenView::Newline => stmts_outcome(s, st1, acc, incs),
                    TokenView::Comment => stmts_outcome(s, st1, acc, incs),
                    TokenView::Include => {
                        proof {
                            lemma_lex_step(s, st1);
                        }
                        match lex_step(s, st1) {
                            None => Outcome::Stuck(st1),
                            Some((t2, st2)) => if t2 is Equals {
                                proof {
                                    lemma_value_outcome_pos(s, st2);
                                }
                                match value_outcome(s, st2) {
                                    Outcome::Done((v, st3)) => match v {
                                        ValueView::List(ps) => stmts_outcome(s, st3, acc, incs + ps),
                                        ValueView::Str(_) => Outcome::Fail(
                                            fault_at(FaultKind::IncludeNotList, st3),
                                        ),
                                    },
                                    Outcome::Fail(f) => Outcome::Fail(f),
                                    Outcome::Stuck(x) => Outcome::Stuck(x),
                                }
                            } else {
                                Outcome::Fail(fault_at(FaultKind::ExpectedEqualsAfterInclude, st2))
                            },
                        }
                    },
                    TokenView::Ident(k) => {
                        proof {
                            lemma_lex_step(s, st1);
                        }
                        match lex_step(s, st1) {
                            None => Outcome::Stuck(st1),
                            Some((t2, st2)) => if t2 is Equals {
                                proof {
                                    lemma_value_outcome_pos(s, st2);
                                }
                                match value_outcome(s, st2) {
                                    Outcome::Done((v, st3)) => stmts_outcome(
                                        s,
                                        st3,
                                        assoc_insert(acc, k, v),
                                        incs,
                                    ),
                                    Outcome::Fail(f) => Outcome::Fail(f),
                                    Outcome::Stuck(x) => Outcome::Stuck(x),
                                }
                            } else {
                                Outcome::Fail(
                                    fault_at(FaultKind::ExpectedEqualsAfterKey(k), st2),
                                )
                            },
                        }
                    },
                    _ => Outcome::Fail(fault_at(FaultKind::UnexpectedToken, st1)),
                }
            },
        }
    }
}

/// Reading a whole configuration text.
pub open spec fn file_outcome(s: Seq<char>) -> Outcome<
    (Seq<(Seq<char>, ValueView)>, Seq<Seq<char>>),
> {
    stmts_outcome(s, start_state(), Seq::empty(), Seq::empty())
}

/// Reading the rest of a text only appends to the includes read so far: every
/// `include` line adds its list after those of the lines before it, and no
/// line takes an include away.
pub proof fn law_includes_only_append(
    s: Seq<char>,
    st: LexState,
    acc: Seq<(Seq<char>, ValueView)>,
    incs: Seq<Seq<char>>,
)
    ensures
        stmts_outcome(s, st, acc, incs) matches Outcome::Done((_, all)) ==> incs.len() <= all.len()
            && all.subrange(0, incs.len() as int) == incs,
    decreases s.len() - st.pos,
{
    if 0 <= st.pos <= s.len() {
        lemma_lex_step(s, st);
        if let Some((t, st1)) = lex_step(s, st) {
            match t {
                TokenView::Eof => {
                    assert(incs.subrange(0, incs.len() as int) =~= incs);
                },
                TokenView::Newline | TokenView::Comment => {
                    law_includes_only_append(s, st1, acc, incs);
                },
                TokenView::Include => {
                    lemma_lex_step(s, st1);
                    if let Some((t2, st2)) = lex_step(s, st1) {
                        if t2 is Equals {
                            lemma_value_outcome_pos(s, st2);
                            if let Outcome::Done((v, st3)) = value_outcome(s, st2) {
                                if let ValueView::List(ps) = v {
                                    law_includes_only_append(s, st3, acc, incs + ps);
                                    if let Outcome::Done((_, all)) = stmts_outcome(s, st3, acc, incs + ps) {
                                        assert(all.subrange(0, incs.len() as int) =~= (incs + ps).subrange(
                                            0,
                                            incs.len() as int,
                                        ));
                                        assert((incs + ps).subrange(0, incs.len() as int) =~= incs);
                                    }
                                }
                            }
                        }
                    }
                },
                TokenView::Ident(k) => {
                    lemma_lex_step(s, st1);
                    if let Some((t2, st2)) = lex_step(s, st1) {
                        if t2 is Equals {
                            lemma_value_outcome_pos(s, st2);
                            if let Outcome::Done((v, st3)) = value_outcome(s, st2) {
                                law_includes_only_append(s, st3, assoc_insert(acc, k, v), incs);
                            }
                        }
                    }
                },
                _ => {},
            }
        }
    }
}

/// An `include` line puts its whole list, in order, right after the includes
/// of the lines before it: the includes read from there on start with them.
pub proof fn law_include_line_appends_its_list(
    s: Seq<char>,
    st: LexState,
    acc: Seq<(Seq<char>, ValueView)>,
    incs: Seq<Seq<char>>,
)
    requires
        0 <= st.pos <= s.len(),
        lex_step(s, st) is Some,
        lex_step(s, st).unwrap().0 is Include,
        lex_step(s, lex_step(s, st).unwrap().1) is Some,
        lex_step(s, lex_step(s, st).unwrap().1).unwrap().0 is Equals,
    ensures
        ({
            let st2 = lex_step(s, lex_step(s, st).unwrap().1).unwrap().1;
            match value_outcome(s, st2) {
                Outcome::Done((ValueView::List(ps), _)) => match stmts_outcome(s, st, acc, incs) {
                    Outcome::Done((_, all)) => incs.len() + ps.len() <= all.len() && all.subrange(
                        0,
                        (incs.len() + ps.len()) as int,
                    ) == incs + ps,
                    _ => true,
                },
                _ => true,
            }
        }),
{
    lemma_lex_step(s, st);
    let st1 = lex_step(s, st).unwrap().1;
    lemma_lex_step(s, st1);
    let st2 = lex_step(s, st1).unwrap().1;
    lemma_value_outcome_pos(s, st2);
    if let Outcome::Done((ValueView::List(ps), st3)) = value_outcome(s, st2) {
        law_includes_only_append(s, st3, acc, incs + ps);
    }
}

/// Reading a configuration text stops at a character that no token starts with.
pub open spec fn file_is_stuck(s: Seq<char>) -> bool {
    file_outcome(s) is Stuck
}

/// The message with which reading a text that is stuck panics.
pub open spec fn file_stuck_text(s: Seq<char>) -> Seq<char> {
    match file_outcome(s) {
        Outcome::Stuck(st) => stuck_text(s, st),
        _ => Seq::empty(),
    }
}

// ---------------------------------------------------------------------------
// The executable parser
// ---------------------------------------------------------------------------

/// What reading produced: a result, an error message, or the message of a
/// character that no token starts with.
enum Step<T> {
    Done(T),
    Failed(String),
    Halted(String),
}

fn token_debug_text(t: &Token) -> (r: String)
    ensures
        r@ == token_debug(t@),
{
    match t {
        Token::Ident(k) => {
            let d = debug_str(k.as_str());
            let a = concat("Ident(", d.as_str());
            concat(a.as_str(), ")")
        },
        Token::String(k) => {
            let d = debug_str(k.as_str());
            let a = concat("String(", d.as_str());
            concat(a.as_str(), ")")
        },
        Token::ListStart => crate::text::str_to_string("ListStart"),
        Token::ListEnd => crate::text::str_to_string("ListEnd"),
        Token::Comma => crate::text::str_to_string("Comma"),
        Token::Equals => crate::text::str_to_string("Equals"),
        Token::Include => crate::text::str_to_string("Include"),
        Token::Comment => crate::text::str_to_string("Comment"),
        Token::Newline => crate::text::str_to_string("Newline"),
        Token::Eof => crate::text::str_to_string("Eof"),
    }
}

/// Reads the rest of a list after its `[`.
fn list_step(lexer: &mut Lexer) -> (r: Step<Value>)
    requires
        old(lexer).wf(),
    ensures
        final(lexer).wf(),
        final(lexer).text() == old(lexer).text(),
        match list_outcome(old(lexer).text(), old(lexer).state(), Seq::empty(), false) {
            Outcome::Done((v, st)) => r matches Step::Done(x) && x@ == v && final(lexer).state()
                == st,
            Outcome::Fail(f) => r matches Step::Failed(m) && m@ == fault_text(f),
            Outcome::Stuck(st) => r matches Step::Halted(m) && m@ == stuck_text(
                old(lexer).text(),
                st,
            ),
        },
{
    let ghost s = lexer.text();
    let ghost target = list_outcome(s, lexer.state(), Seq::empty(), false);
    let mut items: Vec<String> = Vec::new();
    let mut last_comma = false;
    assert(views(items@) =~= Seq::<Seq<char>>::empty());
    loop
        invariant
            lexer.wf(),
            lexer.text() == s,
            s == old(lexer).text(),
            target == list_outcome(old(lexer).text(), old(lexer).state(), Seq::empty(), false),
            target == list_outcome(s, lexer.state(), views(items@), last_comma),
        decreases s.len() - lexer.state().pos,
    {
        proof {
            lexer.lemma_state_in_text();
            lemma_lex_step(s, lexer.state());
        }
        if !lexer.at_token() {
            let m = lexer.fault_message();
            return Step::Halted(m);
        }
        let token = lexer.next_token();
        match token {
            Token::String(x) => {
                let ghost before = items@;
                items.push(x);
                proof {
                    lemma_views_push(before, x);
                }
                last_comma = false;
            },
            Token::Comma => {
                if last_comma {
                    let m = text_at(
                        "Double comma in list at ",
                        lexer.current_line(),
                        lexer.current_col(),
                    );
                    return Step::Failed(m);
                }
                last_comma = true;
            },
            Token::ListEnd => {
                return Step::Done(Value::List(items));
            },
            Token::Newline => {},
            Token::Comment => {},
            other => {
                let d = token_debug_text(&other);
                let a = text_at(
                    "Unexpected token in list at ",
                    lexer.current_line(),
                    lexer.current_col(),
                );
                let b = concat(a.as_str(), " (got ");
                let c = concat(b.as_str(), d.as_str());
                let m = concat(c.as_str(), ")");
                return Step::Failed(m);
            },
        }
    }
}

/// Reads a value.
fn value_step(lexer: &mut Lexer) -> (r: Step<Value>)
    requires
        old(lexer).wf(),
    ensures
        final(lexer).wf(),
        final(lexer).text() == old(lexer).text(),
        match value_outcome(old(lexer).text(), old(lexer).state()) {
            Outcome::Done((v, st)) => r matches Step::Done(x) && x@ == v && final(lexer).state()
                == st,
            Outcome::Fail(f) => r matches Step::Failed(m) && m@ == fault_text(f),
            Outcome::Stuck(st) => r matches Step::Halted(m) && m@ == stuck_text(
                old(lexer).text(),
                st,
            ),
        },
{
    if !lexer.at_token() {
        let m = lexer.fault_message();
        return Step::Halted(m);
    }
    let token = lexer.next_token();
    match token {
        Token::String(x) => Step::Done(Value::String(x)),
        Token::ListStart => list_step(lexer),
        _ => {
            let m = text_at("Expected value at ", lexer.current_line(), lexer.current_col());
            Step::Failed(m)
        },
    }
}

/// Reads the statements of a text.
fn stmts_step(lexer: &mut Lexer) -> (r: Step<ConfigFile>)
    requires
        old(lexer).wf(),
    ensures
        match stmts_outcome(old(lexer).text(), old(lexer).state(), Seq::empty(), Seq::empty()) {
            Outcome::Done((a, incs)) => r matches Step::Done(f) && f.assignments@ == a && views(
                f.includes@,
            ) == incs,
            Outcome::Fail(f) => r matches Step::Failed(m) && m@ == fault_text(f),
            Outcome::Stuck(st) => r matches Step::Halted(m) && m@ == stuck_text(
                old(lexer).text(),
                st,
            ),
        },
{
    let ghost s = lexer.text();
    let ghost target = stmts_outcome(s, lexer.state(), Seq::empty(), Seq::empty());
    let mut assignments = ConfigMap::new();
    let mut includes: Vec<String> = Vec::new();
    assert(views(includes@) =~= Seq::<Seq<char>>::empty());
    loop
        invariant
            lexer.wf(),
            lexer.text() == s,
            s == old(lexer).text(),
            target == stmts_outcome(
                old(lexer).text(),
                old(lexer).state(),
                Seq::empty(),
                Seq::empty(),
            ),
            target == stmts_outcome(s, lexer.state(), assignments@, views(includes@)),
        decreases s.len() - lexer.state().pos,
    {
        proof {
            lexer.lemma_state_in_text();
            lemma_lex_step(s, lexer.state());
        }
        if !lexer.at_token() {
            let m = lexer.fault_message();
            return Step::Halted(m);
        }
        let ghost st0 = lexer.state();
        let token = lexer.next_token();
        match token {
            Token::Eof => {
                return Step::Done(ConfigFile { assignments, includes });
            },
            Token::Newline => {},
            Token::Comment => {},
            Token::Include => {
                proof {
                    lexer.lemma_state_in_text();
                    lemma_lex_step(s, lexer.state());
                }
                if !lexer.at_token() {
                    let m = lexer.fault_message();
                    return Step::Halted(m);
                }
                let eq = lexer.next_token();
                match eq {
                    Token::Equals => {},
                    _ => {
                        let m = text_at(
                            "Expected '=' after include at ",
                            lexer.current_line(),
                            lexer.current_col(),
                        );
                        return Step::Failed(m);
                    },
                }
                proof {
                    lexer.lemma_state_in_text();
                    lemma_value_outcome_pos(s, lexer.state());
                }
                match value_step(lexer) {
                    Step::Done(v) => match v {
                        Value::List(paths) => {
                            let ghost before = views(includes@);
                            let mut k: usize = 0;
                            while k < paths.len()
                                invariant
                                    k <= paths@.len(),
                                    views(includes@) == before + views(paths@).subrange(
                                        0,
                                        k as int,
                                    ),
                                decreases paths.len() - k,
                            {
                                let ghost old_incs = includes@;
                                let c = copy_string(&paths[k]);
                                includes.push(c);
                                proof {
                                    lemma_views_push(old_incs, c);
                                }
                                assert(views(includes@) =~= before + views(paths@).subrange(
                                    0,
                                    k + 1,
                                ));
                                k = k + 1;
                            }
                            assert(views(paths@).subrange(0, paths@.len() as int) =~= views(
                                paths@,
                            ));
                        },
                        Value::String(_) => {
                            let m = text_at(
                                "Include must be a list at ",
                                lexer.current_line(),
                                lexer.current_col(),
                            );
                            return Step::Failed(m);
                        },
                    },
                    Step::Failed(m) => {
                        return Step::Failed(m);
                    },
                    Step::Halted(m) => {
                        return Step::Halted(m);
                    },
                }
            },
            Token::Ident(key) => {
                proof {
                    lexer.lemma_state_in_text();
                    lemma_lex_step(s, lexer.state());
                }
                if !lexer.at_token() {
                    let m = lexer.fault_message();
                    return Step::Halted(m);
                }
                let eq = lexer.next_token();
                match eq {
                    Token::Equals => {},
                    _ => {
                        let a = concat("Expected '=' after key '", key.as_str());
                        let b = concat(a.as_str(), "' at ");
                        let m = text_at(b.as_str(), lexer.current_line(), lexer.current_col());
                        assert(m@ =~= "Expected '=' after key '"@ + key@ + "' at "@ + pos_text(
                            lexer.state().line,
                            lexer.state().col,
                        ));
                        return Step::Failed(m);
                    },
                }
                proof {
                    lexer.lemma_state_in_text();
                    lemma_value_outcome_pos(s, lexer.state());
                }
                match value_step(lexer) {
                    Step::Done(v) => {
                        assignments.insert(key, v);
                    },
                    Step::Failed(m) => {
                        return Step::Failed(m);
                    },
                    Step::Halted(m) => {
                        return Step::Halted(m);
                    },
                }
            },
            _ => {
                let m = text_at("Unexpected token at ", lexer.current_line(), lexer.current_col());
                return Step::Failed(m);
            },
        }
    }
}

/// The files that the `include` lines of a file name, each joined to the
/// directory of that file as `Path::join` does; they are read in this order,
/// and the including file wins over each of them.
pub fn include_targets(base_dir: &str, includes: &Vec<String>) -> (r: Vec<String>)
    ensures
        views(r@) == views(includes@).map_values(|i: Seq<char>| crate::dotfiles::path_join(base_dir@, i)),
{
    let mut r: Vec<String> = Vec::new();
    let mut k: usize = 0;
    while k < includes.len()
        invariant
            k <= includes@.len(),
            views(r@) == views(includes@).subrange(0, k as int).map_values(
                |i: Seq<char>| crate::dotfiles::path_join(base_dir@, i),
            ),
        decreases includes.len() - k,
    {
        let ghost before = r@;
        let t = crate::dotfiles::join_path(base_dir, includes[k].as_str());
        r.push(t);
        proof {
            crate::text::lemma_views_push(before, t);
        }
        assert(views(r@) =~= views(includes@).subrange(0, k + 1).map_values(
            |i: Seq<char>| crate::dotfiles::path_join(base_dir@, i),
        ));
        k = k + 1;
    }
    assert(views(includes@).subrange(0, includes@.len() as int) =~= views(includes@));
    r
}

/// Reads configuration texts. It remembers the files that it has entered, so that
/// an include cycle is refused.
pub struct Parser {
    includes_processed: Vec<String>,
}

impl Parser {
    /// The files entered so far, by their canonical paths.
    pub closed spec fn processed(&self) -> Seq<Seq<char>> {
        views(self.includes_processed@)
    }

    /// A parser that has entered no file.
    pub fn new() -> (r: Parser)
        ensures
            r.processed() == Seq::<Seq<char>>::empty(),
    {
        let r = Parser { includes_processed: Vec::new() };
        assert(r.processed() =~= Seq::<Seq<char>>::empty());
        r
    }

    /// Enters the file whose canonical path is `canonical` (`shown` is the path
    /// as it was given). A file that was entered before is refused as an include
    /// cycle and nothing changes.
    pub fn enter_file(&mut self, canonical: &str, shown: &str) -> (r: Result<(), String>)
        ensures
            old(self).processed().contains(canonical@) ==> final(self).processed() == old(
                self,
            ).processed(),
            old(self).processed().contains(canonical@) ==> (r matches Err(m) && m@
                == "Circular include detected: "@ + shown@),
            !old(self).processed().contains(canonical@) ==> final(self).processed() == old(
                self,
            ).processed().push(canonical@) && r is Ok,
    {
        let mut i: usize = 0;
        while i < self.includes_processed.len()
            invariant
                i <= self.includes_processed@.len(),
                forall|j: int| 0 <= j < i ==> self.processed()[j] != canonical@,
            decreases self.includes_processed.len() - i,
        {
            if str_eq(self.includes_processed[i].as_str(), canonical) {
                assert(self.processed()[i as int] == canonical@);
                return Err(concat("Circular include detected: ", shown));
            }
            i = i + 1;
        }
        let ghost before = self.processed();
        self.includes_processed.push(crate::text::str_to_string(canonical));
        assert(self.processed() =~= before.push(canonical@));
        Ok(())
    }

    /// Reads a value (a quoted text or a list) from the lexer.
    pub fn parse_value(&self, lexer: &mut Lexer) -> (r: Result<Value, String>)
        requires
            old(lexer).wf(),
            !(value_outcome(old(lexer).text(), old(lexer).state()) is Stuck),
        ensures
            final(lexer).wf(),
            final(lexer).text() == old(lexer).text(),
            match value_outcome(old(lexer).text(), old(lexer).state()) {
                Outcome::Done((v, st)) => r matches Ok(x) && x@ == v && final(lexer).state() == st,
                Outcome::Fail(f) => r matches Err(m) && m@ == fault_text(f),
                Outcome::Stuck(_) => false,
            },
    {
        match value_step(lexer) {
            Step::Done(v) => Ok(v),
            Step::Failed(m) => Err(m),
            Step::Halted(m) => Err(m),
        }
    }

    /// Reads the assignments and include lines of a configuration text. A later
    /// assignment to a key replaces an earlier one.
    pub fn parse_content(&self, content: &str) -> (r: Result<ConfigFile, String>)
        requires
            content@.len() < usize::MAX,
            !file_is_stuck(content@),
        ensures
            match file_outcome(content@) {
                Outcome::Done((a, incs)) => r matches Ok(f) && f.assignments@ == a && views(
                    f.includes@,
                ) == incs,
                Outcome::Fail(f) => r matches Err(m) && m@ == fault_text(f),
                Outcome::Stuck(_) => false,
            },
    {
        let mut lexer = Lexer::new(content);
        match stmts_step(&mut lexer) {
            Step::Done(f) => Ok(f),
            Step::Failed(m) => Err(m),
            Step::Halted(m) => Err(m),
        }
    }

    /// Reads a configuration text as [`Parser::parse_content`] does, and tells
    /// where that would stop at a character that no token starts with: then the
    /// outer `Err` holds the message of that stop.
    pub fn parse_content_checked(&self, content: &str) -> (r: Result<Result<ConfigFile, String>, String>)
        requires
            content@.len() < usize::MAX,
        ensures
            match file_outcome(content@) {
                Outcome::Done((a, incs)) => r matches Ok(Ok(f)) && f.assignments@ == a && views(
                    f.includes@,
                ) == incs,
                Outcome::Fail(f) => r matches Ok(Err(m)) && m@ == fault_text(f),
                Outcome::Stuck(st) => r matches Err(m) && m@ == stuck_text(content@, st),
            },
    {
        let mut lexer = Lexer::new(content);
        match stmts_step(&mut lexer) {
            Step::Done(f) => Ok(Ok(f)),
            Step::Failed(m) => Ok(Err(m)),
            Step::Halted(m) => Err(m),
        }
    }
}

} // verus!
