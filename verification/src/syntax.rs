//! Syntax highlighting for a fenced code block: the lines of a block and the language its
//! fence names in, a [`Token`] per byte range out.
//!
//! The grammars are run by `syntect`, and the set is the one `two-face` bundles. The
//! parser leaves a stack of scopes over every byte. The innermost scope that names a token
//! decides, and of the atoms of a scope the one whose token comes last in [`Token::ALL`].

use std::ops::Range;
use vstd::prelude::*;
use vstd::utf8::*;
use crate::style::Token;
use crate::text;

verus! {

/// One line's highlighting: byte ranges *into that line*, ascending and non-overlapping,
/// with the token over each.
pub type LineTokens = Vec<(Range<usize>, Token)>;

// ── the parser ─────────────────────────────────────────────────────────────────
/// A set of grammars.
#[verifier::external_type_specification]
#[verifier::external_body]
pub struct ExSyntaxSet(syntect::parsing::SyntaxSet);

/// A grammar of a set.
#[verifier::external_type_specification]
#[verifier::external_body]
pub struct ExSyntaxReference(syntect::parsing::SyntaxReference);

/// What a parser carries from one line to the next.
#[verifier::external_type_specification]
#[verifier::external_body]
pub struct ExParseState(syntect::parsing::ParseState);

/// The scopes over a byte.
#[verifier::external_type_specification]
#[verifier::external_body]
pub struct ExScopeStack(syntect::parsing::ScopeStack);

/// A change of the scopes.
#[verifier::external_type_specification]
#[verifier::external_body]
pub struct ExScopeStackOp(syntect::parsing::ScopeStackOp);

/// The grammar that a language's name finds in a set.
pub uninterp spec fn grammar_in(set: syntect::parsing::SyntaxSet, lang: Seq<char>) -> Option<
    syntect::parsing::SyntaxReference,
>;

/// The grammar that a language's name finds in the bundled set.
pub uninterp spec fn bundled_grammar(lang: Seq<char>) -> Option<syntect::parsing::SyntaxReference>;

/// The set that a grammar belongs to.
pub uninterp spec fn grammar_home(
    grammar: syntect::parsing::SyntaxReference,
) -> syntect::parsing::SyntaxSet;

/// The set of the grammar that a parser runs.
pub uninterp spec fn parser_home(
    state: syntect::parsing::ParseState,
) -> syntect::parsing::SyntaxSet;

/// The parser of a grammar, before its first line.
pub uninterp spec fn parser_of(
    grammar: syntect::parsing::SyntaxReference,
) -> syntect::parsing::ParseState;

/// What a parser makes of its next line: the changes of the scopes, each with the byte it
/// takes effect from, or nothing where it fails; and the parser after it.
pub uninterp spec fn line_parsed(state: syntect::parsing::ParseState, line: Seq<char>) -> (
    Option<Seq<(usize, syntect::parsing::ScopeStackOp)>>,
    syntect::parsing::ParseState,
);

/// The scopes after a change.
pub uninterp spec fn scopes_after(
    stack: syntect::parsing::ScopeStack,
    op: syntect::parsing::ScopeStackOp,
) -> syntect::parsing::ScopeStack;

/// The names of the scopes on a stack, innermost last.
pub uninterp spec fn scope_names(stack: syntect::parsing::ScopeStack) -> Seq<Seq<char>>;

/// `two_face::syntax::extra_newlines`: the bundled set, in which each name finds the
/// grammar called [`bundled_grammar`].
#[verifier::external_body]
fn syntax_set() -> (r: syntect::parsing::SyntaxSet)
    ensures
        forall|lang: Seq<char>| #[trigger] grammar_in(r, lang) == bundled_grammar(lang),
{
    two_face::syntax::extra_newlines()
}

/// `SyntaxSet::find_syntax_by_token`: the grammar that the name finds, called
/// [`grammar_in`], which is one of the set's own.
#[verifier::external_body]
fn find_grammar<'a>(set: &'a syntect::parsing::SyntaxSet, lang: &str) -> (r: Option<
    &'a syntect::parsing::SyntaxReference,
>)
    ensures
        match r {
            Some(grammar) => grammar_in(*set, lang@) == Some(*grammar) && grammar_home(*grammar)
                == *set,
            None => grammar_in(*set, lang@) is None,
        },
{
    set.find_syntax_by_token(lang)
}

/// `ParseState::new`: the parser called [`parser_of`], which runs that grammar.
#[verifier::external_body]
fn start_parser(grammar: &syntect::parsing::SyntaxReference) -> (r: syntect::parsing::ParseState)
    ensures
        r == parser_of(*grammar),
        parser_home(r) == grammar_home(*grammar),
{
    syntect::parsing::ParseState::new(grammar)
}

/// `ParseState::parse_line`, which is asked for the set that the parser's grammar belongs
/// to: what it returns and what the parser becomes is called [`line_parsed`], and the
/// parser stays one of that grammar.
#[verifier::external_body]
fn parse_line(
    state: &mut syntect::parsing::ParseState,
    line: &str,
    set: &syntect::parsing::SyntaxSet,
) -> (r: Option<Vec<(usize, syntect::parsing::ScopeStackOp)>>)
    requires
        parser_home(*old(state)) == *set,
    ensures
        match r {
            Some(ops) => line_parsed(*old(state), line@).0 == Some(ops@),
            None => line_parsed(*old(state), line@).0 is None,
        },
        *final(state) == line_parsed(*old(state), line@).1,
        parser_home(*final(state)) == *set,
{
    state.parse_line(line, set).ok()
}

/// `ScopeStack::new`: a stack without scopes.
#[verifier::external_body]
fn no_scopes() -> (r: syntect::parsing::ScopeStack)
    ensures
        scope_names(r) == Seq::<Seq<char>>::empty(),
{
    syntect::parsing::ScopeStack::new()
}

/// `ScopeStack::apply`, its error set aside: the stack becomes the one called
/// [`scopes_after`].
#[verifier::external_body]
fn change_scopes(
    stack: &mut syntect::parsing::ScopeStack,
    op: &syntect::parsing::ScopeStackOp,
)
    ensures
        *final(stack) == scopes_after(*old(stack), *op),
{
    let _ = stack.apply(op);
}

/// The views of some strings.
pub open spec fn string_views(strings: Seq<String>) -> Seq<Seq<char>> {
    Seq::new(strings.len(), |i: int| strings[i]@)
}

/// `ScopeStack::as_slice`, each scope written out by `Scope::build_string`: the names
/// called [`scope_names`].
#[verifier::external_body]
fn names_of_scopes(stack: &syntect::parsing::ScopeStack) -> (r: Vec<String>)
    ensures
        string_views(r@) == scope_names(*stack),
{
    stack.as_slice().iter().map(|scope| scope.build_string()).collect()
}

// ── scopes and tokens ──────────────────────────────────────────────────────────
/// The token that an atom of a scope's name stands for.
pub open spec fn atom_token(atom: Seq<char>) -> Option<Token> {
    if atom == "punctuation"@ {
        Some(Token::Punctuation)
    } else if atom == "keyword"@ || atom == "storage"@ {
        Some(Token::Keyword)
    } else if atom == "entity"@ || atom == "variable"@ {
        Some(Token::Entity)
    } else if atom == "support"@ {
        Some(Token::Support)
    } else if atom == "constant"@ {
        Some(Token::Constant)
    } else if atom == "string"@ {
        Some(Token::String)
    } else if atom == "comment"@ {
        Some(Token::Comment)
    } else if atom == "invalid"@ {
        Some(Token::Invalid)
    } else {
        None
    }
}

/// The later of two tokens, in the order of [`Token::ALL`].
pub open spec fn later(a: Option<Token>, b: Option<Token>) -> Option<Token> {
    match a {
        None => b,
        Some(x) => match b {
            None => a,
            Some(y) => if x.place() > y.place() {
                a
            } else {
                b
            },
        },
    }
}

/// The token that a scope's name stands for, read from `from` on: the latest of those that
/// its atoms, the parts between its dots, stand for.
pub open spec fn scope_token_from(scope: Seq<char>, from: int) -> Option<Token>
    decreases scope.len() - from,
    when 0 <= from
{
    if from > scope.len() {
        None
    } else {
        let dot = text::seek(scope, from, '.');
        let token = atom_token(scope.subrange(from, dot));
        if dot >= scope.len() {
            token
        } else {
            proof {
                text::lemma_seek(scope, from, '.');
            }
            later(token, scope_token_from(scope, dot + 1))
        }
    }
}

/// The token that a scope's name stands for.
pub open spec fn scope_token(scope: Seq<char>) -> Option<Token> {
    scope_token_from(scope, 0)
}

/// The token that a stack of scopes puts on the bytes under it: that of the innermost
/// scope that stands for one.
pub open spec fn stack_token(scopes: Seq<Seq<char>>) -> Option<Token>
    decreases scopes.len(),
{
    if scopes.len() == 0 {
        None
    } else {
        match scope_token(scopes.last()) {
            Some(token) => Some(token),
            None => stack_token(scopes.drop_last()),
        }
    }
}

/// The token that an atom stands for.
pub fn token_of_atom(atom: &str) -> (r: Option<Token>)
    ensures
        r == atom_token(atom@),
{
    if text::str_eq(atom, "punctuation") {
        Some(Token::Punctuation)
    } else if text::str_eq(atom, "keyword") || text::str_eq(atom, "storage") {
        Some(Token::Keyword)
    } else if text::str_eq(atom, "entity") || text::str_eq(atom, "variable") {
        Some(Token::Entity)
    } else if text::str_eq(atom, "support") {
        Some(Token::Support)
    } else if text::str_eq(atom, "constant") {
        Some(Token::Constant)
    } else if text::str_eq(atom, "string") {
        Some(Token::String)
    } else if text::str_eq(atom, "comment") {
        Some(Token::Comment)
    } else if text::str_eq(atom, "invalid") {
        Some(Token::Invalid)
    } else {
        None
    }
}

/// The later of two tokens is the later of any grouping of them.
proof fn lemma_later(a: Option<Token>, b: Option<Token>, c: Option<Token>)
    ensures
        later(later(a, b), c) == later(a, later(b, c)),
        later(None, a) == a,
        later(a, None) == a,
{
}

/// The token one scope names, by the last token in [`Token::ALL`] that any of its atoms
/// names, or `None` for a scope that names none.
pub fn token_of_scope(scope: &str) -> (r: Option<Token>)
    ensures
        r == scope_token(scope@),
{
    let chars = text::chars_of(scope);
    let mut from: usize = 0;
    let mut best: Option<Token> = None;
    loop
        invariant
            from <= chars@.len(),
            chars@ == scope@,
            scope_token(scope@) == later(best, scope_token_from(scope@, from as int)),
        decreases chars@.len() - from,
    {
        let dot = text::find_char(chars.as_slice(), from, '.');
        let atom = text::string_of(chars.as_slice(), from, dot);
        let token = token_of_atom(atom.as_str());
        proof {
            if dot < chars@.len() {
                lemma_later(best, token, scope_token_from(scope@, dot + 1));
            }
        }
        best = match (best, token) {
            (Some(a), Some(b)) => if a.index() > b.index() {
                best
            } else {
                token
            },
            (Some(_), None) => best,
            (None, _) => token,
        };
        if dot >= chars.len() {
            return best;
        }
        from = dot + 1;
    }
}

/// The token a stack of scopes puts on the bytes under it: the innermost scope that names
/// one.
pub fn token_of_stack(scopes: &Vec<String>) -> (r: Option<Token>)
    ensures
        r == stack_token(string_views(scopes@)),
{
    let ghost views = string_views(scopes@);
    let mut n: usize = scopes.len();
    assert(views.take(n as int) == views);
    while n > 0
        invariant
            n <= scopes@.len(),
            views == string_views(scopes@),
            stack_token(views) == stack_token(views.take(n as int)),
        decreases n,
    {
        assert(views.take(n as int).drop_last() == views.take(n - 1));
        n = n - 1;
        let token = token_of_scope(scopes[n].as_str());
        if token.is_some() {
            return token;
        }
    }
    None
}

// ── spans ──────────────────────────────────────────────────────────────────────
/// A span of a line: the bytes `start..end` and their token.
pub struct SpanView {
    pub start: int,
    pub end: int,
    pub token: Token,
}

/// What a line's spans say.
pub open spec fn spans_view(spans: Seq<(Range<usize>, Token)>) -> Seq<SpanView> {
    Seq::new(
        spans.len(),
        |i: int|
            SpanView {
                start: spans[i].0.start as int,
                end: spans[i].0.end as int,
                token: spans[i].1,
            },
    )
}

/// Spans with one more behind them: none where it has no token, and one span where it
/// carries the token of the span that it touches.
pub open spec fn span_pushed(
    spans: Seq<SpanView>,
    start: int,
    end: int,
    token: Option<Token>,
) -> Seq<SpanView> {
    match token {
        None => spans,
        Some(token) => if spans.len() > 0 && spans.last().token == token && spans.last().end
            == start {
            spans.drop_last().push(SpanView { start: spans.last().start, end, token })
        } else {
            spans.push(SpanView { start, end, token })
        },
    }
}

/// Whether spans are not empty, ascending, disjoint and inside a line of `len` bytes, and
/// no two of one token touch.
pub open spec fn spans_ordered(spans: Seq<SpanView>, len: int) -> bool {
    &&& forall|i: int|
        0 <= i < spans.len() ==> 0 <= (#[trigger] spans[i]).start < spans[i].end <= len
    &&& forall|i: int, j: int|
        0 <= i < j < spans.len() ==> (#[trigger] spans[i]).end <= (#[trigger] spans[j]).start && (
        spans[i].end == spans[j].start ==> spans[i].token != spans[j].token)
}

/// Append a range with a token, merging into the previous range when it carries the same
/// token and touches it. A range with no token is not recorded at all.
pub fn push_span(spans: &mut LineTokens, range: Range<usize>, token: Option<Token>)
    ensures
        spans_view(final(spans)@) == span_pushed(
            spans_view(old(spans)@),
            range.start as int,
            range.end as int,
            token,
        ),
{
    let ghost before = spans_view(spans@);
    let token = match token {
        Some(token) => token,
        None => return,
    };
    let n: usize = spans.len();
    if n > 0 && spans[n - 1].1 == token && spans[n - 1].0.end == range.start {
        let start: usize = spans[n - 1].0.start;
        spans.truncate(n - 1);
        spans.push((start..range.end, token));
        assert(spans_view(spans@) =~= before.drop_last().push(
            SpanView { start: start as int, end: range.end as int, token },
        ));
    } else {
        spans.push((range.start..range.end, token));
        assert(spans_view(spans@) =~= before.push(
            SpanView { start: range.start as int, end: range.end as int, token },
        ));
    }
}

/// A span put behind others that end before it keeps them ordered.
proof fn lemma_span_pushed(
    spans: Seq<SpanView>,
    start: int,
    end: int,
    token: Option<Token>,
    len: int,
)
    requires
        spans_ordered(spans, len),
        0 <= start < end <= len,
        forall|i: int| 0 <= i < spans.len() ==> (#[trigger] spans[i]).end <= start,
    ensures
        spans_ordered(span_pushed(spans, start, end, token), len),
        forall|i: int|
            0 <= i < span_pushed(spans, start, end, token).len() ==> (#[trigger] span_pushed(
                spans,
                start,
                end,
                token,
            )[i]).end <= end,
{
    let after = span_pushed(spans, start, end, token);
    if let Some(t) = token {
        let n = after.len() - 1;
        assert forall|i: int| 0 <= i < n implies (#[trigger] after[i]) == spans[i] by {}
        if spans.len() > 0 && spans.last().token == t && spans.last().end == start {
            assert(n == spans.len() - 1);
            assert forall|i: int, j: int| 0 <= i < j < after.len() implies (
            #[trigger] after[i]).end <= (#[trigger] after[j]).start && (after[i].end
                == after[j].start ==> after[i].token != after[j].token) by {
                assert(spans[i].end <= spans[j].start);
            }
        } else {
            assert(n == spans.len());
            assert forall|i: int, j: int| 0 <= i < j < after.len() implies (
            #[trigger] after[i]).end <= (#[trigger] after[j]).start && (after[i].end
                == after[j].start ==> after[i].token != after[j].token) by {
                if j < n {
                    assert(spans[i].end <= spans[j].start);
                } else if i < n - 1 {
                    assert(spans[i].end <= spans[n - 1].start);
                    assert(spans[n - 1].start < spans[n - 1].end);
                }
            }
        }
    }
}

// ── lines ──────────────────────────────────────────────────────────────────────
/// The spans of a line of `len` bytes from the change `k` on: the bytes since the previous
/// change, which reach from `last`, are under the stack as it stood. The stack after the
/// line stands beside them.
pub open spec fn line_spans(
    ops: Seq<(usize, syntect::parsing::ScopeStackOp)>,
    k: int,
    stack: syntect::parsing::ScopeStack,
    last: int,
    len: int,
    spans: Seq<SpanView>,
) -> (Seq<SpanView>, syntect::parsing::ScopeStack)
    decreases ops.len() - k,
{
    let token = stack_token(scope_names(stack));
    if k >= ops.len() {
        if len > last {
            (span_pushed(spans, last, len, token), stack)
        } else {
            (spans, stack)
        }
    } else {
        let pos = if ops[k].0 <= len {
            ops[k].0 as int
        } else {
            len
        };
        let next = scopes_after(stack, ops[k].1);
        if pos > last {
            line_spans(ops, k + 1, next, pos, len, span_pushed(spans, last, pos, token))
        } else {
            line_spans(ops, k + 1, next, last, len, spans)
        }
    }
}

/// The spans of the lines from the line `i` on. Where the parser fails, that line and those
/// after it have none.
pub open spec fn lines_classed(
    state: syntect::parsing::ParseState,
    stack: syntect::parsing::ScopeStack,
    lines: Seq<Seq<char>>,
    i: int,
) -> Seq<Seq<SpanView>>
    decreases lines.len() - i,
{
    if i >= lines.len() {
        Seq::empty()
    } else {
        let parsed = line_parsed(state, lines[i].push('\n'));
        match parsed.0 {
            None => Seq::new((lines.len() - i) as nat, |k: int| Seq::<SpanView>::empty()),
            Some(ops) => {
                let line = line_spans(
                    ops,
                    0,
                    stack,
                    0,
                    encode_utf8(lines[i]).len() as int,
                    Seq::empty(),
                );
                seq![line.0] + lines_classed(parsed.1, line.1, lines, i + 1)
            },
        }
    }
}

/// The views of some lines.
pub open spec fn line_views(lines: Seq<&str>) -> Seq<Seq<char>> {
    Seq::new(lines.len(), |i: int| lines[i]@)
}

/// What the spans of some lines say.
pub open spec fn classes_view(lines: Seq<LineTokens>) -> Seq<Seq<SpanView>> {
    Seq::new(lines.len(), |i: int| spans_view(lines[i]@))
}

/// Whether `classes` is what a grammar makes of some lines, from a stack without scopes on.
pub open spec fn classed_by(
    grammar: syntect::parsing::SyntaxReference,
    lines: Seq<Seq<char>>,
    classes: Seq<Seq<SpanView>>,
) -> bool {
    exists|stack: syntect::parsing::ScopeStack|
        (#[trigger] scope_names(stack)).len() == 0 && classes == lines_classed(
            parser_of(grammar),
            stack,
            lines,
            0,
        )
}

/// The spans of one line, and the stack after it.
fn class_line(
    len: usize,
    ops: &Vec<(usize, syntect::parsing::ScopeStackOp)>,
    stack: &mut syntect::parsing::ScopeStack,
) -> (r: LineTokens)
    ensures
        (spans_view(r@), *final(stack)) == line_spans(
            ops@,
            0,
            *old(stack),
            0,
            len as int,
            Seq::empty(),
        ),
        spans_ordered(spans_view(r@), len as int),
{
    let mut spans: LineTokens = Vec::new();
    let ghost whole = line_spans(ops@, 0, *stack, 0, len as int, Seq::empty());
    let mut last: usize = 0;
    let mut k: usize = 0;
    assert(spans_view(spans@) == Seq::<SpanView>::empty());
    while k < ops.len()
        invariant
            k <= ops@.len(),
            last <= len,
            whole == line_spans(
                ops@,
                k as int,
                *stack,
                last as int,
                len as int,
                spans_view(spans@),
            ),
            spans_ordered(spans_view(spans@), len as int),
            forall|i: int|
                0 <= i < spans_view(spans@).len() ==> (#[trigger] spans_view(spans@)[i]).end
                    <= last,
        decreases ops@.len() - k,
    {
        let pos: usize = if ops[k].0 <= len {
            ops[k].0
        } else {
            len
        };
        if pos > last {
            let token = token_of_stack(&names_of_scopes(stack));
            proof {
                lemma_span_pushed(
                    spans_view(spans@),
                    last as int,
                    pos as int,
                    token,
                    len as int,
                );
            }
            push_span(&mut spans, last..pos, token);
            last = pos;
        }
        change_scopes(stack, &ops[k].1);
        k = k + 1;
    }
    if len > last {
        let token = token_of_stack(&names_of_scopes(stack));
        proof {
            lemma_span_pushed(spans_view(spans@), last as int, len as int, token, len as int);
        }
        push_span(&mut spans, last..len, token);
    }
    spans
}

/// Whether `lang`, a fence's info string, names a grammar of the bundled set.
pub fn knows(lang: &str) -> (r: bool)
    ensures
        r == (bundled_grammar(lang@) is Some),
{
    let set = syntax_set();
    find_grammar(&set, lang).is_some()
}

/// Highlight the lines of one fenced code block written in `lang`.
///
/// One list of spans per line, in order, each a byte range *into that line* with the token
/// over it, ascending and non-overlapping. The lines are the block's text split on `\n`,
/// without terminators; the terminators are supplied here, since the grammars expect them.
///
/// `None` when `lang` names no grammar the bundled set carries. A grammar that fails
/// mid-block loses its tokens from that line on rather than losing the block.
pub fn highlight(lang: &str, lines: &[&str]) -> (r: Option<Vec<LineTokens>>)
    ensures
        match bundled_grammar(lang@) {
            None => r is None,
            Some(grammar) => match r {
                None => false,
                Some(out) => classed_by(grammar, line_views(lines@), classes_view(out@)),
            },
        },
        match r {
            None => true,
            Some(out) => out@.len() == lines@.len() && forall|i: int|
                0 <= i < out@.len() ==> spans_ordered(
                    spans_view(#[trigger] out@[i]@),
                    encode_utf8(lines@[i]@).len() as int,
                ),
        },
{
    let set = syntax_set();
    let grammar = match find_grammar(&set, lang) {
        Some(grammar) => grammar,
        None => return None,
    };
    let mut state = start_parser(grammar);
    let mut stack = no_scopes();
    let mut out: Vec<LineTokens> = Vec::new();
    let ghost views = line_views(lines@);
    let ghost whole = lines_classed(state, stack, views, 0);
    let ghost stack0 = stack;
    let mut failed = false;
    let mut i: usize = 0;
    assert(classes_view(out@) + whole =~= whole);
    while i < lines.len() && !failed
        invariant
            i == out@.len() <= lines@.len(),
            views == line_views(lines@),
            parser_home(state) == set,
            !failed ==> whole == classes_view(out@) + lines_classed(
                state,
                stack,
                views,
                i as int,
            ),
            failed ==> whole == classes_view(out@) + Seq::new(
                (lines@.len() - i) as nat,
                |k: int| Seq::<SpanView>::empty(),
            ),
            forall|k: int|
                0 <= k < out@.len() ==> spans_ordered(
                    spans_view(#[trigger] out@[k]@),
                    encode_utf8(lines@[k]@).len() as int,
                ),
        decreases lines@.len() - i, (if failed {
            0int
        } else {
            1int
        }),
    {
        let ghost before = classes_view(out@);
        let line = lines[i];
        let mut buf: Vec<char> = text::chars_of(line);
        buf.push('\n');
        let fed = text::string_of(buf.as_slice(), 0, buf.len());
        assert(fed@ =~= views[i as int].push('\n'));
        match parse_line(&mut state, fed.as_str(), &set) {
            None => {
                failed = true;
            },
            Some(ops) => {
                let len: usize = line.as_bytes().len();
                let spans = class_line(len, &ops, &mut stack);
                out.push(spans);
                assert(classes_view(out@) =~= before.push(spans_view(spans@)));
                i = i + 1;
                assert(before + (seq![spans_view(spans@)] + lines_classed(
                    state,
                    stack,
                    views,
                    i as int,
                )) =~= classes_view(out@) + lines_classed(state, stack, views, i as int));
            },
        }
    }
    while out.len() < lines.len()
        invariant
            out@.len() <= lines@.len(),
            whole == classes_view(out@) + Seq::new(
                (lines@.len() - out@.len()) as nat,
                |k: int| Seq::<SpanView>::empty(),
            ),
            forall|k: int|
                0 <= k < out@.len() ==> spans_ordered(
                    spans_view(#[trigger] out@[k]@),
                    encode_utf8(lines@[k]@).len() as int,
                ),
        decreases lines@.len() - out@.len(),
    {
        let ghost before = classes_view(out@);
        let ghost n = (lines@.len() - out@.len()) as nat;
        let none: LineTokens = Vec::new();
        out.push(none);
        assert(spans_view(none@) =~= Seq::<SpanView>::empty());
        assert(classes_view(out@) =~= before.push(Seq::<SpanView>::empty()));
        assert(before + Seq::new(n, |k: int| Seq::<SpanView>::empty()) =~= classes_view(out@)
            + Seq::new((n - 1) as nat, |k: int| Seq::<SpanView>::empty()));
    }
    assert(whole =~= classes_view(out@));
    assert(bundled_grammar(lang@) == Some(*grammar));
    assert(classes_view(out@) == lines_classed(
        parser_of(*grammar),
        stack0,
        line_views(lines@),
        0,
    ));
    Some(out)
}

} // verus!
