//! What the tokens of code say.

use vstd::prelude::*;
use vstd::utf8::*;
use crate::style::Token;
use crate::syntax;
use crate::syntax::SpanView;
use crate::text;

verus! {

/// The innermost scope that stands for a token decides: those inside it that stand for none
/// do not count, nor do those outside it.
pub proof fn law_the_innermost_scope_decides(scopes: Seq<Seq<char>>, at: int)
    requires
        0 <= at < scopes.len(),
        syntax::scope_token(scopes[at]) is Some,
        forall|k: int| at < k < scopes.len() ==> syntax::scope_token(#[trigger] scopes[k]) is None,
    ensures
        syntax::stack_token(scopes) == syntax::scope_token(scopes[at]),
    decreases scopes.len(),
{
    let last = scopes.len() - 1;
    if at < last {
        assert(syntax::scope_token(scopes[last]) is None);
        assert forall|k: int| at < k < scopes.drop_last().len() implies syntax::scope_token(
            #[trigger] scopes.drop_last()[k],
        ) is None by {
            assert(scopes.drop_last()[k] == scopes[k]);
        }
        law_the_innermost_scope_decides(scopes.drop_last(), at);
    }
}

/// Where no scope stands for a token, there is none.
pub proof fn law_no_scope_no_token(scopes: Seq<Seq<char>>)
    requires
        forall|k: int| 0 <= k < scopes.len() ==> syntax::scope_token(#[trigger] scopes[k]) is None,
    ensures
        syntax::stack_token(scopes) is None,
    decreases scopes.len(),
{
    if scopes.len() > 0 {
        assert(syntax::scope_token(scopes[scopes.len() - 1]) is None);
        assert forall|k: int| 0 <= k < scopes.drop_last().len() implies syntax::scope_token(
            #[trigger] scopes.drop_last()[k],
        ) is None by {
            assert(scopes.drop_last()[k] == scopes[k]);
        }
        law_no_scope_no_token(scopes.drop_last());
    }
}

/// What a scope stands for is told by the parts between its dots, each by itself: a part that
/// stands for no token changes nothing, in front or behind.
pub proof fn law_a_part_of_no_token_changes_nothing(part: Seq<char>, scope: Seq<char>)
    requires
        forall|k: int| 0 <= k < part.len() ==> part[k] != '.',
        syntax::atom_token(part) is None,
    ensures
        syntax::scope_token(part + seq!['.'] + scope) == syntax::scope_token(scope),
{
    let whole = part + seq!['.'] + scope;
    let n = part.len() as int;
    text::lemma_seek(whole, 0, '.');
    assert(whole[n] == '.');
    assert(text::seek(whole, 0, '.') == n) by {
        assert forall|k: int| 0 <= k < n implies whole[k] != '.' by {
            assert(whole[k] == part[k]);
        }
    }
    assert(whole.subrange(0, n) =~= part);
    assert(whole.skip(n + 1) =~= scope);
    lemma_behind(whole, scope, n + 1, 0);
}

/// Reading a scope from inside a longer text.
proof fn lemma_behind(whole: Seq<char>, scope: Seq<char>, n: int, from: int)
    requires
        0 <= n <= whole.len(),
        0 <= from <= scope.len(),
        whole.skip(n) == scope,
    ensures
        syntax::scope_token_from(whole, n + from) == syntax::scope_token_from(scope, from),
    decreases scope.len() - from,
{
    text::lemma_seek(scope, from, '.');
    text::lemma_seek(whole, n + from, '.');
    let dot = text::seek(scope, from, '.');
    assert forall|k: int| 0 <= k < scope.len() implies #[trigger] scope[k] == whole[n + k] by {
        assert(whole.skip(n)[k] == whole[n + k]);
    }
    assert(text::seek(whole, n + from, '.') == n + dot) by {
        let found = text::seek(whole, n + from, '.');
        if found < n + dot {
            assert(scope[found - n] == whole[found]);
        }
        if found > n + dot && dot < scope.len() {
            assert(scope[dot] == whole[n + dot]);
        }
    }
    assert(whole.subrange(n + from, n + dot) =~= scope.subrange(from, dot));
    if dot < scope.len() {
        lemma_behind(whole, scope, n, dot + 1);
    }
}

/// A scope of one part stands for what the part stands for.
pub proof fn law_a_part_stands_for_its_token(part: Seq<char>)
    requires
        forall|k: int| 0 <= k < part.len() ==> part[k] != '.',
    ensures
        syntax::scope_token(part) == syntax::atom_token(part),
{
    text::lemma_seek(part, 0, '.');
    assert(part.subrange(0, part.len() as int) =~= part);
}

/// The token on a byte: that of the span that it is in.
pub open spec fn token_on(spans: Seq<SpanView>, i: int, token: Token) -> bool {
    exists|k: int|
        0 <= k < spans.len() && (#[trigger] spans[k]).start <= i < spans[k].end && spans[k].token
            == token
}

/// Putting a range behind spans that end before it puts its token on its bytes and on no
/// others, whether or not it grows the last span.
pub proof fn law_a_range_gets_its_token(
    spans: Seq<SpanView>,
    start: int,
    end: int,
    token: Option<Token>,
    i: int,
    t: Token,
)
    requires
        start <= end,
        forall|k: int| 0 <= k < spans.len() ==> (#[trigger] spans[k]).start <= spans[k].end <= start,
    ensures
        token_on(syntax::span_pushed(spans, start, end, token), i, t) <==> token_on(spans, i, t) || (
        start <= i < end && token == Some(t)),
{
    let after = syntax::span_pushed(spans, start, end, token);
    if token is Some {
        let last = spans.len() - 1;
        if spans.len() > 0 && spans.last().token == token->0 && spans.last().end == start {
            assert(after[last] == (SpanView {
                start: spans[last].start,
                end,
                token: token->0,
            }));
            assert forall|k: int| 0 <= k < last implies after[k] == spans[k] by {}
            if token_on(spans, i, t) {
                let k = choose|k: int|
                    0 <= k < spans.len() && (#[trigger] spans[k]).start <= i < spans[k].end
                        && spans[k].token == t;
                assert(after[k].start <= i < after[k].end && after[k].token == t);
            }
            if token_on(after, i, t) {
                let k = choose|k: int|
                    0 <= k < after.len() && (#[trigger] after[k]).start <= i < after[k].end
                        && after[k].token == t;
                assert(spans[k].start <= i);
                if k < last {
                    assert(token_on(spans, i, t));
                } else if i < spans[last].end {
                    assert(spans[last].token == t);
                }
            }
        } else {
            assert(after[last + 1] == (SpanView { start, end, token: token->0 }));
            assert forall|k: int| 0 <= k <= last implies after[k] == spans[k] by {}
            if token_on(spans, i, t) {
                let k = choose|k: int|
                    0 <= k < spans.len() && (#[trigger] spans[k]).start <= i < spans[k].end
                        && spans[k].token == t;
                assert(after[k] == spans[k]);
            }
            if token_on(after, i, t) {
                let k = choose|k: int|
                    0 <= k < after.len() && (#[trigger] after[k]).start <= i < after[k].end
                        && after[k].token == t;
                if k <= last {
                    assert(spans[k] == after[k]);
                }
            }
        }
    }
}

/// A line under one stack of scopes is all in that stack's token, or in none.
pub proof fn law_an_unchanged_stack_is_one_span(stack: syntect::parsing::ScopeStack, len: int)
    requires
        len > 0,
    ensures
        syntax::line_spans(Seq::empty(), 0, stack, 0, len, Seq::empty()).0 == (
        match syntax::stack_token(syntax::scope_names(stack)) {
            Some(token) => seq![SpanView { start: 0, end: len, token }],
            None => Seq::empty(),
        }),
{
    assert(Seq::<SpanView>::empty().push(SpanView {
        start: 0,
        end: len,
        token: syntax::stack_token(syntax::scope_names(stack))->0,
    }) =~= seq![
        SpanView {
            start: 0,
            end: len,
            token: syntax::stack_token(syntax::scope_names(stack))->0,
        },
    ]);
}

/// A change of scopes inside a line parts it: what stands before the change is under the
/// stack before it, what stands behind under the stack after it.
pub proof fn law_a_change_parts_the_line(
    stack: syntect::parsing::ScopeStack,
    op: syntect::parsing::ScopeStackOp,
    at: usize,
    len: int,
    i: int,
    t: Token,
)
    requires
        0 < at < len,
        0 <= i < len,
    ensures
        token_on(
            syntax::line_spans(seq![(at, op)], 0, stack, 0, len, Seq::empty()).0,
            i,
            t,
        ) <==> syntax::stack_token(
            syntax::scope_names(
                if i < at {
                    stack
                } else {
                    syntax::scopes_after(stack, op)
                },
            ),
        ) == Some(t),
{
    reveal_with_fuel(syntax::line_spans, 3);
    let none = Seq::<SpanView>::empty();
    let one = syntax::stack_token(syntax::scope_names(stack));
    let two = syntax::stack_token(syntax::scope_names(syntax::scopes_after(stack, op)));
    let first = syntax::span_pushed(none, 0, at as int, one);
    law_a_range_gets_its_token(none, 0, at as int, one, i, t);
    assert forall|k: int| 0 <= k < first.len() implies (#[trigger] first[k]).start <= first[k].end
        <= at by {}
    law_a_range_gets_its_token(first, at as int, len, two, i, t);
    assert(!token_on(none, i, t));
    assert(seq![(at, op)][0] == (at, op));
}

/// The lines keep their number, and each that the parser takes is classed by what it says of
/// it, in the state that the lines before left.
pub proof fn law_each_line_is_classed(
    state: syntect::parsing::ParseState,
    stack: syntect::parsing::ScopeStack,
    lines: Seq<Seq<char>>,
    i: int,
)
    requires
        0 <= i <= lines.len(),
    ensures
        syntax::lines_classed(state, stack, lines, i).len() == lines.len() - i,
    decreases lines.len() - i,
{
    if i < lines.len() {
        let parsed = syntax::line_parsed(state, lines[i].push('\n'));
        if let Some(ops) = parsed.0 {
            let line = syntax::line_spans(
                ops,
                0,
                stack,
                0,
                encode_utf8(lines[i]).len() as int,
                Seq::empty(),
            );
            law_each_line_is_classed(parsed.1, line.1, lines, i + 1);
        }
    }
}

} // verus!
