//! Laws of the engine: what holds of every grammar and every cursor.
use vstd::prelude::*;
use crate::combinators::{outcome, reports};
use crate::cursor::{grapheme_clusters, Cursor, State};
use crate::grammar::{class_accepts, Func, Grammar};
use crate::semantics::{
    alt_from, eval, lemma_eval_follows, progresses, rep_items, seq_from,
};
use crate::tree::{MatchState, MatchTree};

verus! {

/// Looking ahead succeeds exactly where enough clusters are left, and then
/// yields those clusters joined; looking ahead by nothing yields the empty text.
pub proof fn law_peek(cursor: Cursor, n: nat)
    ensures
        cursor.peek(n) is Some <==> cursor.offset + n <= cursor.source.len(),
        cursor.peek(n) matches Some(text) ==> text == cursor.source.subrange(
            cursor.offset as int,
            (cursor.offset + n) as int,
        ).flatten(),
        cursor.wf() ==> cursor.peek(0) == Some(Seq::<char>::empty()),
{
    if cursor.wf() {
        assert(cursor.source.subrange(cursor.offset as int, cursor.offset as int).flatten()
            =~= Seq::<char>::empty());
    }
}

/// Advancing within the input keeps the cursor valid, leaves the input as
/// it is and moves only the position.
pub proof fn law_advance(cursor: Cursor, n: nat)
    requires
        cursor.offset + n <= cursor.source.len(),
    ensures
        cursor.advance(n).wf(),
        cursor.advance(n).source == cursor.source,
        cursor.advance(n).offset == cursor.offset + n,
        cursor.advance(n).peek(0) == Some(Seq::<char>::empty()),
        cursor.advance(n).is_complete() <==> cursor.offset + n == cursor.source.len(),
{
    law_peek(cursor.advance(n), 0);
}

/// A match leaves a valid cursor valid: it keeps the input, never moves
/// backwards and never moves behind the end of the input.
pub proof fn law_match_keeps_cursor_valid(grammar: Grammar, cursor: Cursor)
    requires
        cursor.wf(),
    ensures
        eval(grammar, cursor) matches Some((_, next)) ==> {
            &&& next.wf()
            &&& next.source == cursor.source
            &&& cursor.offset <= next.offset
        },
{
    lemma_eval_follows(grammar, cursor);
}

/// A literal matches exactly where the next clusters, as many as the
/// literal has, join to the literal; the match reports the literal and
/// moves the cursor by that many clusters.
pub proof fn law_str_exact(text: Seq<char>, cursor: Cursor)
    ensures
        ({
            let n = grapheme_clusters(text).len();
            let fits = cursor.offset + n <= cursor.source.len() && cursor.source.subrange(
                cursor.offset as int,
                (cursor.offset + n) as int,
            ).flatten() == text;
            eval(Grammar::Str(text), cursor) == if fits {
                Some((MatchTree::Literal(text), cursor.advance(n)))
            } else {
                None
            }
        }),
{
}

/// A character class matches exactly where a cluster is left and the class
/// accepts the next one; the match reports that cluster and moves the cursor by one.
pub proof fn law_chr_next_cluster(class: Seq<char>, cursor: Cursor)
    ensures
        ({
            let fits = cursor.offset < cursor.source.len() && class_accepts(
                class,
                cursor.source[cursor.offset as int],
            );
            eval(Grammar::Chr(class), cursor) == if fits {
                Some((MatchTree::Char(cursor.source[cursor.offset as int]), cursor.advance(1)))
            } else {
                None
            }
        }),
{
    if cursor.offset < cursor.source.len() {
        let next = cursor.source.subrange(cursor.offset as int, (cursor.offset + 1) as int);
        next.lemma_flatten_one_element();
    }
}

/// The empty sequence matches everywhere and consumes nothing.
pub proof fn law_seq_empty(cursor: Cursor)
    ensures
        eval(Grammar::Sequence(Seq::empty()), cursor) == Some(
            (MatchTree::Sequence(Seq::empty()), cursor),
        ),
{
}

/// A sequence with one more part at its end matches exactly where the
/// sequence before matches and the new part matches behind it; its result
/// is the earlier result with the new part's result at the end.
pub proof fn law_seq_all_or_nothing(parts: Seq<Grammar>, last: Grammar, cursor: Cursor)
    ensures
        eval(Grammar::Sequence(parts.push(last)), cursor) == match eval(
            Grammar::Sequence(parts),
            cursor,
        ) {
            Some((MatchTree::Sequence(items), mid)) => match eval(last, mid) {
                Some((tree, end)) => Some((MatchTree::Sequence(items.push(tree)), end)),
                None => None,
            },
            _ => None,
        },
{
    lemma_seq_push(parts, last, 0, cursor);
}

/// `seq_from` over a sequence with one more part at its end.
proof fn lemma_seq_push(parts: Seq<Grammar>, last: Grammar, i: nat, cursor: Cursor)
    requires
        i <= parts.len(),
    ensures
        seq_from(parts.push(last), i, cursor) == match seq_from(parts, i, cursor) {
            Some((items, mid)) => match eval(last, mid) {
                Some((tree, end)) => Some((items.push(tree), end)),
                None => None,
            },
            None => None,
        },
    decreases parts.len() - i,
{
    let longer = parts.push(last);
    if i < parts.len() {
        assert(longer[i as int] == parts[i as int]);
        match eval(parts[i as int], cursor) {
            Some((tree, next)) => {
                lemma_seq_push(parts, last, i + 1, next);
                match (seq_from(parts, i + 1, next), seq_from(longer, i + 1, next)) {
                    (Some((rest, mid)), Some((more, end))) => {
                        assert(seq![tree] + more =~= (seq![tree] + rest).push(more.last()));
                    },
                    _ => {},
                }
            },
            None => {},
        }
    } else {
        assert(longer[i as int] == last);
        match eval(last, cursor) {
            Some((tail, end)) => {
                assert(seq_from(longer, i + 1, end) == Some((Seq::<MatchTree>::empty(), end)));
                assert(seq![tail] + Seq::<MatchTree>::empty() =~= Seq::<MatchTree>::empty().push(
                    tail,
                ));
            },
            None => {},
        }
    }
}

/// A sequence that matches reports one result for each of its parts.
pub proof fn law_seq_reports_every_part(parts: Seq<Grammar>, cursor: Cursor)
    ensures
        eval(Grammar::Sequence(parts), cursor) matches Some((tree, _)) ==> tree is Sequence
            && tree->Sequence_0.len() == parts.len(),
{
    lemma_seq_len(parts, 0, cursor);
}

/// `seq_from` reports one result for each part it evaluates.
proof fn lemma_seq_len(parts: Seq<Grammar>, i: nat, cursor: Cursor)
    requires
        i <= parts.len(),
    ensures
        seq_from(parts, i, cursor) matches Some((items, _)) ==> items.len() == parts.len() - i,
    decreases parts.len() - i,
{
    if i < parts.len() {
        match eval(parts[i as int], cursor) {
            Some((tree, next)) => {
                lemma_seq_len(parts, i + 1, next);
            },
            None => {},
        }
    }
}

/// A repetition matches exactly where its descriptor was accepted at least
/// the minimum number of times; with a minimum of zero it always matches.
pub proof fn law_rep_minimum(inner: Grammar, min: nat, cursor: Cursor)
    ensures
        ({
            let (items, end) = rep_items(inner, cursor);
            eval(Grammar::Rep(Box::new(inner), min), cursor) == if items.len() >= min {
                Some((MatchTree::Repetition(items), end))
            } else {
                None
            }
        }),
        eval(Grammar::Rep(Box::new(inner), 0), cursor) is Some,
{
}

/// A repetition whose descriptor does not match at the cursor, or matches
/// there without consuming anything, has no results and leaves the cursor
/// where it was.
pub proof fn law_rep_nothing_to_repeat(inner: Grammar, cursor: Cursor)
    requires
        match eval(inner, cursor) {
            Some((_, next)) => next.offset <= cursor.offset,
            None => true,
        },
    ensures
        rep_items(inner, cursor) == (Seq::<MatchTree>::empty(), cursor),
        eval(Grammar::Rep(Box::new(inner), 0), cursor) == Some(
            (MatchTree::Repetition(Seq::empty()), cursor),
        ),
{
}

/// A repetition whose descriptor matches at the cursor and consumes
/// something takes that match first and goes on behind it.
pub proof fn law_rep_takes_each_match(inner: Grammar, cursor: Cursor)
    requires
        eval(inner, cursor) matches Some((_, next)) && next.offset > cursor.offset,
    ensures
        ({
            let (tree, next) = eval(inner, cursor).unwrap();
            rep_items(inner, cursor) == (
                seq![tree] + rep_items(inner, next).0,
                rep_items(inner, next).1,
            )
        }),
{
    lemma_eval_follows(inner, cursor);
}

/// A repetition is greedy: behind it, its descriptor does not match any
/// more, or only without consuming anything.
pub proof fn law_rep_greedy(inner: Grammar, cursor: Cursor)
    ensures
        ({
            let end = rep_items(inner, cursor).1;
            match eval(inner, end) {
                Some((_, next)) => next.offset <= end.offset,
                None => true,
            }
        }),
    decreases cursor.source.len() - cursor.offset,
{
    lemma_eval_follows(inner, cursor);
    match eval(inner, cursor) {
        Some((tree, next)) => {
            if progresses(cursor, next) {
                law_rep_greedy(inner, next);
            }
        },
        None => {},
    }
}

/// A choice matches as its first matching option does: an option behind
/// which all earlier ones fail decides the result.
pub proof fn law_alt_first_match(options: Seq<Grammar>, k: int, cursor: Cursor)
    requires
        0 <= k < options.len(),
        forall|j: int| 0 <= j < k ==> eval(#[trigger] options[j], cursor) is None,
        eval(options[k], cursor) is Some,
    ensures
        eval(Grammar::Alt(options), cursor) == eval(options[k], cursor),
{
    lemma_alt_skips(options, 0, k, cursor);
}

/// A choice fails exactly where every option fails.
pub proof fn law_alt_fails_when_all_fail(options: Seq<Grammar>, cursor: Cursor)
    ensures
        eval(Grammar::Alt(options), cursor) is None <==> forall|j: int|
            0 <= j < options.len() ==> eval(#[trigger] options[j], cursor) is None,
{
    lemma_alt_none(options, 0, cursor);
}

/// Options that fail are passed over.
proof fn lemma_alt_skips(options: Seq<Grammar>, i: int, k: int, cursor: Cursor)
    requires
        0 <= i <= k < options.len(),
        forall|j: int| i <= j < k ==> eval(#[trigger] options[j], cursor) is None,
    ensures
        alt_from(options, i as nat, cursor) == alt_from(options, k as nat, cursor),
    decreases k - i,
{
    if i < k {
        assert(eval(options[i], cursor) is None);
        lemma_alt_skips(options, i + 1, k, cursor);
    }
}

/// `alt_from` fails exactly where every option it tries fails.
proof fn lemma_alt_none(options: Seq<Grammar>, i: nat, cursor: Cursor)
    ensures
        alt_from(options, i, cursor) is None <==> forall|j: int|
            i <= j < options.len() ==> eval(#[trigger] options[j], cursor) is None,
    decreases options.len() - i,
{
    if i < options.len() {
        lemma_alt_none(options, i + 1, cursor);
    }
}

/// Evaluation is repeatable: two evaluations of one descriptor at one
/// cursor report the same tree and the same cursor.
pub proof fn law_evaluation_is_repeatable(
    func: Func,
    state: State,
    first: Option<MatchState>,
    second: Option<MatchState>,
)
    requires
        reports(first, eval(func@, state@), state),
        reports(second, eval(func@, state@), state),
    ensures
        outcome(first) == outcome(second),
        first is Some <==> second is Some,
        first matches Some(a) ==> second matches Some(b) ==> a.0@ == b.0@ && a.1.string@
            == b.1.string@ && a.1.offset == b.1.offset,
{
}

} // verus!
