//! What a grammar matches: evaluation as a mathematical function of the
//! grammar and the cursor.
use vstd::prelude::*;
use crate::cursor::Cursor;
use crate::grammar::{class_accepts, Grammar};
use crate::cursor::grapheme_clusters;
use crate::tree::MatchTree;

verus! {

/// The result of evaluating `grammar` at `cursor`: the match tree and the
/// cursor behind the match, or `None` where the grammar does not match.
pub open spec fn eval(grammar: Grammar, cursor: Cursor) -> Option<(MatchTree, Cursor)>
    decreases grammar, 0nat, 0nat,
{
    match grammar {
        Grammar::Str(text) => eval_str(text, cursor),
        Grammar::Chr(class) => eval_chr(class, cursor),
        Grammar::Rep(inner, min) => eval_rep(*inner, min, cursor),
        Grammar::Sequence(parts) => eval_seq(parts, cursor),
        Grammar::Alt(options) => eval_alt(options, cursor),
    }
}

/// A literal matches where the next clusters, as many as `text` has, join to `text`.
pub open spec fn eval_str(text: Seq<char>, cursor: Cursor) -> Option<(MatchTree, Cursor)> {
    let n = grapheme_clusters(text).len();
    if cursor.peek(n) == Some(text) {
        Some((MatchTree::Literal(text), cursor.advance(n)))
    } else {
        None
    }
}

/// A character class matches the next cluster where the class accepts it.
pub open spec fn eval_chr(class: Seq<char>, cursor: Cursor) -> Option<(MatchTree, Cursor)> {
    match cursor.peek(1) {
        Some(grapheme) => if class_accepts(class, grapheme) {
            Some((MatchTree::Char(grapheme), cursor.advance(1)))
        } else {
            None
        },
        None => None,
    }
}

/// Whether an application of a repeated grammar that led from `before` to
/// `after` is accepted: it has to consume at least one cluster.
pub open spec fn progresses(before: Cursor, after: Cursor) -> bool {
    before.offset < after.offset <= before.source.len()
}

/// The accepted applications of `inner` from `cursor` on, each starting
/// where the one before ended, and the cursor behind the last of them. The
/// repetition ends at the first application that fails or consumes nothing.
pub open spec fn rep_items(inner: Grammar, cursor: Cursor) -> (Seq<MatchTree>, Cursor)
    decreases inner, 1nat, cursor.source.len() - cursor.offset,
{
    match eval(inner, cursor) {
        Some((tree, next)) => if progresses(cursor, next) && next.source == cursor.source {
            let (rest, end) = rep_items(inner, next);
            (seq![tree] + rest, end)
        } else {
            (Seq::empty(), cursor)
        },
        None => (Seq::empty(), cursor),
    }
}

/// A repetition matches where `inner` was accepted at least `min` times.
pub open spec fn eval_rep(inner: Grammar, min: nat, cursor: Cursor) -> Option<(MatchTree, Cursor)>
    decreases inner, 2nat, 0nat,
{
    let (items, end) = rep_items(inner, cursor);
    if items.len() >= min {
        Some((MatchTree::Repetition(items), end))
    } else {
        None
    }
}

/// The results of the parts from the `i`-th on, each evaluated where the
/// one before ended, or `None` where one of them fails.
pub open spec fn seq_from(parts: Seq<Grammar>, i: nat, cursor: Cursor) -> Option<
    (Seq<MatchTree>, Cursor),
>
    decreases parts, 1nat, parts.len() - i,
{
    if i >= parts.len() {
        Some((Seq::empty(), cursor))
    } else {
        match eval(parts[i as int], cursor) {
            Some((tree, next)) => match seq_from(parts, i + 1, next) {
                Some((rest, end)) => Some((seq![tree] + rest, end)),
                None => None,
            },
            None => None,
        }
    }
}

/// A sequence matches where all its parts match, one after another.
pub open spec fn eval_seq(parts: Seq<Grammar>, cursor: Cursor) -> Option<(MatchTree, Cursor)>
    decreases parts, 2nat, 0nat,
{
    match seq_from(parts, 0, cursor) {
        Some((items, end)) => Some((MatchTree::Sequence(items), end)),
        None => None,
    }
}

/// The result of the first option from the `i`-th on that matches at `cursor`.
pub open spec fn alt_from(options: Seq<Grammar>, i: nat, cursor: Cursor) -> Option<
    (MatchTree, Cursor),
>
    decreases options, 1nat, options.len() - i,
{
    if i >= options.len() {
        None
    } else {
        match eval(options[i as int], cursor) {
            Some(found) => Some(found),
            None => alt_from(options, i + 1, cursor),
        }
    }
}

/// A choice matches as its first matching option does.
pub open spec fn eval_alt(options: Seq<Grammar>, cursor: Cursor) -> Option<(MatchTree, Cursor)>
    decreases options, 2nat, 0nat,
{
    alt_from(options, 0, cursor)
}

/// How the cursor behind a match relates to the cursor before it: the same
/// input, and a position that either stayed or moved forward within the input.
pub open spec fn follows(before: Cursor, after: Cursor) -> bool {
    &&& after.source == before.source
    &&& after.offset == before.offset || progresses(before, after)
}

/// A match never moves the cursor backwards or out of the input, and never
/// changes the input.
pub proof fn lemma_eval_follows(grammar: Grammar, cursor: Cursor)
    ensures
        eval(grammar, cursor) matches Some((_, next)) ==> follows(cursor, next),
    decreases grammar, 0nat, 0nat,
{
    match grammar {
        Grammar::Str(text) => {},
        Grammar::Chr(class) => {},
        Grammar::Rep(inner, min) => {
            lemma_rep_follows(*inner, cursor);
        },
        Grammar::Sequence(parts) => {
            lemma_seq_follows(parts, 0, cursor);
        },
        Grammar::Alt(options) => {
            lemma_alt_follows(options, 0, cursor);
        },
    }
}

/// The cursor behind a repetition follows the cursor before it.
pub proof fn lemma_rep_follows(inner: Grammar, cursor: Cursor)
    ensures
        follows(cursor, rep_items(inner, cursor).1),
    decreases inner, 1nat, cursor.source.len() - cursor.offset,
{
    match eval(inner, cursor) {
        Some((tree, next)) => {
            if progresses(cursor, next) && next.source == cursor.source {
                lemma_rep_follows(inner, next);
            }
        },
        None => {},
    }
}

/// The cursor behind the parts of a sequence follows the cursor before them.
pub proof fn lemma_seq_follows(parts: Seq<Grammar>, i: nat, cursor: Cursor)
    ensures
        seq_from(parts, i, cursor) matches Some((_, end)) ==> follows(cursor, end),
    decreases parts, 1nat, parts.len() - i,
{
    if i < parts.len() {
        lemma_eval_follows(parts[i as int], cursor);
        match eval(parts[i as int], cursor) {
            Some((tree, next)) => {
                lemma_seq_follows(parts, i + 1, next);
            },
            None => {},
        }
    }
}

/// The cursor behind a choice follows the cursor before it.
pub proof fn lemma_alt_follows(options: Seq<Grammar>, i: nat, cursor: Cursor)
    ensures
        alt_from(options, i, cursor) matches Some((_, next)) ==> follows(cursor, next),
    decreases options, 1nat, options.len() - i,
{
    if i < options.len() {
        lemma_eval_follows(options[i as int], cursor);
        lemma_alt_follows(options, i + 1, cursor);
    }
}

} // verus!
