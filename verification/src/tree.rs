//! Match trees: what a successful evaluation reports.
use vstd::prelude::*;
use crate::cursor::{Cursor, State};

verus! {

/// The mathematical match tree.
pub enum MatchTree {
    /// An exact text that was consumed.
    Literal(Seq<char>),
    /// One grapheme cluster that passed a character-class test.
    Char(Seq<char>),
    /// The results of the parts of a sequence, one for each part, in order.
    Sequence(Seq<MatchTree>),
    /// The results of the accepted applications of a repeated descriptor.
    Repetition(Seq<MatchTree>),
}

/// The result of a successful match.
#[derive(Debug, PartialEq)]
pub enum Match {
    /// An exact text that was consumed.
    Str(String),
    /// One grapheme cluster that passed a character-class test.
    Chr(String),
    /// The results of the parts of a sequence, one for each part, in order.
    Sequence(Vec<Match>),
    /// The results of the accepted applications of a repeated descriptor.
    Rep(Vec<Match>),
}

impl View for Match {
    type V = MatchTree;

    open spec fn view(&self) -> MatchTree
        decreases self,
    {
        match self {
            Match::Str(text) => MatchTree::Literal(text@),
            Match::Chr(text) => MatchTree::Char(text@),
            Match::Sequence(items) => MatchTree::Sequence(trees_before(*items, items@.len())),
            Match::Rep(items) => MatchTree::Repetition(trees_before(*items, items@.len())),
        }
    }
}

/// The trees that the first `n` results of `items` stand for, in order.
pub open spec fn trees_before(items: Vec<Match>, n: nat) -> Seq<MatchTree>
    decreases items, n,
{
    if 0 < n <= items@.len() {
        trees_before(items, (n - 1) as nat).push(items[n - 1].view())
    } else {
        Seq::empty()
    }
}

/// `trees_before` takes the view of each result in turn.
proof fn lemma_trees_before(items: Vec<Match>, n: nat)
    requires
        n <= items@.len(),
    ensures
        trees_before(items, n).len() == n,
        forall|i: int| 0 <= i < n ==> (#[trigger] trees_before(items, n)[i]) == items@[i]@,
    decreases n,
{
    if n > 0 {
        lemma_trees_before(items, (n - 1) as nat);
        assert(trees_before(items, n) == trees_before(items, (n - 1) as nat).push(
            items[n - 1].view(),
        ));
    } else {
        assert(trees_before(items, n) == Seq::<MatchTree>::empty());
    }
}

/// The trees that the results of `items` stand for, in order.
pub open spec fn trees(items: Seq<Match>) -> Seq<MatchTree> {
    Seq::new(items.len(), |i: int| items[i]@)
}

/// The view of a sequence or a repetition is that of its results, one by one.
pub proof fn lemma_view_items(items: Vec<Match>)
    ensures
        Match::Sequence(items)@ == MatchTree::Sequence(trees(items@)),
        Match::Rep(items)@ == MatchTree::Repetition(trees(items@)),
{
    lemma_trees_before(items, items@.len());
    assert(trees_before(items, items@.len()) =~= trees(items@));
}

/// A match tree together with the cursor behind what was matched.
#[derive(Debug, PartialEq)]
pub struct MatchState(pub Match, pub State);

impl View for MatchState {
    type V = (MatchTree, Cursor);

    open spec fn view(&self) -> (MatchTree, Cursor) {
        (self.0@, self.1@)
    }
}

} // verus!
