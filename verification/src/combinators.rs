//! The evaluator: one recursive function over the descriptor, and the five
//! combinators it dispatches to.
use vstd::prelude::*;
use crate::cursor::{graphemes, Cursor, State};
use crate::grammar::{
    all_wf, class_is_valid, class_test, grammars, lemma_view_lists, Func, MalformedClass,
};
use crate::semantics::{
    alt_from, eval, eval_alt, eval_chr, eval_rep, eval_seq, eval_str, follows, rep_items,
    seq_from,
};
use crate::tree::{lemma_view_items, trees, Match, MatchState, MatchTree};

verus! {

/// What `found` stands for: the match tree and the cursor behind the match.
pub open spec fn outcome(found: Option<MatchState>) -> Option<(MatchTree, Cursor)> {
    match found {
        Some(result) => Some(result@),
        None => None,
    }
}

/// Whether `found` reports `expected` for an evaluation that started at
/// `state`: the same tree and cursor, over the very text of `state`, at a
/// position that stayed or moved forward within the text.
pub open spec fn reports(
    found: Option<MatchState>,
    expected: Option<(MatchTree, Cursor)>,
    state: State,
) -> bool {
    &&& outcome(found) == expected
    &&& found matches Some(result) ==> result.1.string@ == state.string@ && follows(
        state@,
        result.1@,
    )
}

/// The combinators of the engine.
pub struct Addition;

impl Addition {
    /// Matches the exact text `s` at `state`.
    pub fn str_(s: &str, state: &State) -> (found: Option<MatchState>)
        ensures
            reports(found, eval_str(s@, state@), *state),
    {
        let n = graphemes(s).len();
        match state.peek(n) {
            Some(chunk) => {
                if chunk == s.to_owned() {
                    Some(MatchState(Match::Str(chunk), state.read(n)))
                } else {
                    None
                }
            },
            None => None,
        }
    }

    /// Matches one grapheme cluster of the character class `pattern` at `state`.
    pub fn chr(pattern: &str, state: &State) -> (found: Option<MatchState>)
        requires
            class_is_valid(pattern@),
        ensures
            reports(found, eval_chr(pattern@, state@), *state),
    {
        match state.peek(1) {
            Some(chunk) => match class_test(pattern, chunk.as_str()) {
                Some(true) => Some(MatchState(Match::Chr(chunk), state.read(1))),
                _ => None,
            },
            None => None,
        }
    }

    /// Matches every descriptor of `combinators` in turn, each where the one
    /// before ended; fails as a whole where one of them fails.
    pub fn seq(combinators: &Vec<Func>, state: &State) -> (found: Option<MatchState>)
        requires
            all_wf(grammars(combinators@)),
        ensures
            reports(found, eval_seq(grammars(combinators@), state@), *state),
        decreases combinators, 1nat,
    {
        let ghost parts = grammars(combinators@);
        let mut matches: Vec<Match> = Vec::new();
        let mut current = state.clone();
        let mut i: usize = 0;
        while i < combinators.len()
            invariant
                i <= combinators.len(),
                parts == grammars(combinators@),
                all_wf(parts),
                current.string@ == state.string@,
                follows(state@, current@),
                seq_from(parts, 0, state@) == match seq_from(parts, i as nat, current@) {
                    Some((rest, end)) => Some((trees(matches@) + rest, end)),
                    None => None,
                },
            decreases combinators.len() - i,
        {
            assert(parts[i as int].wf());
            let ghost before = trees(matches@);
            match evaluate(&combinators[i], &current) {
                Some(MatchState(node, next)) => {
                    matches.push(node);
                    current = next;
                    proof {
                        assert(trees(matches@) =~= before.push(node@));
                        match seq_from(parts, i as nat + 1, current@) {
                            Some((rest, end)) => {
                                assert(before + (seq![node@] + rest) =~= trees(matches@) + rest);
                            },
                            None => {},
                        }
                    }
                },
                None => {
                    return None;
                },
            }
            i += 1;
        }
        proof {
            assert(trees(matches@) + Seq::<MatchTree>::empty() =~= trees(matches@));
            lemma_view_items(matches);
        }
        Some(MatchState(Match::Sequence(matches), current))
    }

    /// Matches `combinator` as often as it applies, each time where the
    /// match before ended, and succeeds where it applied at least `n` times.
    /// An application that consumes nothing ends the repetition and is not counted.
    pub fn rep(combinator: &Func, n: usize, state: &State) -> (found: Option<MatchState>)
        requires
            combinator.wf(),
        ensures
            reports(found, eval_rep(combinator@, n as nat, state@), *state),
        decreases combinator, 1nat,
    {
        let ghost inner = combinator@;
        let mut matches: Vec<Match> = Vec::new();
        let mut current = state.clone();
        loop
            invariant_except_break
                rep_items(inner, state@) == (
                    trees(matches@) + rep_items(inner, current@).0,
                    rep_items(inner, current@).1,
                ),
            invariant
                inner == combinator@,
                inner.wf(),
                current.string@ == state.string@,
                follows(state@, current@),
            ensures
                rep_items(inner, state@) == (trees(matches@), current@),
            decreases current@.source.len() - current.offset,
        {
            let ghost before = trees(matches@);
            match evaluate(combinator, &current) {
                Some(MatchState(node, next)) => {
                    if next.offset > current.offset {
                        matches.push(node);
                        current = next;
                        proof {
                            assert(trees(matches@) =~= before.push(node@));
                            assert(before + (seq![node@] + rep_items(inner, current@).0)
                                =~= trees(matches@) + rep_items(inner, current@).0);
                        }
                    } else {
                        assert(before + Seq::<MatchTree>::empty() =~= before);
                        break;
                    }
                },
                None => {
                    assert(before + Seq::<MatchTree>::empty() =~= before);
                    break;
                },
            }
        }
        if matches.len() >= n {
            proof {
                lemma_view_items(matches);
            }
            Some(MatchState(Match::Rep(matches), current))
        } else {
            None
        }
    }

    /// Matches the first descriptor of `parsers` that applies at `state`.
    pub fn alt(parsers: &Vec<Func>, state: &State) -> (found: Option<MatchState>)
        requires
            all_wf(grammars(parsers@)),
        ensures
            reports(found, eval_alt(grammars(parsers@), state@), *state),
        decreases parsers, 1nat,
    {
        let ghost options = grammars(parsers@);
        let mut i: usize = 0;
        while i < parsers.len()
            invariant
                i <= parsers.len(),
                options == grammars(parsers@),
                all_wf(options),
                alt_from(options, 0, state@) == alt_from(options, i as nat, state@),
            decreases parsers.len() - i,
        {
            assert(options[i as int].wf());
            let attempt = evaluate(&parsers[i], state);
            if attempt.is_some() {
                return attempt;
            }
            i += 1;
        }
        None
    }
}

/// Evaluates `func` at `state`: the match tree and the cursor behind the
/// match, or `None` where the descriptor does not match there.
pub fn evaluate(func: &Func, state: &State) -> (found: Option<MatchState>)
    requires
        func.wf(),
    ensures
        reports(found, eval(func@, state@), *state),
    decreases func, 0nat,
{
    match func {
        Func::Str(text) => Addition::str_(text.as_str(), state),
        Func::Chr(class) => Addition::chr(class.as_str(), state),
        Func::Rep(inner, min) => Addition::rep(inner, *min, state),
        Func::Sequence(parts) => {
            proof {
                lemma_view_lists(*parts);
            }
            Addition::seq(parts, state)
        },
        Func::Alt(options) => {
            proof {
                lemma_view_lists(*options);
            }
            Addition::alt(options, state)
        },
    }
}

/// Validates the character classes of `func` and, where all are well
/// formed, evaluates it at `state`; otherwise reports the first malformed class.
pub fn try_evaluate(func: &Func, state: &State) -> (outcome: Result<
    Option<MatchState>,
    MalformedClass,
>)
    ensures
        match outcome {
            Ok(found) => func.wf() && reports(found, eval(func@, state@), *state),
            Err(error) => !func.wf() && func@.first_malformed() == Some(error.class@),
        },
{
    match func.validate() {
        Some(error) => Err(error),
        None => Ok(evaluate(func, state)),
    }
}

} // verus!
