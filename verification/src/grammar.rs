//! Grammars as data: the combinator descriptors and their character classes.
use vstd::prelude::*;
use vstd::string::StringExecFns;

verus! {

/// Whether `regex::Regex::new` accepts `pattern`.
pub uninterp spec fn regex_compiles(pattern: Seq<char>) -> bool;

/// Whether the expression that `regex::Regex::new` compiles from `pattern`
/// matches somewhere in `text`, as `regex::Regex::is_match` reports it.
pub uninterp spec fn regex_is_match(pattern: Seq<char>, text: Seq<char>) -> bool;

/// Compiles `pattern` with `regex::Regex::new` and, where that succeeds, asks
/// `regex::Regex::is_match` of the compiled expression whether it matches
/// anywhere in `text`. `None` stands for a pattern that does not compile.
/// Nothing is claimed of which patterns compile or which texts match.
#[verifier::external_body]
fn regex_test(pattern: &str, text: &str) -> (found: Option<bool>)
    ensures
        found is Some == regex_compiles(pattern@),
        found matches Some(hit) ==> hit == regex_is_match(pattern@, text@),
{
    match regex::Regex::new(pattern) {
        Ok(expression) => Some(expression.is_match(text)),
        Err(_) => None,
    }
}

/// The regular expression that tests membership in `class`: the class
/// between square brackets.
pub open spec fn class_pattern(class: Seq<char>) -> Seq<char> {
    seq!['['] + class + seq![']']
}

/// Whether `class` is a well-formed character class, such as `0-9`.
pub open spec fn class_is_valid(class: Seq<char>) -> bool {
    regex_compiles(class_pattern(class))
}

/// Whether the grapheme cluster `grapheme` belongs to `class`.
pub open spec fn class_accepts(class: Seq<char>, grapheme: Seq<char>) -> bool {
    regex_is_match(class_pattern(class), grapheme)
}

/// Tests `grapheme` against `class`; `None` where the class is malformed.
pub fn class_test(class: &str, grapheme: &str) -> (found: Option<bool>)
    ensures
        found is Some == class_is_valid(class@),
        found matches Some(hit) ==> hit == class_accepts(class@, grapheme@),
{
    let mut pattern = String::new();
    pattern.append("[");
    pattern.append(class);
    pattern.append("]");
    proof {
        reveal_strlit("[");
        reveal_strlit("]");
        assert("["@ == seq!['[']);
        assert("]"@ == seq![']']);
        assert(pattern@ == class_pattern(class@));
    }
    regex_test(pattern.as_str(), grapheme)
}

/// The mathematical grammar: a descriptor with its texts as sequences of
/// characters and its lists as sequences.
pub enum Grammar {
    /// Matches an exact text.
    Str(Seq<char>),
    /// Matches one grapheme cluster that belongs to a character class.
    Chr(Seq<char>),
    /// Matches a grammar as often as it applies, and at least a minimum number of times.
    Rep(Box<Grammar>, nat),
    /// Matches all parts, one after another.
    Sequence(Seq<Grammar>),
    /// Matches the first option that applies.
    Alt(Seq<Grammar>),
}

impl Grammar {
    /// A grammar is well formed when every character class in it is.
    pub open spec fn wf(self) -> bool
        decreases self,
    {
        match self {
            Grammar::Str(_) => true,
            Grammar::Chr(class) => class_is_valid(class),
            Grammar::Rep(inner, _) => inner.wf(),
            Grammar::Sequence(parts) => all_wf(parts),
            Grammar::Alt(options) => all_wf(options),
        }
    }
}

/// Whether every grammar of `grammars` is well formed.
pub open spec fn all_wf(grammars: Seq<Grammar>) -> bool
    decreases grammars,
{
    forall|i: int| 0 <= i < grammars.len() ==> (#[trigger] grammars[i]).wf()
}

impl Grammar {
    /// The first malformed character class of the grammar, reading it from
    /// left to right, or `None` where it has none.
    pub open spec fn first_malformed(self) -> Option<Seq<char>>
        decreases self, 0nat,
    {
        match self {
            Grammar::Str(_) => None,
            Grammar::Chr(class) => if class_is_valid(class) {
                None
            } else {
                Some(class)
            },
            Grammar::Rep(inner, _) => inner.first_malformed(),
            Grammar::Sequence(parts) => first_malformed_from(parts, 0),
            Grammar::Alt(options) => first_malformed_from(options, 0),
        }
    }
}

/// The first malformed character class in the grammars from the `i`-th on.
pub open spec fn first_malformed_from(grammars: Seq<Grammar>, i: nat) -> Option<Seq<char>>
    decreases grammars, grammars.len() - i,
{
    if i >= grammars.len() {
        None
    } else {
        match grammars[i as int].first_malformed() {
            Some(class) => Some(class),
            None => first_malformed_from(grammars, i + 1),
        }
    }
}

/// A grammar is well formed exactly where it has no malformed character
/// class, and the class reported is malformed.
pub proof fn lemma_first_malformed(grammar: Grammar)
    ensures
        grammar.first_malformed() is None <==> grammar.wf(),
        grammar.first_malformed() matches Some(class) ==> !class_is_valid(class),
    decreases grammar, 0nat,
{
    match grammar {
        Grammar::Str(_) => {},
        Grammar::Chr(class) => {},
        Grammar::Rep(inner, _) => {
            lemma_first_malformed(*inner);
        },
        Grammar::Sequence(parts) => {
            lemma_first_malformed_from(parts, 0);
            assert(grammar.wf() == all_wf(parts));
        },
        Grammar::Alt(options) => {
            lemma_first_malformed_from(options, 0);
            assert(grammar.wf() == all_wf(options));
        },
    }
}

/// No malformed class from the `i`-th grammar on exactly where each of
/// those grammars is well formed.
pub proof fn lemma_first_malformed_from(grammars: Seq<Grammar>, i: nat)
    ensures
        first_malformed_from(grammars, i) is None <==> forall|j: int|
            i <= j < grammars.len() ==> (#[trigger] grammars[j]).wf(),
        first_malformed_from(grammars, i) matches Some(class) ==> !class_is_valid(class),
    decreases grammars, grammars.len() - i,
{
    if i < grammars.len() {
        lemma_first_malformed(grammars[i as int]);
        lemma_first_malformed_from(grammars, i + 1);
    }
}

/// Why a descriptor cannot be evaluated: it holds a character class that is
/// not well formed.
#[derive(Debug, PartialEq)]
pub struct MalformedClass {
    /// The class as it stands in the descriptor.
    pub class: String,
}

/// The error that `found` stands for, if any.
pub open spec fn class_of(found: Option<MalformedClass>) -> Option<Seq<char>> {
    match found {
        Some(error) => Some(error.class@),
        None => None,
    }
}

/// A grammar node.
#[derive(Debug)]
pub enum Func {
    /// Matches an exact text.
    Str(String),
    /// Matches one grapheme cluster that belongs to a character class.
    Chr(String),
    /// Matches a descriptor as often as it applies, and at least a minimum number of times.
    Rep(Box<Func>, usize),
    /// Matches all parts, one after another.
    Sequence(Vec<Func>),
    /// Matches the first option that applies.
    Alt(Vec<Func>),
}

impl View for Func {
    type V = Grammar;

    open spec fn view(&self) -> Grammar
        decreases self,
    {
        match self {
            Func::Str(text) => Grammar::Str(text@),
            Func::Chr(class) => Grammar::Chr(class@),
            Func::Rep(inner, min) => Grammar::Rep(Box::new((**inner).view()), *min as nat),
            Func::Sequence(parts) => Grammar::Sequence(grammars_before(*parts, parts@.len())),
            Func::Alt(options) => Grammar::Alt(grammars_before(*options, options@.len())),
        }
    }
}

/// The grammars that the first `n` descriptors of `funcs` stand for, in order.
pub open spec fn grammars_before(funcs: Vec<Func>, n: nat) -> Seq<Grammar>
    decreases funcs, n,
{
    if 0 < n <= funcs@.len() {
        grammars_before(funcs, (n - 1) as nat).push(funcs[n - 1].view())
    } else {
        Seq::empty()
    }
}

/// `grammars_before` takes the view of each descriptor in turn.
proof fn lemma_grammars_before(funcs: Vec<Func>, n: nat)
    requires
        n <= funcs@.len(),
    ensures
        grammars_before(funcs, n).len() == n,
        forall|i: int| 0 <= i < n ==> (#[trigger] grammars_before(funcs, n)[i]) == funcs@[i]@,
    decreases n,
{
    if n > 0 {
        lemma_grammars_before(funcs, (n - 1) as nat);
        assert(grammars_before(funcs, n) == grammars_before(funcs, (n - 1) as nat).push(
            funcs[n - 1].view(),
        ));
    } else {
        assert(grammars_before(funcs, n) == Seq::<Grammar>::empty());
    }
}

/// The grammars that the descriptors of `funcs` stand for, in order.
pub open spec fn grammars(funcs: Seq<Func>) -> Seq<Grammar> {
    Seq::new(funcs.len(), |i: int| funcs[i]@)
}

/// The view of a sequence or a choice is that of its descriptors, one by one.
pub proof fn lemma_view_lists(funcs: Vec<Func>)
    ensures
        Func::Sequence(funcs)@ == Grammar::Sequence(grammars(funcs@)),
        Func::Alt(funcs)@ == Grammar::Alt(grammars(funcs@)),
{
    lemma_grammars_before(funcs, funcs@.len());
    assert(grammars_before(funcs, funcs@.len()) =~= grammars(funcs@));
}

impl Func {
    /// A descriptor is well formed when every character class in it is.
    pub open spec fn wf(&self) -> bool {
        self@.wf()
    }

    /// A descriptor for one grapheme cluster of `class`, or the error where
    /// the class is malformed.
    pub fn chr(class: &str) -> (built: Result<Func, MalformedClass>)
        ensures
            match built {
                Ok(func) => class_is_valid(class@) && func@ == Grammar::Chr(class@),
                Err(error) => !class_is_valid(class@) && error.class@ == class@,
            },
    {
        match class_test(class, "") {
            Some(_) => Ok(Func::Chr(class.to_owned())),
            None => Err(MalformedClass { class: class.to_owned() }),
        }
    }

    /// Looks for a malformed character class in the descriptor, reading it
    /// from left to right, and reports the first one.
    pub fn validate(&self) -> (found: Option<MalformedClass>)
        ensures
            class_of(found) == self@.first_malformed(),
            found is None <==> self.wf(),
        decreases self, 0nat,
    {
        proof {
            lemma_first_malformed(self@);
        }
        match self {
            Func::Str(_) => None,
            Func::Chr(class) => match class_test(class.as_str(), "") {
                Some(_) => None,
                None => Some(MalformedClass { class: class.clone() }),
            },
            Func::Rep(inner, _) => inner.validate(),
            Func::Sequence(parts) => {
                proof {
                    lemma_view_lists(*parts);
                }
                validate_all(parts)
            },
            Func::Alt(options) => {
                proof {
                    lemma_view_lists(*options);
                }
                validate_all(options)
            },
        }
    }
}

/// Looks for a malformed character class in the descriptors of `funcs`, in
/// order, and reports the first one.
fn validate_all(funcs: &Vec<Func>) -> (found: Option<MalformedClass>)
    ensures
        class_of(found) == first_malformed_from(grammars(funcs@), 0),
    decreases funcs, 1nat,
{
    let mut i: usize = 0;
    while i < funcs.len()
        invariant
            i <= funcs.len(),
            first_malformed_from(grammars(funcs@), 0) == first_malformed_from(
                grammars(funcs@),
                i as nat,
            ),
        decreases funcs.len() - i,
    {
        let found = funcs[i].validate();
        if found.is_some() {
            return found;
        }
        i += 1;
    }
    None
}

impl Clone for Func {
    fn clone(&self) -> (copy: Func)
        ensures
            copy@ == self@,
        decreases self,
    {
        match self {
            Func::Str(text) => Func::Str(text.clone()),
            Func::Chr(class) => Func::Chr(class.clone()),
            Func::Rep(inner, min) => Func::Rep(Box::new((**inner).clone()), *min),
            Func::Sequence(parts) => {
                let copies = clone_all(parts);
                proof {
                    lemma_view_lists(*parts);
                    lemma_view_lists(copies);
                }
                Func::Sequence(copies)
            },
            Func::Alt(options) => {
                let copies = clone_all(options);
                proof {
                    lemma_view_lists(*options);
                    lemma_view_lists(copies);
                }
                Func::Alt(copies)
            },
        }
    }
}

/// A copy of each descriptor of `funcs`, in order.
fn clone_all(funcs: &Vec<Func>) -> (copies: Vec<Func>)
    ensures
        grammars(copies@) == grammars(funcs@),
    decreases funcs,
{
    let mut copies: Vec<Func> = Vec::new();
    let mut i: usize = 0;
    while i < funcs.len()
        invariant
            i <= funcs.len(),
            copies.len() == i,
            forall|j: int| 0 <= j < i ==> (#[trigger] copies[j])@ == funcs[j]@,
        decreases funcs.len() - i,
    {
        copies.push(funcs[i].clone());
        i += 1;
    }
    assert(grammars(copies@) =~= grammars(funcs@));
    copies
}

} // verus!
