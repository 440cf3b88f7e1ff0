//! The cursor: a text and a position in it, counted in grapheme clusters.
use vstd::prelude::*;
use vstd::string::StringExecFns;

verus! {

/// The extended grapheme clusters of `text`, in order, as
/// `unicode_segmentation::UnicodeSegmentation::graphemes(text, true)` yields them.
pub uninterp spec fn grapheme_clusters(text: Seq<char>) -> Seq<Seq<char>>;

/// Calls `unicode_segmentation::UnicodeSegmentation::graphemes` in extended
/// mode and copies each cluster it yields into a string of its own. The
/// contract claims that what comes back is the clusters of `text`, in
/// order, and that they are consecutive slices of `text` that cover it: joined,
/// they give `text` back. Where the cluster boundaries lie is not stated.
#[verifier::external_body]
fn split_graphemes(text: &str) -> (parts: Vec<String>)
    ensures
        parts.deep_view() == grapheme_clusters(text@),
        parts.deep_view().flatten() == text@,
{
    let clusters = unicode_segmentation::UnicodeSegmentation::graphemes(text, true);
    clusters.map(|cluster| cluster.to_string()).collect()
}

/// Splits `text` into its extended grapheme clusters. Nothing is trimmed or
/// normalised: the clusters, joined, are `text`.
pub fn graphemes(text: &str) -> (parts: Vec<String>)
    ensures
        parts.deep_view() == grapheme_clusters(text@),
        parts.deep_view().flatten() == text@,
{
    split_graphemes(text)
}

/// The mathematical cursor: the grapheme clusters of the whole input and the
/// number of clusters already consumed.
pub struct Cursor {
    pub source: Seq<Seq<char>>,
    pub offset: nat,
}

impl Cursor {
    /// A cursor is valid when its position lies within the input or just behind it.
    pub open spec fn wf(self) -> bool {
        self.offset <= self.source.len()
    }

    /// The next `n` clusters joined into one text, or `None` where fewer than
    /// `n` clusters are left.
    pub open spec fn peek(self, n: nat) -> Option<Seq<char>> {
        if self.offset + n <= self.source.len() {
            Some(self.source.subrange(self.offset as int, (self.offset + n) as int).flatten())
        } else {
            None
        }
    }

    /// The cursor `n` clusters further on, over the same input.
    pub open spec fn advance(self, n: nat) -> Cursor {
        Cursor { source: self.source, offset: self.offset + n }
    }

    /// Whether every cluster of the input has been consumed.
    pub open spec fn is_complete(self) -> bool {
        self.offset == self.source.len()
    }
}

/// The text that `chunk` holds, if any.
pub open spec fn text_of(chunk: Option<String>) -> Option<Seq<char>> {
    match chunk {
        Some(text) => Some(text@),
        None => None,
    }
}

/// The `n` clusters of `parts` from position `offset` on, joined into one
/// string, or `None` where fewer than `n` clusters stand there.
pub fn lookahead(parts: &Vec<String>, offset: usize, n: usize) -> (chunk: Option<String>)
    ensures
        text_of(chunk) == (Cursor { source: parts.deep_view(), offset: offset as nat }).peek(
            n as nat,
        ),
{
    if offset > parts.len() || n > parts.len() - offset {
        return None;
    }
    let ghost source = parts.deep_view();
    let mut text = String::new();
    let mut i: usize = 0;
    proof {
        assert(source.subrange(offset as int, offset as int).flatten() =~= Seq::<char>::empty());
    }
    while i < n
        invariant
            i <= n,
            source == parts.deep_view(),
            offset + n <= parts.len(),
            text@ == source.subrange(offset as int, offset + i).flatten(),
        decreases n - i,
    {
        proof {
            let taken = source.subrange(offset as int, offset + i);
            assert(source.subrange(offset as int, offset + i + 1) == taken.push(
                parts[offset + i]@,
            ));
            taken.lemma_flatten_push(parts[offset + i]@);
        }
        text.append(parts[offset + i].as_str());
        i += 1;
    }
    Some(text)
}

/// An immutable snapshot of a position in a text. The position counts
/// grapheme clusters, not bytes or code points.
#[derive(Debug, PartialEq)]
pub struct State {
    pub string: String,
    pub offset: usize,
}

impl View for State {
    type V = Cursor;

    open spec fn view(&self) -> Cursor {
        Cursor { source: grapheme_clusters(self.string@), offset: self.offset as nat }
    }
}

impl Clone for State {
    fn clone(&self) -> (copy: State)
        ensures
            copy == *self,
    {
        State { string: self.string.clone(), offset: self.offset }
    }
}

impl State {
    /// Whether the position lies within the text or just behind it.
    pub open spec fn wf(&self) -> bool {
        self@.wf()
    }

    /// A cursor over `string` at position `offset`.
    pub fn new(string: &str, offset: usize) -> (state: State)
        ensures
            state.string@ == string@,
            state.offset == offset,
    {
        State { string: string.to_owned(), offset }
    }

    /// The next `n` grapheme clusters as one string, or `None` where the
    /// text has fewer than `n` clusters left. A text never has more
    /// clusters than a `usize` can count.
    pub fn peek(&self, n: usize) -> (chunk: Option<String>)
        ensures
            text_of(chunk) == self@.peek(n as nat),
            self@.source.len() <= usize::MAX,
    {
        let parts = split_graphemes(self.string.as_str());
        assert(parts.deep_view().len() == parts.len());
        lookahead(&parts, self.offset, n)
    }

    /// The cursor `n` grapheme clusters further on, over the same text.
    /// The new position must not lie behind the end of the text, which a
    /// successful `peek(n)` shows.
    pub fn read(&self, n: usize) -> (state: State)
        requires
            self.offset + n <= self@.source.len(),
            self.offset + n <= usize::MAX,
        ensures
            state.string@ == self.string@,
            state@ == self@.advance(n as nat),
            state.wf(),
    {
        State { string: self.string.clone(), offset: self.offset + n }
    }

    /// Whether the whole text has been consumed.
    pub fn is_complete(&self) -> (done: bool)
        ensures
            done == self@.is_complete(),
    {
        let parts = split_graphemes(self.string.as_str());
        assert(parts.deep_view().len() == parts.len());
        self.offset == parts.len()
    }
}

} // verus!
