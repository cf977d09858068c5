//! The state of a single-line text input and the editing operations on it,
//! with the cursor counted in grapheme clusters.
use vstd::prelude::*;
use crate::unicode::{concat, grapheme_clusters, graphemes, string_views};

verus! {

/// `s` lower-cased, as `str::to_lowercase` computes it.
pub uninterp spec fn lowercase(s: Seq<char>) -> Seq<char>;

/// `str::to_lowercase`: the lower-case form of `s`. The contract names the
/// result, which depends on the text alone.
#[verifier::external_body]
pub(crate) fn to_lowercase(s: &str) -> (r: String)
    ensures
        r@ == lowercase(s@),
{
    s.to_lowercase()
}

/// The state of a single-line text input.
pub struct TextInputState {
    /// The text typed so far.
    pub value: String,
    /// Cursor position, in grapheme clusters from the start.
    pub cursor: usize,
    /// Shown, dimmed, while the value is empty.
    pub placeholder: String,
    /// Longest value accepted, in grapheme clusters.
    pub max_length: Option<usize>,
    /// Draw every cluster as a bullet.
    pub masked: bool,
    /// Completions offered for the typed prefix.
    pub suggestions: Vec<String>,
    /// The completion dropdown is open.
    pub show_suggestions: bool,
    /// Highlighted completion.
    pub suggestion_index: usize,
    /// Error shown below the input.
    pub validation_error: Option<String>,
}

/// Whether `p` is a prefix of `s`.
pub open spec fn is_prefix(p: Seq<char>, s: Seq<char>) -> bool {
    p.len() <= s.len() && s.take(p.len() as int) == p
}

/// The suggestions (views) that start with `value`, ignoring case; none
/// for an empty value.
pub open spec fn matching(suggestions: Seq<Seq<char>>, value: Seq<char>) -> Seq<Seq<char>>
    decreases suggestions.len(),
{
    if suggestions.len() == 0 || value.len() == 0 {
        Seq::empty()
    } else {
        let prev = matching(suggestions.drop_last(), value);
        if is_prefix(lowercase(value), lowercase(suggestions.last())) {
            prev.push(suggestions.last())
        } else {
            prev
        }
    }
}

/// Number of grapheme clusters in `s`.
pub open spec fn cluster_count(s: Seq<char>) -> nat {
    grapheme_clusters(s).len()
}

/// The first `k` clusters of `s`, joined.
pub open spec fn clusters_before(s: Seq<char>, k: int) -> Seq<char> {
    concat(grapheme_clusters(s).take(k))
}

/// The clusters of `s` from `k` on, joined.
pub open spec fn clusters_from(s: Seq<char>, k: int) -> Seq<char> {
    concat(grapheme_clusters(s).skip(k))
}

fn starts_with(p: &str, s: &str) -> (r: bool)
    ensures
        r == is_prefix(p@, s@),
{
    let pn = p.unicode_len();
    let sn = s.unicode_len();
    if pn > sn {
        return false;
    }
    let mut i: usize = 0;
    while i < pn
        invariant
            pn == p@.len(),
            sn == s@.len(),
            pn <= sn,
            i <= pn,
            forall|j: int| 0 <= j < i ==> s@[j] == p@[j],
        decreases pn - i,
    {
        if p.get_char(i) != s.get_char(i) {
            return false;
        }
        i = i + 1;
    }
    assert(s@.take(pn as int) =~= p@);
    true
}

/// Join `parts[lo..hi]`.
fn join_range(parts: &Vec<String>, lo: usize, hi: usize) -> (r: String)
    requires
        lo <= hi <= parts@.len(),
    ensures
        r@ == concat(string_views(parts@).subrange(lo as int, hi as int)),
{
    let mut out = String::new();
    let mut k = lo;
    while k < hi
        invariant
            lo <= k <= hi,
            hi <= parts@.len(),
            out@ == concat(string_views(parts@).subrange(lo as int, k as int)),
        decreases hi - k,
    {
        out.append(parts[k].as_str());
        proof {
            assert(string_views(parts@).subrange(lo as int, k + 1).drop_last()
                == string_views(parts@).subrange(lo as int, k as int));
        }
        k = k + 1;
    }
    out
}

/// The clusters of `s` and their number.
fn clusters_of(s: &str) -> (r: Vec<String>)
    ensures
        string_views(r@) == grapheme_clusters(s@),
{
    let r = graphemes(s);
    assert(string_views(r@) =~= grapheme_clusters(s@));
    r
}

/// Number of grapheme clusters of `s`.
pub fn grapheme_count(s: &str) -> (n: usize)
    ensures
        n == cluster_count(s@),
{
    let r = graphemes(s);
    r.len()
}

/// `value` with `ins` inserted before cluster `at`, and the cursor right
/// after the insertion: the clusters of everything up to it.
pub open spec fn inserted(value: Seq<char>, at: int, ins: Seq<char>) -> (Seq<char>, nat) {
    let head = clusters_before(value, at) + ins;
    (head + clusters_from(value, at), cluster_count(head))
}

/// `value` without cluster `at`, and the cursor where it was.
pub open spec fn removed(value: Seq<char>, at: int) -> (Seq<char>, nat) {
    let head = clusters_before(value, at);
    (head + clusters_from(value, at + 1), cluster_count(head))
}

/// Insert `ins` before cluster `at` of `value`; the new value and cursor.
pub(crate) fn insert_at(value: &str, at: usize, ins: &str) -> (r: (String, usize))
    requires
        at <= cluster_count(value@),
    ensures
        r.0@ == inserted(value@, at as int, ins@).0,
        r.1 == inserted(value@, at as int, ins@).1,
{
    let parts = clusters_of(value);
    let mut head = join_range(&parts, 0, at);
    head.append(ins);
    let cursor = grapheme_count(head.as_str());
    let tail = join_range(&parts, at, parts.len());
    let mut out = head;
    out.append(tail.as_str());
    proof {
        assert(string_views(parts@).subrange(0, at as int) == grapheme_clusters(value@).take(at as int));
        assert(string_views(parts@).subrange(at as int, parts@.len() as int) == grapheme_clusters(value@).skip(at as int));
    }
    (out, cursor)
}

/// Remove cluster `at` of `value`; the new value and cursor.
pub(crate) fn remove_at(value: &str, at: usize) -> (r: (String, usize))
    requires
        at < cluster_count(value@),
    ensures
        r.0@ == removed(value@, at as int).0,
        r.1 == removed(value@, at as int).1,
{
    let parts = clusters_of(value);
    let head = join_range(&parts, 0, at);
    let cursor = grapheme_count(head.as_str());
    let tail = join_range(&parts, at + 1, parts.len());
    let mut out = head;
    out.append(tail.as_str());
    proof {
        assert(string_views(parts@).subrange(0, at as int) == grapheme_clusters(value@).take(at as int));
        assert(string_views(parts@).subrange(at + 1, parts@.len() as int) == grapheme_clusters(value@).skip(at + 1));
    }
    (out, cursor)
}

impl TextInputState {
    /// An empty input with no placeholder.
    pub fn new() -> (s: TextInputState)
        ensures
            s.value@ == Seq::<char>::empty(),
            s.cursor == 0,
            s.placeholder@ == Seq::<char>::empty(),
            s.max_length is None,
            !s.masked,
            s.suggestions@.len() == 0,
            !s.show_suggestions,
            s.suggestion_index == 0,
            s.validation_error is None,
    {
        TextInputState {
            value: String::new(),
            cursor: 0,
            placeholder: String::new(),
            max_length: None,
            masked: false,
            suggestions: Vec::new(),
            show_suggestions: false,
            suggestion_index: 0,
            validation_error: None,
        }
    }

    /// An empty input showing `placeholder`.
    pub fn with_placeholder(placeholder: &str) -> (s: TextInputState)
        ensures
            s.value@ == Seq::<char>::empty(),
            s.cursor == 0,
            s.placeholder@ == placeholder@,
            s.max_length is None,
            !s.masked,
            s.suggestions@.len() == 0,
            !s.show_suggestions,
            s.suggestion_index == 0,
            s.validation_error is None,
    {
        let mut s = TextInputState::new();
        s.placeholder = placeholder.to_owned();
        s
    }

    /// The suggestions as character sequences.
    pub open spec fn suggestion_views(&self) -> Seq<Seq<char>> {
        string_views(self.suggestions@)
    }

    /// Replace the completions; the dropdown closes.
    pub fn set_suggestions(&mut self, suggestions: Vec<String>)
        ensures
            final(self).suggestions@ == suggestions@,
            !final(self).show_suggestions,
            final(self).suggestion_index == 0,
            final(self).value == old(self).value,
            final(self).cursor == old(self).cursor,
            final(self).placeholder == old(self).placeholder,
            final(self).max_length == old(self).max_length,
            final(self).masked == old(self).masked,
            final(self).validation_error == old(self).validation_error,
    {
        self.suggestions = suggestions;
        self.show_suggestions = false;
        self.suggestion_index = 0;
    }

    /// The completions that start with the value, ignoring case, in order;
    /// none while the value is empty.
    pub fn matched_suggestions(&self) -> (r: Vec<&str>)
        ensures
            r@.len() == matching(self.suggestion_views(), self.value@).len(),
            forall|k: int| 0 <= k < r@.len() ==> (#[trigger] r@[k])@ == matching(self.suggestion_views(), self.value@)[k],
    {
        let mut out: Vec<&str> = Vec::new();
        if self.value.unicode_len() == 0 {
            return out;
        }
        let key = to_lowercase(self.value.as_str());
        let n = self.suggestions.len();
        let mut k: usize = 0;
        while k < n
            invariant
                n == self.suggestions@.len(),
                k <= n,
                self.value@.len() > 0,
                key@ == lowercase(self.value@),
                out@.len() == matching(self.suggestion_views().take(k as int), self.value@).len(),
                forall|j: int| 0 <= j < out@.len() ==> (#[trigger] out@[j])@
                    == matching(self.suggestion_views().take(k as int), self.value@)[j],
            decreases n - k,
        {
            let cand = self.suggestions[k].as_str();
            let low = to_lowercase(cand);
            proof {
                assert(self.suggestion_views().take(k + 1).drop_last() == self.suggestion_views().take(k as int));
                assert(self.suggestion_views().take(k + 1).last() == cand@);
            }
            if starts_with(key.as_str(), low.as_str()) {
                out.push(cand);
            }
            k = k + 1;
        }
        proof {
            assert(self.suggestion_views().take(n as int) == self.suggestion_views());
        }
        out
    }
}

} // verus!
