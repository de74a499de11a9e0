//! Locating the text a dictation inserted, and reading it back after edits.
use vstd::prelude::*;
use crate::text::{chars_of, string_of};

verus! {

/// The longest edit read back through an anchor, in characters.
pub const MAX_EDIT_CHARS: usize = 4000;

/// `pat` occurs in `doc` at position `i`.
pub open spec fn occurs_at(doc: Seq<char>, pat: Seq<char>, i: int) -> bool {
    0 <= i && i + pat.len() <= doc.len() && doc.subrange(i, i + pat.len()) == pat
}

/// `pat` occurs in `doc` at position `i` and nowhere else.
pub open spec fn occurs_only_at(doc: Seq<char>, pat: Seq<char>, i: int) -> bool {
    occurs_at(doc, pat, i) && forall|j: int| #[trigger] occurs_at(doc, pat, j) ==> j == i
}

/// The text before and after the one place where `inserted` occurs in
/// `document`; none when `inserted` is empty, absent or occurs more than once.
pub open spec fn anchor_of(document: Seq<char>, inserted: Seq<char>) -> Option<(Seq<char>, Seq<char>)> {
    if inserted.len() > 0 && exists|i: int| occurs_only_at(document, inserted, i) {
        let i = choose|i: int| occurs_only_at(document, inserted, i);
        Some((document.take(i), document.skip(i + inserted.len())))
    } else {
        None
    }
}

/// The text between `prefix` and `suffix` in `document`, when `document`
/// starts with `prefix`, the rest ends with `suffix`, and what lies between
/// has at most [`MAX_EDIT_CHARS`] characters.
pub open spec fn middle_of(prefix: Seq<char>, suffix: Seq<char>, document: Seq<char>) -> Option<Seq<char>> {
    if prefix.len() + suffix.len() <= document.len()
        && document.take(prefix.len() as int) == prefix
        && document.skip(document.len() - suffix.len()) == suffix
        && document.len() - prefix.len() - suffix.len() <= MAX_EDIT_CHARS
    {
        Some(document.subrange(prefix.len() as int, document.len() - suffix.len()))
    } else {
        None
    }
}

/// The text around a dictated insertion: what preceded and what followed it.
pub struct Anchor {
    prefix: String,
    suffix: String,
}

impl View for Anchor {
    type V = (Seq<char>, Seq<char>);

    closed spec fn view(&self) -> (Seq<char>, Seq<char>) {
        (self.prefix@, self.suffix@)
    }
}

/// The view of an optional anchor.
pub open spec fn anchor_view(a: Option<Anchor>) -> Option<(Seq<char>, Seq<char>)> {
    match a {
        Some(a) => Some(a@),
        None => None,
    }
}

/// The view of an optional string.
pub open spec fn text_view(s: Option<String>) -> Option<Seq<char>> {
    match s {
        Some(s) => Some(s@),
        None => None,
    }
}

/// Whether `pat` occurs in `doc` at `i`.
fn matches_at(doc: &Vec<char>, pat: &Vec<char>, i: usize) -> (r: bool)
    requires
        i + pat.len() <= doc.len(),
    ensures
        r == occurs_at(doc@, pat@, i as int),
{
    let mut k: usize = 0;
    while k < pat.len()
        invariant
            i + pat.len() <= doc.len(),
            k <= pat.len(),
            forall|m: int| 0 <= m < k ==> doc@[i + m] == pat@[m],
        decreases pat.len() - k,
    {
        if doc[i + k] != pat[k] {
            assert(doc@.subrange(i as int, i + pat.len())[k as int] != pat@[k as int]);
            return false;
        }
        k += 1;
    }
    assert(doc@.subrange(i as int, i + pat.len()) =~= pat@);
    true
}

/// The first position at or after `from` where `pat` occurs in `doc`.
fn find_from(doc: &Vec<char>, pat: &Vec<char>, from: usize) -> (r: Option<usize>)
    ensures
        match r {
            Some(i) => from <= i && occurs_at(doc@, pat@, i as int) && forall|j: int|
                from <= j < i ==> !#[trigger] occurs_at(doc@, pat@, j),
            None => forall|j: int| from <= j ==> !#[trigger] occurs_at(doc@, pat@, j),
        },
{
    if pat.len() > doc.len() {
        return None;
    }
    let last = doc.len() - pat.len();
    let mut i = from;
    while i <= last
        invariant
            last == doc.len() - pat.len(),
            pat.len() <= doc.len(),
            from <= i || i == from,
            forall|j: int| from <= j < i ==> !#[trigger] occurs_at(doc@, pat@, j),
        decreases last + 1 - i,
    {
        if matches_at(doc, pat, i) {
            return Some(i);
        }
        if i == last {
            return None;
        }
        i += 1;
    }
    None
}

/// An anchor splits the document it was made from into the text before the
/// insertion, the insertion itself, and the text after it.
pub proof fn lemma_anchor_splits_document(document: Seq<char>, inserted: Seq<char>)
    requires
        anchor_of(document, inserted) is Some,
    ensures
        ({
            let (prefix, suffix) = anchor_of(document, inserted).unwrap();
            document == prefix + inserted + suffix
        }),
{
    let i = choose|i: int| occurs_only_at(document, inserted, i);
    assert(document =~= document.take(i) + document.subrange(i, i + inserted.len()) + document.skip(
        i + inserted.len(),
    ));
}

/// Whatever the user makes of the inserted text, the anchor reads back
/// exactly that edit, as long as the text around it is untouched and the edit
/// has at most [`MAX_EDIT_CHARS`] characters; in particular an unchanged
/// document gives back the insertion itself.
pub proof fn lemma_anchor_tracks_edit(document: Seq<char>, inserted: Seq<char>, edit: Seq<char>)
    requires
        anchor_of(document, inserted) is Some,
        edit.len() <= MAX_EDIT_CHARS,
    ensures
        ({
            let (prefix, suffix) = anchor_of(document, inserted).unwrap();
            middle_of(prefix, suffix, prefix + edit + suffix) == Some(edit)
        }),
{
    let (prefix, suffix) = anchor_of(document, inserted).unwrap();
    let d = prefix + edit + suffix;
    assert(d.take(prefix.len() as int) =~= prefix);
    assert(d.skip(d.len() - suffix.len()) =~= suffix);
    assert(d.subrange(prefix.len() as int, d.len() - suffix.len()) =~= edit);
}

impl Anchor {
    /// Anchors `inserted` in `document`: succeeds only when `inserted` is not
    /// empty and occurs exactly once.
    pub fn new(document: &str, inserted: &str) -> (r: Option<Self>)
        ensures
            anchor_view(r) == anchor_of(document@, inserted@),
    {
        let doc = chars_of(document);
        let ins = chars_of(inserted);
        if ins.len() == 0 {
            return None;
        }
        let at = match find_from(&doc, &ins, 0) {
            Some(at) => at,
            None => {
                assert(!exists|i: int| occurs_only_at(document@, inserted@, i));
                return None;
            },
        };
        let n = doc.len();
        assert(at + ins@.len() <= n);
        if let Some(other) = find_from(&doc, &ins, at + 1) {
            assert(occurs_at(doc@, ins@, other as int));
            assert(!exists|i: int| occurs_only_at(document@, inserted@, i));
            return None;
        }
        assert(occurs_only_at(document@, inserted@, at as int));
        let end = at + ins.len();
        let r = Anchor { prefix: string_of(&doc, 0, at), suffix: string_of(&doc, end, doc.len()) };
        proof {
            let i = choose|i: int| occurs_only_at(document@, inserted@, i);
            assert(i == at);
            assert(r.prefix@ =~= document@.take(i));
            assert(r.suffix@ =~= document@.skip(i + inserted@.len()));
        }
        Some(r)
    }

    /// The text between the anchor's prefix and suffix in `document`, if the
    /// text around the insertion is unchanged and the edit has at most
    /// [`MAX_EDIT_CHARS`] characters.
    pub fn extract(&self, document: &str) -> (r: Option<String>)
        ensures
            text_view(r) == middle_of(self@.0, self@.1, document@),
    {
        let doc = chars_of(document);
        let pre = chars_of(self.prefix.as_str());
        let suf = chars_of(self.suffix.as_str());
        if pre.len() > doc.len() || suf.len() > doc.len() - pre.len() {
            return None;
        }
        let tail = doc.len() - suf.len();
        if !matches_at(&doc, &pre, 0) {
            assert(doc@.subrange(0, pre@.len() as int) =~= doc@.take(pre@.len() as int));
            return None;
        }
        if !matches_at(&doc, &suf, tail) {
            assert(doc@.subrange(tail as int, tail + suf@.len()) =~= doc@.skip(tail as int));
            return None;
        }
        assert(doc@.subrange(0, pre@.len() as int) =~= doc@.take(pre@.len() as int));
        assert(doc@.subrange(tail as int, tail + suf@.len()) =~= doc@.skip(tail as int));
        if tail - pre.len() > MAX_EDIT_CHARS {
            return None;
        }
        Some(string_of(&doc, pre.len(), tail))
    }
}

} // verus!
