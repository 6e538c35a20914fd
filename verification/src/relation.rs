//! The membership relation between histories and marker kinds.
//!
//! A history is the ordered sequence of marker kinds that checked insertions
//! recorded on one store. For a history `h` and a kind `k`, the verdict of
//! `(h, k)` is `Present` exactly when `k` occurs somewhere in `h`; order and
//! multiplicity do not matter to the verdict, though the history itself keeps
//! its order. The designated empty marker is present in every history, the
//! empty history included.

use vstd::prelude::*;

verus! {

/// The verdict of a (history, kind) pair: the kind occurs in the history, or
/// it does not.
#[derive(Clone, Copy, PartialEq, Eq, Structural, Debug)]
pub enum Verdict {
    Present,
    Absent,
}

/// A marker queried against a history: an ordinary kind, or the designated
/// empty marker, which every history contains.
pub enum Marker<K> {
    Empty,
    Kind(K),
}

/// The membership verdict for an ordinary kind: `Present` exactly when the
/// kind occurs in the history.
pub open spec fn verdict_of<K>(history: Seq<K>, kind: K) -> Verdict {
    if history.contains(kind) {
        Verdict::Present
    } else {
        Verdict::Absent
    }
}

/// The membership verdict for a marker: the empty marker is present in every
/// history; an ordinary kind is judged by [`verdict_of`].
pub open spec fn marker_verdict<K>(history: Seq<K>, marker: Marker<K>) -> Verdict {
    match marker {
        Marker::Empty => Verdict::Present,
        Marker::Kind(kind) => verdict_of(history, kind),
    }
}

/// The verdict of a (history, kind) pair is `Present` exactly when the kind
/// occurs in the history's sequence; the designated empty marker is present
/// in every history; and the empty history holds no ordinary kind.
pub proof fn lemma_verdict_characterization<K>(history: Seq<K>, kind: K)
    ensures
        verdict_of(history, kind) == Verdict::Present <==> history.contains(kind),
        verdict_of(history, kind) == Verdict::Absent <==> !history.contains(kind),
        marker_verdict(history, Marker::<K>::Empty) == Verdict::Present,
        verdict_of(Seq::<K>::empty(), kind) == Verdict::Absent,
{
    assert(!Seq::<K>::empty().contains(kind));
}

/// Whether a kind occurs in a history, by a direct containment scan.
pub fn history_contains(history: &Vec<String>, kind: &String) -> (found: bool)
    ensures
        found == history.deep_view().contains(kind@),
{
    let ghost h = history.deep_view();
    let mut i: usize = 0;
    while i < history.len()
        invariant
            i <= history.len(),
            h == history.deep_view(),
            forall|j: int| 0 <= j < i ==> h[j] != kind@,
        decreases history.len() - i,
    {
        if history[i] == *kind {
            assert(h[i as int] == kind@);
            return true;
        }
        i += 1;
    }
    assert(forall|j: int| 0 <= j < h.len() ==> h[j] != kind@);
    false
}

/// The membership verdict of a (history, kind) pair, computed at call time.
pub fn verdict(history: &Vec<String>, kind: &String) -> (v: Verdict)
    ensures
        v == verdict_of(history.deep_view(), kind@),
{
    if history_contains(history, kind) {
        Verdict::Present
    } else {
        Verdict::Absent
    }
}

} // verus!
