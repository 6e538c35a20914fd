//! The annotation store: a payload wrapped with a phase-gated mapping from
//! marker kinds to annotation values.
//!
//! A [`Node`] holds an opaque payload, a mapping from kind names to values of
//! a closed annotation type, and the history of checked insertions. The
//! history is the store's phase: each gated operation demands a membership
//! verdict on it. `add_annotation` demands the kind absent and extends the
//! history; `change_annotation` and `get_annotation` demand it present and
//! leave the history alone; the unchecked operations demand it absent and
//! bypass it. A verified caller discharges these demands statically; the
//! `try_` variants check them at run time and report a
//! [`PreconditionViolation`] instead.
//!
//! The store's invariant ties the two halves together: every kind the history
//! records has a value in the mapping. A checked read therefore always finds
//! its value — the fatal "mapping and history diverged" outcome is proved
//! unreachable.

use vstd::prelude::*;

use crate::ast::Type;
use crate::relation::Verdict;
use crate::relation::verdict_of;

verus! {

/// Marker for the closed annotation value types a [`Node`] may store.
pub trait Annotation {}

/// An inferred type is the annotation a typing pass attaches to a node.
impl Annotation for Type {}

/// A gated operation was invoked while its membership precondition on the
/// store's phase did not hold.
#[derive(Clone, Copy, PartialEq, Eq, Structural, Debug)]
pub struct PreconditionViolation;

/// The mapping the entry list denotes: later entries shadow earlier ones.
spec fn anns_map<V>(entries: Seq<(String, V)>) -> Map<Seq<char>, V>
    decreases entries.len(),
{
    if entries.len() == 0 {
        Map::empty()
    } else {
        anns_map(entries.drop_last()).insert(entries.last().0@, entries.last().1)
    }
}

proof fn lemma_anns_map_insert<V>(entries: Seq<(String, V)>, kind: String, value: V)
    ensures
        anns_map(entries.push((kind, value))) == anns_map(entries).insert(kind@, value),
{
    let pushed = entries.push((kind, value));
    assert(pushed.drop_last() =~= entries);
    assert(pushed.last() == (kind, value));
}

proof fn lemma_anns_map_last_match<V>(entries: Seq<(String, V)>, i: int)
    requires
        0 <= i < entries.len(),
        forall|j: int| i < j < entries.len() ==> entries[j].0@ != entries[i].0@,
    ensures
        anns_map(entries).contains_key(entries[i].0@),
        anns_map(entries)[entries[i].0@] == entries[i].1,
    decreases entries.len(),
{
    if i < entries.len() - 1 {
        lemma_anns_map_last_match(entries.drop_last(), i);
    }
}

proof fn lemma_anns_map_no_match<V>(entries: Seq<(String, V)>, key: Seq<char>)
    requires
        forall|j: int| 0 <= j < entries.len() ==> entries[j].0@ != key,
    ensures
        !anns_map(entries).contains_key(key),
    decreases entries.len(),
{
    if entries.len() > 0 {
        lemma_anns_map_no_match(entries.drop_last(), key);
    }
}

/// A payload of type `T` with phase-gated annotations of type `V`.
#[derive(Debug)]
pub struct Node<T, V> {
    pub node: T,
    annotations: Vec<(String, V)>,
    history: Vec<String>,
}

impl<T, V: Annotation> Node<T, V> {
    /// The payload the store wraps.
    pub closed spec fn payload(&self) -> T {
        self.node
    }

    /// The phase: the history of checked insertions, oldest first.
    pub closed spec fn phase(&self) -> Seq<Seq<char>> {
        self.history.deep_view()
    }

    /// The mapping from kind names to annotation values.
    pub closed spec fn anns(&self) -> Map<Seq<char>, V> {
        anns_map(self.annotations@)
    }

    /// The store's invariant: the history records no kind twice, and every
    /// kind it records has a value in the mapping.
    pub closed spec fn wf(&self) -> bool {
        &&& forall|i: int, j: int|
            0 <= i < j < self.phase().len() ==> self.phase()[i] != self.phase()[j]
        &&& forall|i: int| 0 <= i < self.phase().len() ==> self.anns().contains_key(self.phase()[i])
    }

    /// Wraps a bare payload: empty history, empty mapping.
    pub fn new(value: T) -> (n: Node<T, V>)
        ensures
            n.wf(),
            n.phase() == Seq::<Seq<char>>::empty(),
            n.anns() == Map::<Seq<char>, V>::empty(),
            n.payload() == value,
    {
        let n = Node { node: value, annotations: Vec::new(), history: Vec::new() };
        proof {
            assert(n.phase() =~= Seq::<Seq<char>>::empty());
            assert(n.anns() =~= Map::<Seq<char>, V>::empty());
        }
        n
    }

    /// Checked insertion. Demands the kind absent from the phase, records the
    /// value and extends the history by the kind. The old store is consumed:
    /// only the returned store carries the extended phase.
    pub fn add_annotation(self, kind: String, value: V) -> (n: Node<T, V>)
        requires
            self.wf(),
            verdict_of(self.phase(), kind@) == Verdict::Absent,
        ensures
            n.wf(),
            n.phase() == self.phase().push(kind@),
            n.anns() == self.anns().insert(kind@, value),
            n.payload() == self.payload(),
    {
        let Node { node, mut annotations, mut history } = self;
        let key = kind.clone();
        proof {
            lemma_anns_map_insert(annotations@, kind, value);
        }
        annotations.push((kind, value));
        history.push(key);
        let n = Node { node, annotations, history };
        proof {
            assert(n.phase() =~= self.phase().push(key@));
            assert(!self.phase().contains(key@));
            assert(forall|i: int|
                0 <= i < self.phase().len() ==> n.phase()[i] == self.phase()[i]);
        }
        n
    }

    /// Unchecked insertion. Demands the kind absent from the phase, records
    /// the value, but leaves the history alone: the phase never learns of the
    /// entry, whatever out-of-band path may already hold the kind.
    pub fn add_annotation_unchecked(&mut self, kind: String, value: V)
        requires
            old(self).wf(),
            verdict_of(old(self).phase(), kind@) == Verdict::Absent,
        ensures
            final(self).wf(),
            final(self).phase() == old(self).phase(),
            final(self).anns() == old(self).anns().insert(kind@, value),
            final(self).payload() == old(self).payload(),
    {
        proof {
            lemma_anns_map_insert(self.annotations@, kind, value);
        }
        self.annotations.push((kind, value));
    }

    /// Replaces the value of a kind the phase holds present. The history is
    /// unchanged.
    pub fn change_annotation(&mut self, kind: String, value: V)
        requires
            old(self).wf(),
            verdict_of(old(self).phase(), kind@) == Verdict::Present,
        ensures
            final(self).wf(),
            final(self).phase() == old(self).phase(),
            final(self).anns() == old(self).anns().insert(kind@, value),
            final(self).payload() == old(self).payload(),
    {
        proof {
            lemma_anns_map_insert(self.annotations@, kind, value);
        }
        self.annotations.push((kind, value));
    }

    /// Checked read. Demands the kind present in the phase; the invariant
    /// then guarantees the mapping holds a value, so the read cannot miss.
    pub fn get_annotation(&self, kind: &String) -> (r: &V)
        requires
            self.wf(),
            verdict_of(self.phase(), kind@) == Verdict::Present,
        ensures
            self.anns().contains_key(kind@),
            *r == self.anns()[kind@],
    {
        let n = self.annotations.len();
        let mut i: usize = n;
        while i > 0
            invariant
                i <= n,
                n == self.annotations.len(),
                forall|j: int| i <= j < n ==> self.annotations@[j].0@ != kind@,
            decreases i,
        {
            i -= 1;
            if self.annotations[i].0 == *kind {
                proof {
                    lemma_anns_map_last_match(self.annotations@, i as int);
                }
                return &self.annotations[i].1;
            }
        }
        proof {
            lemma_anns_map_no_match(self.annotations@, kind@);
            let h = self.phase();
            assert(h.contains(kind@));
            let idx = choose|idx: int| 0 <= idx < h.len() && h[idx] == kind@;
            assert(self.anns().contains_key(h[idx]));
            assert(false);
        }
        unreached()
    }

    /// Unchecked read. Demands the kind absent from the phase; finding no
    /// value is then a legitimate outcome, not an error.
    pub fn get_annotation_unchecked(&self, kind: &String) -> (r: Option<&V>)
        requires
            self.wf(),
            verdict_of(self.phase(), kind@) == Verdict::Absent,
        ensures
            match r {
                Some(v) => self.anns().contains_key(kind@) && *v == self.anns()[kind@],
                None => !self.anns().contains_key(kind@),
            },
    {
        let n = self.annotations.len();
        let mut i: usize = n;
        while i > 0
            invariant
                i <= n,
                n == self.annotations.len(),
                forall|j: int| i <= j < n ==> self.annotations@[j].0@ != kind@,
            decreases i,
        {
            i -= 1;
            if self.annotations[i].0 == *kind {
                proof {
                    lemma_anns_map_last_match(self.annotations@, i as int);
                }
                return Some(&self.annotations[i].1);
            }
        }
        proof {
            lemma_anns_map_no_match(self.annotations@, kind@);
        }
        None
    }

    /// Checked insertion with the precondition tested at run time: `Ok` with
    /// the new store exactly when the kind was absent, `Err` exactly when it
    /// was present.
    pub fn try_add_annotation(self, kind: String, value: V) -> (r: Result<
        Node<T, V>,
        PreconditionViolation,
    >)
        requires
            self.wf(),
        ensures
            match r {
                Ok(n) => {
                    &&& verdict_of(self.phase(), kind@) == Verdict::Absent
                    &&& n.wf()
                    &&& n.phase() == self.phase().push(kind@)
                    &&& n.anns() == self.anns().insert(kind@, value)
                    &&& n.payload() == self.payload()
                },
                Err(_) => verdict_of(self.phase(), kind@) == Verdict::Present,
            },
    {
        if crate::relation::history_contains(&self.history, &kind) {
            Err(PreconditionViolation)
        } else {
            Ok(self.add_annotation(kind, value))
        }
    }

    /// Replacement with the precondition tested at run time: `Ok` and the new
    /// value exactly when the kind was present, `Err` and no change exactly
    /// when it was absent. The history is unchanged either way.
    pub fn try_change_annotation(&mut self, kind: String, value: V) -> (r: Result<
        (),
        PreconditionViolation,
    >)
        requires
            old(self).wf(),
        ensures
            final(self).wf(),
            final(self).phase() == old(self).phase(),
            final(self).payload() == old(self).payload(),
            match r {
                Ok(_) => {
                    &&& verdict_of(old(self).phase(), kind@) == Verdict::Present
                    &&& final(self).anns() == old(self).anns().insert(kind@, value)
                },
                Err(_) => {
                    &&& verdict_of(old(self).phase(), kind@) == Verdict::Absent
                    &&& final(self).anns() == old(self).anns()
                },
            },
    {
        if crate::relation::history_contains(&self.history, &kind) {
            self.change_annotation(kind, value);
            Ok(())
        } else {
            Err(PreconditionViolation)
        }
    }

    /// Checked read with the precondition tested at run time: `Ok` with the
    /// value exactly when the kind is present in the phase, `Err` exactly
    /// when it is absent.
    pub fn try_get_annotation(&self, kind: &String) -> (r: Result<&V, PreconditionViolation>)
        requires
            self.wf(),
        ensures
            match r {
                Ok(v) => {
                    &&& verdict_of(self.phase(), kind@) == Verdict::Present
                    &&& self.anns().contains_key(kind@)
                    &&& *v == self.anns()[kind@]
                },
                Err(_) => verdict_of(self.phase(), kind@) == Verdict::Absent,
            },
    {
        if crate::relation::history_contains(&self.history, kind) {
            Ok(self.get_annotation(kind))
        } else {
            Err(PreconditionViolation)
        }
    }

    /// How many checked insertions the store has recorded.
    pub fn history_len(&self) -> (n: usize)
        ensures
            n == self.phase().len(),
    {
        self.history.len()
    }
}

/// A checked insertion makes its value retrievable: a phase that held the
/// kind absent holds it present once the insertion extends it, and the
/// mapping it produced yields the inserted value for that kind.
pub proof fn lemma_add_then_get<V>(
    phase: Seq<Seq<char>>,
    anns: Map<Seq<char>, V>,
    kind: Seq<char>,
    value: V,
)
    requires
        verdict_of(phase, kind) == Verdict::Absent,
    ensures
        verdict_of(phase.push(kind), kind) == Verdict::Present,
        anns.insert(kind, value).contains_key(kind),
        anns.insert(kind, value)[kind] == value,
{
    assert(phase.push(kind)[phase.len() as int] == kind);
}

/// A kind can be checked-added at most once: the phase a checked insertion
/// produces holds the kind present, so a second checked insertion of the same
/// kind, which demands it absent, is rejected whatever value it brings.
pub proof fn lemma_add_disallows_second_add(phase: Seq<Seq<char>>, kind: Seq<char>)
    ensures
        verdict_of(phase.push(kind), kind) != Verdict::Absent,
{
    assert(phase.push(kind)[phase.len() as int] == kind);
}

/// Replacing an annotation yields the new value: inserting `v2` over `v1`
/// under the same kind leaves the mapping answering `v2`, and the replacement
/// is enabled on the phase the checked insertion produced. (That the history
/// itself is untouched is stated by `change_annotation`'s own contract.)
pub proof fn lemma_change_then_get<V>(
    phase: Seq<Seq<char>>,
    anns: Map<Seq<char>, V>,
    kind: Seq<char>,
    v1: V,
    v2: V,
)
    requires
        verdict_of(phase, kind) == Verdict::Absent,
    ensures
        verdict_of(phase.push(kind), kind) == Verdict::Present,
        anns.insert(kind, v1).insert(kind, v2)[kind] == v2,
{
    assert(phase.push(kind)[phase.len() as int] == kind);
}

/// An unchecked insertion is invisible to the phase: the value is there for
/// the unchecked read, yet a phase the operation left unchanged still holds
/// the kind absent, so the checked read remains rejected.
pub proof fn lemma_unchecked_add_keeps_gate_shut<V>(
    phase_before: Seq<Seq<char>>,
    phase_after: Seq<Seq<char>>,
    anns: Map<Seq<char>, V>,
    kind: Seq<char>,
    value: V,
)
    requires
        phase_after == phase_before,
        verdict_of(phase_before, kind) == Verdict::Absent,
    ensures
        anns.insert(kind, value).contains_key(kind),
        anns.insert(kind, value)[kind] == value,
        verdict_of(phase_after, kind) == Verdict::Absent,
{
}

/// A kind never inserted is missing from a fresh store: its mapping holds no
/// value for any kind, and its empty phase holds every kind absent, so the
/// unchecked read reports a genuine miss.
pub proof fn lemma_fresh_store_misses<V>(kind: Seq<char>)
    ensures
        !Map::<Seq<char>, V>::empty().contains_key(kind),
        verdict_of(Seq::<Seq<char>>::empty(), kind) == Verdict::Absent,
{
    assert(!Seq::<Seq<char>>::empty().contains(kind));
}

} // verus!
