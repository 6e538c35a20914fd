//! A phase-tracked node walked through legal chains of transitions.
//!
//! [`Node`] carries a ghost record of the marks its transitions pushed, the
//! same way an annotation store's history records checked insertions. The
//! gated operations demand a membership verdict on that record, so a chain
//! of calls verifies exactly when every step's marks are in place:
//! [`Node::only_on_nil`] asks only for the empty marker, which every record
//! holds, while [`Node::only_on_food`] and [`Node::only_on_food_and_bard`]
//! ask for [`Mark::Foo`], or for both marks. [`mark_main`] verifies a tour
//! of such chains.

use vstd::prelude::*;

use crate::relation::Marker;
use crate::relation::Verdict;
use crate::relation::marker_verdict;
use crate::relation::verdict_of;

verus! {

/// The marker kinds the walk records.
#[derive(Clone, Copy, PartialEq, Eq, Structural, Debug)]
pub enum Mark {
    Foo,
    Bar,
}

/// A counter whose recorded marks gate which operations are legal.
pub struct Node {
    value: i32,
    marks: Ghost<Seq<Mark>>,
}

impl Node {
    /// The marks recorded so far, oldest first.
    pub closed spec fn marks(&self) -> Seq<Mark> {
        self.marks@
    }

    /// The counter the transitions advance.
    pub closed spec fn value(&self) -> i32 {
        self.value
    }

    /// Records [`Mark::Foo`] and advances the counter.
    pub fn foo(&self) -> (n: Node)
        requires
            self.value() < i32::MAX,
        ensures
            n.marks() == self.marks().push(Mark::Foo),
            n.value() == self.value() + 1,
            n.marks().contains(Mark::Foo),
            forall|m: Mark| self.marks().contains(m) ==> n.marks().contains(m),
    {
        let n = Node { value: self.value + 1, marks: Ghost(self.marks@.push(Mark::Foo)) };
        proof {
            lemma_push_keeps_marks(self.marks@, Mark::Foo);
        }
        n
    }

    /// Records [`Mark::Bar`] and advances the counter.
    pub fn bar(&self) -> (n: Node)
        requires
            self.value() < i32::MAX,
        ensures
            n.marks() == self.marks().push(Mark::Bar),
            n.value() == self.value() + 1,
            n.marks().contains(Mark::Bar),
            forall|m: Mark| self.marks().contains(m) ==> n.marks().contains(m),
    {
        let n = Node { value: self.value + 1, marks: Ghost(self.marks@.push(Mark::Bar)) };
        proof {
            lemma_push_keeps_marks(self.marks@, Mark::Bar);
        }
        n
    }

    /// Legal on every node: the empty marker is present in every record.
    pub fn only_on_nil(&self)
        requires
            marker_verdict(self.marks(), Marker::<Mark>::Empty) == Verdict::Present,
    {
    }

    /// Legal only once [`Mark::Foo`] has been recorded.
    pub fn only_on_food(&self)
        requires
            verdict_of(self.marks(), Mark::Foo) == Verdict::Present,
    {
    }

    /// Legal only once both marks have been recorded, in either order.
    pub fn only_on_food_and_bard(&self)
        requires
            verdict_of(self.marks(), Mark::Foo) == Verdict::Present,
            verdict_of(self.marks(), Mark::Bar) == Verdict::Present,
    {
    }
}

impl Default for Node {
    /// A fresh node: counter zero, nothing recorded.
    fn default() -> (n: Self)
        ensures
            n.marks() == Seq::<Mark>::empty(),
            n.value() == 0,
    {
        Node { value: 0, marks: Ghost(Seq::empty()) }
    }
}

proof fn lemma_push_keeps_marks(s: Seq<Mark>, x: Mark)
    ensures
        s.push(x).contains(x),
        forall|m: Mark| s.contains(m) ==> s.push(x).contains(m),
{
    assert(s.push(x)[s.len() as int] == x);
    assert forall|m: Mark| s.contains(m) implies s.push(x).contains(m) by {
        let i = choose|i: int| 0 <= i < s.len() && s[i] == m;
        assert(s.push(x)[i] == m);
    }
}

/// A tour of legal chains: every call below verifies because the marks its
/// gate demands were recorded earlier in its chain.
pub fn mark_main() {
    let node = Node::default();

    node.only_on_nil();
    node.foo().only_on_nil();
    node.foo().foo().only_on_nil();
    node.foo().bar().only_on_nil();

    node.bar().foo().only_on_food_and_bard();

    node.foo().only_on_food();
    node.foo().bar().only_on_food();
    node.bar().foo().only_on_food();
    node.bar().foo().bar().only_on_food();
    node.foo().foo().only_on_food();
}

} // verus!
