//! The relation generator: every membership fact up to a bounded depth.
//!
//! Given a validated configuration — a maximum depth `D` and an ordered set
//! of distinct marker kinds — the generator enumerates, for every depth `d`
//! from 1 to `D`, every ordered history of length `d` drawn with repetition
//! from the kinds, and every kind `k`, one [`Fact`] recording the membership
//! verdict of that (history, kind) pair. The facts come in a fixed order:
//! depth by depth, kind by kind, histories in lexicographic order of kind
//! position. With `N` kinds the table holds `N * (N + N^2 + ... + N^D)`
//! facts; [`lemma_facts_sound`] and [`lemma_facts_complete`] state that every
//! fact's verdict agrees with [`verdict_of`] and that every admissible pair
//! appears.

use vstd::prelude::*;
use vstd::string::StrSliceExecFns;

use crate::relation::Verdict;
use crate::relation::verdict_of;

verus! {

/// One generated fact: the verdict of a (history, kind) pair.
#[derive(Debug, PartialEq, Eq)]
pub struct Fact {
    pub history: Vec<String>,
    pub kind: String,
    pub verdict: Verdict,
}

/// The mathematical content of a [`Fact`].
pub struct FactModel {
    pub history: Seq<Seq<char>>,
    pub kind: Seq<char>,
    pub verdict: Verdict,
}

impl View for Fact {
    type V = FactModel;

    open spec fn view(&self) -> FactModel {
        FactModel { history: self.history.deep_view(), kind: self.kind@, verdict: self.verdict }
    }
}

/// The fact the generator owes for a (history, kind) pair.
pub open spec fn fact_model(history: Seq<Seq<char>>, kind: Seq<char>) -> FactModel {
    FactModel { history, kind, verdict: verdict_of(history, kind) }
}

/// The models of a sequence of facts.
pub open spec fn models(facts: Seq<Fact>) -> Seq<FactModel> {
    facts.map_values(|f: Fact| f@)
}

/// Every history that extends one of `tails` by `kind` at the front.
pub open spec fn prepend_to_each(kind: Seq<char>, tails: Seq<Seq<Seq<char>>>) -> Seq<
    Seq<Seq<char>>,
> {
    tails.map_values(|t: Seq<Seq<char>>| seq![kind] + t)
}

/// Every history one longer than the given tails: for each kind in order,
/// that kind in front of each tail.
pub open spec fn histories_step(kinds: Seq<Seq<char>>, tails: Seq<Seq<Seq<char>>>) -> Seq<
    Seq<Seq<char>>,
>
    decreases kinds.len(),
{
    if kinds.len() == 0 {
        Seq::empty()
    } else {
        prepend_to_each(kinds.first(), tails) + histories_step(kinds.drop_first(), tails)
    }
}

/// Every history of exactly `depth` kinds, in lexicographic order of kind
/// position, earlier kinds first.
pub open spec fn all_histories(kinds: Seq<Seq<char>>, depth: nat) -> Seq<Seq<Seq<char>>>
    decreases depth,
{
    if depth == 0 {
        seq![Seq::<Seq<char>>::empty()]
    } else {
        histories_step(kinds, all_histories(kinds, (depth - 1) as nat))
    }
}

/// One fact per history, all for the same kind.
pub open spec fn facts_for_kind(histories: Seq<Seq<Seq<char>>>, kind: Seq<char>) -> Seq<
    FactModel,
> {
    histories.map_values(|h: Seq<Seq<char>>| fact_model(h, kind))
}

/// The facts for every kind in order against a fixed set of histories.
pub open spec fn facts_step(kinds: Seq<Seq<char>>, histories: Seq<Seq<Seq<char>>>) -> Seq<
    FactModel,
>
    decreases kinds.len(),
{
    if kinds.len() == 0 {
        Seq::empty()
    } else {
        facts_for_kind(histories, kinds.first()) + facts_step(kinds.drop_first(), histories)
    }
}

/// The facts the generator owes for one depth.
pub open spec fn facts_at_depth(kinds: Seq<Seq<char>>, depth: nat) -> Seq<FactModel> {
    facts_step(kinds, all_histories(kinds, depth))
}

/// The whole table: the facts for every depth from 1 to `depth`.
pub open spec fn facts_to_depth(kinds: Seq<Seq<char>>, depth: nat) -> Seq<FactModel>
    decreases depth,
{
    if depth == 0 {
        Seq::empty()
    } else {
        facts_to_depth(kinds, (depth - 1) as nat) + facts_at_depth(kinds, depth)
    }
}

/// `base` to the power `exp`.
pub open spec fn pow(base: nat, exp: nat) -> nat
    decreases exp,
{
    if exp == 0 {
        1
    } else {
        base * pow(base, (exp - 1) as nat)
    }
}

/// How many facts a table over `n` kinds up to `depth` holds:
/// `n * (n + n^2 + ... + n^depth)`.
pub open spec fn fact_count(n: nat, depth: nat) -> nat
    decreases depth,
{
    if depth == 0 {
        0
    } else {
        fact_count(n, (depth - 1) as nat) + n * pow(n, depth)
    }
}

proof fn lemma_histories_step_len(kinds: Seq<Seq<char>>, tails: Seq<Seq<Seq<char>>>)
    ensures
        histories_step(kinds, tails).len() == kinds.len() * tails.len(),
    decreases kinds.len(),
{
    if kinds.len() > 0 {
        lemma_histories_step_len(kinds.drop_first(), tails);
        assert(tails.len() + (kinds.len() - 1) * tails.len() == kinds.len() * tails.len())
            by (nonlinear_arith);
    }
}

proof fn lemma_all_histories_len(kinds: Seq<Seq<char>>, depth: nat)
    ensures
        all_histories(kinds, depth).len() == pow(kinds.len(), depth),
    decreases depth,
{
    if depth > 0 {
        lemma_all_histories_len(kinds, (depth - 1) as nat);
        lemma_histories_step_len(kinds, all_histories(kinds, (depth - 1) as nat));
    }
}

proof fn lemma_facts_step_len(kinds: Seq<Seq<char>>, histories: Seq<Seq<Seq<char>>>)
    ensures
        facts_step(kinds, histories).len() == kinds.len() * histories.len(),
    decreases kinds.len(),
{
    if kinds.len() > 0 {
        lemma_facts_step_len(kinds.drop_first(), histories);
        assert(histories.len() + (kinds.len() - 1) * histories.len() == kinds.len()
            * histories.len()) by (nonlinear_arith);
    }
}

proof fn lemma_facts_to_depth_len(kinds: Seq<Seq<char>>, depth: nat)
    ensures
        facts_to_depth(kinds, depth).len() == fact_count(kinds.len(), depth),
    decreases depth,
{
    if depth > 0 {
        lemma_facts_to_depth_len(kinds, (depth - 1) as nat);
        lemma_all_histories_len(kinds, depth);
        lemma_facts_step_len(kinds, all_histories(kinds, depth));
    }
}

proof fn lemma_concat_contains<A>(a: Seq<A>, b: Seq<A>, x: A)
    ensures
        (a + b).contains(x) <==> a.contains(x) || b.contains(x),
{
    if (a + b).contains(x) {
        let i = choose|i: int| 0 <= i < (a + b).len() && (a + b)[i] == x;
        if i < a.len() {
            assert(a[i] == x);
        } else {
            assert(b[i - a.len()] == x);
        }
    }
    if a.contains(x) {
        let i = choose|i: int| 0 <= i < a.len() && a[i] == x;
        assert((a + b)[i] == x);
    }
    if b.contains(x) {
        let i = choose|i: int| 0 <= i < b.len() && b[i] == x;
        assert((a + b)[a.len() + i] == x);
    }
}

proof fn lemma_prepend_contains(kind: Seq<char>, tails: Seq<Seq<Seq<char>>>, t: Seq<Seq<char>>)
    ensures
        prepend_to_each(kind, tails).contains(t) <==> (exists|j: int|
            0 <= j < tails.len() && t == seq![kind] + tails[j]),
{
    if prepend_to_each(kind, tails).contains(t) {
        let j = choose|j: int|
            0 <= j < prepend_to_each(kind, tails).len() && prepend_to_each(kind, tails)[j] == t;
        assert(t == seq![kind] + tails[j]);
    }
    if exists|j: int| 0 <= j < tails.len() && t == seq![kind] + tails[j] {
        let j = choose|j: int| 0 <= j < tails.len() && t == seq![kind] + tails[j];
        assert(prepend_to_each(kind, tails)[j] == t);
    }
}

proof fn lemma_histories_step_contains(
    kinds: Seq<Seq<char>>,
    tails: Seq<Seq<Seq<char>>>,
    t: Seq<Seq<char>>,
)
    ensures
        histories_step(kinds, tails).contains(t) <==> (exists|i: int, j: int|
            0 <= i < kinds.len() && 0 <= j < tails.len() && t == seq![kinds[i]] + tails[j]),
    decreases kinds.len(),
{
    if kinds.len() > 0 {
        let head = prepend_to_each(kinds.first(), tails);
        let rest = histories_step(kinds.drop_first(), tails);
        lemma_concat_contains(head, rest, t);
        lemma_prepend_contains(kinds.first(), tails, t);
        lemma_histories_step_contains(kinds.drop_first(), tails, t);
        if histories_step(kinds, tails).contains(t) {
            if head.contains(t) {
                let j = choose|j: int| 0 <= j < tails.len() && t == seq![kinds.first()] + tails[j];
                assert(kinds[0] == kinds.first());
                assert(0 <= 0 < kinds.len() && 0 <= j < tails.len() && t == seq![kinds[0]]
                    + tails[j]);
            } else {
                let (i, j) = choose|i: int, j: int|
                    0 <= i < kinds.drop_first().len() && 0 <= j < tails.len() && t == seq![
                        kinds.drop_first()[i],
                    ] + tails[j];
                assert(kinds.drop_first()[i] == kinds[i + 1]);
                assert(0 <= i + 1 < kinds.len() && 0 <= j < tails.len() && t == seq![
                    kinds[i + 1],
                ] + tails[j]);
            }
        }
        if exists|i: int, j: int|
            0 <= i < kinds.len() && 0 <= j < tails.len() && t == seq![kinds[i]] + tails[j] {
            let (i, j) = choose|i: int, j: int|
                0 <= i < kinds.len() && 0 <= j < tails.len() && t == seq![kinds[i]] + tails[j];
            if i == 0 {
                assert(kinds[0] == kinds.first());
                assert(head.contains(t));
            } else {
                assert(kinds.drop_first()[i - 1] == kinds[i]);
                assert(0 <= i - 1 < kinds.drop_first().len() && 0 <= j < tails.len() && t == seq![
                    kinds.drop_first()[i - 1],
                ] + tails[j]);
                assert(rest.contains(t));
            }
        }
    }
}

proof fn lemma_all_histories_contains(kinds: Seq<Seq<char>>, depth: nat, t: Seq<Seq<char>>)
    ensures
        all_histories(kinds, depth).contains(t) <==> (t.len() == depth && (forall|j: int|
            0 <= j < t.len() ==> kinds.contains(#[trigger] t[j]))),
    decreases depth,
{
    if depth == 0 {
        if all_histories(kinds, depth).contains(t) {
            assert(t == all_histories(kinds, depth)[0]);
        }
        if t.len() == 0 {
            assert(t =~= Seq::<Seq<char>>::empty());
            assert(all_histories(kinds, depth)[0] == t);
        }
    } else {
        let prev = all_histories(kinds, (depth - 1) as nat);
        lemma_histories_step_contains(kinds, prev, t);
        if all_histories(kinds, depth).contains(t) {
            let (i, j) = choose|i: int, j: int|
                0 <= i < kinds.len() && 0 <= j < prev.len() && t == seq![kinds[i]] + prev[j];
            assert(prev.contains(prev[j]));
            lemma_all_histories_contains(kinds, (depth - 1) as nat, prev[j]);
            assert(t.len() == depth);
            assert forall|m: int| 0 <= m < t.len() implies kinds.contains(#[trigger] t[m]) by {
                if m == 0 {
                    assert(t[0] == kinds[i]);
                    assert(kinds.contains(kinds[i]));
                } else {
                    assert(t[m] == prev[j][m - 1]);
                }
            }
        }
        if t.len() == depth && (forall|j: int| 0 <= j < t.len() ==> kinds.contains(#[trigger] t[j])) {
            let tl = t.drop_first();
            assert(kinds.contains(t[0]));
            let i = choose|i: int| 0 <= i < kinds.len() && kinds[i] == t[0];
            assert(forall|m: int| 0 <= m < tl.len() ==> #[trigger] tl[m] == t[m + 1]);
            assert(forall|m: int| 0 <= m < tl.len() ==> kinds.contains(#[trigger] tl[m]));
            lemma_all_histories_contains(kinds, (depth - 1) as nat, tl);
            assert(prev.contains(tl));
            let j = choose|j: int| 0 <= j < prev.len() && prev[j] == tl;
            assert(t =~= seq![kinds[i]] + prev[j]);
        }
    }
}

proof fn lemma_facts_for_kind_contains(
    histories: Seq<Seq<Seq<char>>>,
    kind: Seq<char>,
    fm: FactModel,
)
    ensures
        facts_for_kind(histories, kind).contains(fm) <==> (exists|j: int|
            0 <= j < histories.len() && fm == fact_model(histories[j], kind)),
{
    if facts_for_kind(histories, kind).contains(fm) {
        let j = choose|j: int|
            0 <= j < facts_for_kind(histories, kind).len() && facts_for_kind(histories, kind)[j]
                == fm;
        assert(fm == fact_model(histories[j], kind));
    }
    if exists|j: int| 0 <= j < histories.len() && fm == fact_model(histories[j], kind) {
        let j = choose|j: int| 0 <= j < histories.len() && fm == fact_model(histories[j], kind);
        assert(facts_for_kind(histories, kind)[j] == fm);
    }
}

proof fn lemma_facts_step_contains(
    kinds: Seq<Seq<char>>,
    histories: Seq<Seq<Seq<char>>>,
    fm: FactModel,
)
    ensures
        facts_step(kinds, histories).contains(fm) <==> (exists|i: int, j: int|
            0 <= i < kinds.len() && 0 <= j < histories.len() && fm == fact_model(
                histories[j],
                kinds[i],
            )),
    decreases kinds.len(),
{
    if kinds.len() > 0 {
        let head = facts_for_kind(histories, kinds.first());
        let rest = facts_step(kinds.drop_first(), histories);
        lemma_concat_contains(head, rest, fm);
        lemma_facts_for_kind_contains(histories, kinds.first(), fm);
        lemma_facts_step_contains(kinds.drop_first(), histories, fm);
        if facts_step(kinds, histories).contains(fm) {
            if head.contains(fm) {
                let j = choose|j: int|
                    0 <= j < histories.len() && fm == fact_model(histories[j], kinds.first());
                assert(kinds[0] == kinds.first());
                assert(0 <= 0 < kinds.len() && 0 <= j < histories.len() && fm == fact_model(
                    histories[j],
                    kinds[0],
                ));
            } else {
                let (i, j) = choose|i: int, j: int|
                    0 <= i < kinds.drop_first().len() && 0 <= j < histories.len() && fm
                        == fact_model(histories[j], kinds.drop_first()[i]);
                assert(kinds.drop_first()[i] == kinds[i + 1]);
                assert(0 <= i + 1 < kinds.len() && 0 <= j < histories.len() && fm == fact_model(
                    histories[j],
                    kinds[i + 1],
                ));
            }
        }
        if exists|i: int, j: int|
            0 <= i < kinds.len() && 0 <= j < histories.len() && fm == fact_model(
                histories[j],
                kinds[i],
            ) {
            let (i, j) = choose|i: int, j: int|
                0 <= i < kinds.len() && 0 <= j < histories.len() && fm == fact_model(
                    histories[j],
                    kinds[i],
                );
            if i == 0 {
                assert(kinds[0] == kinds.first());
                assert(head.contains(fm));
            } else {
                assert(kinds.drop_first()[i - 1] == kinds[i]);
                assert(0 <= i - 1 < kinds.drop_first().len() && 0 <= j < histories.len() && fm
                    == fact_model(histories[j], kinds.drop_first()[i - 1]));
                assert(rest.contains(fm));
            }
        }
    }
}

/// Soundness of the table: every fact it holds reports exactly the verdict
/// of its pair — `Present` when its kind occurs in its history, `Absent`
/// otherwise — and pairs a history of admissible length and kinds with a
/// configured kind.
pub proof fn lemma_facts_sound(kinds: Seq<Seq<char>>, depth: nat, fm: FactModel)
    requires
        facts_to_depth(kinds, depth).contains(fm),
    ensures
        fm.verdict == verdict_of(fm.history, fm.kind),
        1 <= fm.history.len() <= depth,
        kinds.contains(fm.kind),
        forall|j: int| 0 <= j < fm.history.len() ==> kinds.contains(#[trigger] fm.history[j]),
    decreases depth,
{
    if depth == 0 {
        assert(false);
    } else {
        let prefix = facts_to_depth(kinds, (depth - 1) as nat);
        let at_depth = facts_at_depth(kinds, depth);
        lemma_concat_contains(prefix, at_depth, fm);
        if prefix.contains(fm) {
            lemma_facts_sound(kinds, (depth - 1) as nat, fm);
        } else {
            let histories = all_histories(kinds, depth);
            lemma_facts_step_contains(kinds, histories, fm);
            let (i, j) = choose|i: int, j: int|
                0 <= i < kinds.len() && 0 <= j < histories.len() && fm == fact_model(
                    histories[j],
                    kinds[i],
                );
            assert(kinds.contains(kinds[i]));
            assert(histories.contains(histories[j]));
            lemma_all_histories_contains(kinds, depth, histories[j]);
        }
    }
}

/// Completeness of the table: for every history of length 1 to `depth` drawn
/// from the configured kinds and every configured kind, the table holds the
/// fact pairing them, with the verdict [`verdict_of`] assigns.
pub proof fn lemma_facts_complete(
    kinds: Seq<Seq<char>>,
    depth: nat,
    history: Seq<Seq<char>>,
    kind: Seq<char>,
)
    requires
        1 <= history.len() <= depth,
        forall|j: int| 0 <= j < history.len() ==> kinds.contains(#[trigger] history[j]),
        kinds.contains(kind),
    ensures
        facts_to_depth(kinds, depth).contains(fact_model(history, kind)),
    decreases depth,
{
    let fm = fact_model(history, kind);
    let prefix = facts_to_depth(kinds, (depth - 1) as nat);
    let at_depth = facts_at_depth(kinds, depth);
    lemma_concat_contains(prefix, at_depth, fm);
    if history.len() == depth {
        let histories = all_histories(kinds, depth);
        lemma_all_histories_contains(kinds, depth, history);
        let j = choose|j: int| 0 <= j < histories.len() && histories[j] == history;
        let i = choose|i: int| 0 <= i < kinds.len() && kinds[i] == kind;
        lemma_facts_step_contains(kinds, histories, fm);
        assert(0 <= i < kinds.len() && 0 <= j < histories.len() && fm == fact_model(
            histories[j],
            kinds[i],
        ));
    } else {
        lemma_facts_complete(kinds, (depth - 1) as nat, history, kind);
    }
}

proof fn lemma_histories_step_snoc(
    kinds: Seq<Seq<char>>,
    tails: Seq<Seq<Seq<char>>>,
    kind: Seq<char>,
)
    ensures
        histories_step(kinds.push(kind), tails) == histories_step(kinds, tails) + prepend_to_each(
            kind,
            tails,
        ),
    decreases kinds.len(),
{
    if kinds.len() == 0 {
        assert(kinds.push(kind).first() == kind);
        assert(kinds.push(kind).drop_first() =~= Seq::<Seq<char>>::empty());
        assert(histories_step(kinds.push(kind), tails) == prepend_to_each(kind, tails)
            + histories_step(Seq::<Seq<char>>::empty(), tails));
        assert(histories_step(Seq::<Seq<char>>::empty(), tails) == Seq::<Seq<Seq<char>>>::empty());
        assert(histories_step(kinds, tails) == Seq::<Seq<Seq<char>>>::empty());
        assert(prepend_to_each(kind, tails) + Seq::<Seq<Seq<char>>>::empty() =~= Seq::<
            Seq<Seq<char>>,
        >::empty() + prepend_to_each(kind, tails));
    } else {
        let head = prepend_to_each(kinds.first(), tails);
        let rest = histories_step(kinds.drop_first(), tails);
        assert(kinds.push(kind).first() == kinds.first());
        assert(kinds.push(kind).drop_first() =~= kinds.drop_first().push(kind));
        assert(histories_step(kinds.push(kind), tails) == head + histories_step(
            kinds.drop_first().push(kind),
            tails,
        ));
        lemma_histories_step_snoc(kinds.drop_first(), tails, kind);
        assert(histories_step(kinds.push(kind), tails) == head + (rest + prepend_to_each(
            kind,
            tails,
        )));
        assert(head + (rest + prepend_to_each(kind, tails)) =~= (head + rest) + prepend_to_each(
            kind,
            tails,
        ));
        assert(histories_step(kinds, tails) == head + rest);
    }
}

proof fn lemma_facts_step_snoc(
    kinds: Seq<Seq<char>>,
    histories: Seq<Seq<Seq<char>>>,
    kind: Seq<char>,
)
    ensures
        facts_step(kinds.push(kind), histories) == facts_step(kinds, histories) + facts_for_kind(
            histories,
            kind,
        ),
    decreases kinds.len(),
{
    if kinds.len() == 0 {
        assert(kinds.push(kind).first() == kind);
        assert(kinds.push(kind).drop_first() =~= Seq::<Seq<char>>::empty());
        assert(facts_step(kinds.push(kind), histories) == facts_for_kind(histories, kind)
            + facts_step(Seq::<Seq<char>>::empty(), histories));
        assert(facts_step(Seq::<Seq<char>>::empty(), histories) == Seq::<FactModel>::empty());
        assert(facts_step(kinds, histories) == Seq::<FactModel>::empty());
        assert(facts_for_kind(histories, kind) + Seq::<FactModel>::empty() =~= Seq::<
            FactModel,
        >::empty() + facts_for_kind(histories, kind));
    } else {
        let head = facts_for_kind(histories, kinds.first());
        let rest = facts_step(kinds.drop_first(), histories);
        assert(kinds.push(kind).first() == kinds.first());
        assert(kinds.push(kind).drop_first() =~= kinds.drop_first().push(kind));
        assert(facts_step(kinds.push(kind), histories) == head + facts_step(
            kinds.drop_first().push(kind),
            histories,
        ));
        lemma_facts_step_snoc(kinds.drop_first(), histories, kind);
        assert(facts_step(kinds.push(kind), histories) == head + (rest + facts_for_kind(
            histories,
            kind,
        )));
        assert(head + (rest + facts_for_kind(histories, kind)) =~= (head + rest) + facts_for_kind(
            histories,
            kind,
        ));
        assert(facts_step(kinds, histories) == head + rest);
    }
}

proof fn lemma_push_deep_view_string(v1: Vec<String>, v2: Vec<String>, s: String)
    requires
        v2@ == v1@.push(s),
    ensures
        v2.deep_view() == v1.deep_view().push(s@),
{
    assert(v2.deep_view() =~= v1.deep_view().push(s@));
}

proof fn lemma_push_deep_view_history(v1: Vec<Vec<String>>, v2: Vec<Vec<String>>, h: Vec<String>)
    requires
        v2@ == v1@.push(h),
    ensures
        v2.deep_view() == v1.deep_view().push(h.deep_view()),
{
    assert(v2.deep_view() =~= v1.deep_view().push(h.deep_view()));
}

fn clone_history(h: &Vec<String>) -> (r: Vec<String>)
    ensures
        r@ == h@,
        r.deep_view() == h.deep_view(),
{
    let mut r: Vec<String> = Vec::new();
    let mut i: usize = 0;
    while i < h.len()
        invariant
            i <= h.len(),
            r@ == h@.take(i as int),
        decreases h.len() - i,
    {
        r.push(h[i].clone());
        proof {
            assert(h@.take(i as int).push(h@[i as int]) =~= h@.take(i as int + 1));
        }
        i += 1;
    }
    proof {
        assert(h@.take(h@.len() as int) =~= h@);
        assert(r.deep_view() =~= h.deep_view());
    }
    r
}

fn histories_of_len(kinds: &Vec<String>, d: usize) -> (r: Vec<Vec<String>>)
    ensures
        r.deep_view() == all_histories(kinds.deep_view(), d as nat),
    decreases d,
{
    let ghost kdv = kinds.deep_view();
    let mut r: Vec<Vec<String>> = Vec::new();
    if d == 0 {
        let empty: Vec<String> = Vec::new();
        r.push(empty);
        proof {
            assert(r.deep_view() =~~= seq![Seq::<Seq<char>>::empty()]);
        }
        return r;
    }
    let tails = histories_of_len(kinds, d - 1);
    let ghost tdv = tails.deep_view();
    proof {
        assert(r.deep_view() =~= histories_step(kdv.take(0), tdv));
    }
    let mut ki: usize = 0;
    while ki < kinds.len()
        invariant
            ki <= kinds.len(),
            kdv == kinds.deep_view(),
            tdv == tails.deep_view(),
            tdv == all_histories(kdv, (d - 1) as nat),
            d >= 1,
            r.deep_view() == histories_step(kdv.take(ki as int), tdv),
        decreases kinds.len() - ki,
    {
        let mut hi: usize = 0;
        while hi < tails.len()
            invariant
                hi <= tails.len(),
                ki < kinds.len(),
                kdv == kinds.deep_view(),
                tdv == tails.deep_view(),
                r.deep_view() == histories_step(kdv.take(ki as int), tdv) + prepend_to_each(
                    kdv[ki as int],
                    tdv.take(hi as int),
                ),
            decreases tails.len() - hi,
        {
            let mut h: Vec<String> = Vec::new();
            h.push(kinds[ki].clone());
            proof {
                assert(h.deep_view() =~= seq![kdv[ki as int]] + tdv[hi as int].take(0));
            }
            let tail_len = tails[hi].len();
            let mut x: usize = 0;
            while x < tail_len
                invariant
                    x <= tail_len,
                    ki < kinds.len(),
                    hi < tails.len(),
                    kdv == kinds.deep_view(),
                    tdv == tails.deep_view(),
                    tail_len == tails@[hi as int]@.len(),
                    h.deep_view() == seq![kdv[ki as int]] + tdv[hi as int].take(x as int),
                decreases tail_len - x,
            {
                let s = tails[hi][x].clone();
                let ghost h_prev = h;
                h.push(s);
                proof {
                    assert(s@ == tdv[hi as int][x as int]);
                    lemma_push_deep_view_string(h_prev, h, s);
                    assert((seq![kdv[ki as int]] + tdv[hi as int].take(x as int)).push(
                        tdv[hi as int][x as int],
                    ) =~= seq![kdv[ki as int]] + tdv[hi as int].take(x as int + 1));
                }
                x += 1;
            }
            proof {
                assert(tdv[hi as int].take(tail_len as int) =~= tdv[hi as int]);
            }
            let ghost r_prev = r;
            r.push(h);
            proof {
                lemma_push_deep_view_history(r_prev, r, h);
                assert(prepend_to_each(kdv[ki as int], tdv.take(hi as int)).push(
                    seq![kdv[ki as int]] + tdv[hi as int],
                ) =~= prepend_to_each(kdv[ki as int], tdv.take(hi as int + 1)));
                assert(r.deep_view() =~= histories_step(kdv.take(ki as int), tdv)
                    + prepend_to_each(kdv[ki as int], tdv.take(hi as int + 1)));
            }
            hi += 1;
        }
        proof {
            assert(tdv.take(tails@.len() as int) =~= tdv);
            lemma_histories_step_snoc(kdv.take(ki as int), tdv, kdv[ki as int]);
            assert(kdv.take(ki as int).push(kdv[ki as int]) =~= kdv.take(ki as int + 1));
        }
        ki += 1;
    }
    proof {
        assert(kdv.take(kinds@.len() as int) =~= kdv);
    }
    r
}

fn facts_for_kind_exec(hists: &Vec<Vec<String>>, kind: &String) -> (r: Vec<Fact>)
    ensures
        models(r@) == facts_for_kind(hists.deep_view(), kind@),
{
    let ghost hdv = hists.deep_view();
    let mut r: Vec<Fact> = Vec::new();
    proof {
        assert(models(r@) =~= facts_for_kind(hdv.take(0), kind@));
    }
    let mut hi: usize = 0;
    while hi < hists.len()
        invariant
            hi <= hists.len(),
            hdv == hists.deep_view(),
            models(r@) == facts_for_kind(hdv.take(hi as int), kind@),
        decreases hists.len() - hi,
    {
        let v = crate::relation::verdict(&hists[hi], kind);
        let history = clone_history(&hists[hi]);
        let f = Fact { history, kind: kind.clone(), verdict: v };
        proof {
            assert(f@ == fact_model(hdv[hi as int], kind@));
        }
        r.push(f);
        proof {
            assert(models(r@) =~= facts_for_kind(hdv.take(hi as int), kind@).push(
                fact_model(hdv[hi as int], kind@),
            ));
            assert(facts_for_kind(hdv.take(hi as int + 1), kind@) =~= facts_for_kind(
                hdv.take(hi as int),
                kind@,
            ).push(fact_model(hdv[hi as int], kind@)));
        }
        hi += 1;
    }
    proof {
        assert(hdv.take(hists@.len() as int) =~= hdv);
    }
    r
}

fn facts_step_exec(kinds: &Vec<String>, hists: &Vec<Vec<String>>) -> (r: Vec<Fact>)
    ensures
        models(r@) == facts_step(kinds.deep_view(), hists.deep_view()),
{
    let ghost kdv = kinds.deep_view();
    let ghost hdv = hists.deep_view();
    let mut r: Vec<Fact> = Vec::new();
    proof {
        assert(models(r@) =~= facts_step(kdv.take(0), hdv));
    }
    let mut ki: usize = 0;
    while ki < kinds.len()
        invariant
            ki <= kinds.len(),
            kdv == kinds.deep_view(),
            hdv == hists.deep_view(),
            models(r@) == facts_step(kdv.take(ki as int), hdv),
        decreases kinds.len() - ki,
    {
        let mut chunk = facts_for_kind_exec(hists, &kinds[ki]);
        let ghost chunk_models = models(chunk@);
        let ghost r_models = models(r@);
        r.append(&mut chunk);
        proof {
            assert(models(r@) =~= r_models + chunk_models);
            lemma_facts_step_snoc(kdv.take(ki as int), hdv, kdv[ki as int]);
            assert(kdv.take(ki as int).push(kdv[ki as int]) =~= kdv.take(ki as int + 1));
        }
        ki += 1;
    }
    proof {
        assert(kdv.take(kinds@.len() as int) =~= kdv);
    }
    r
}

/// Whether a character may open a kind name.
pub open spec fn is_ident_start_char(c: char) -> bool {
    c == '_' || ('a' <= c && c <= 'z') || ('A' <= c && c <= 'Z')
}

/// Whether a character may continue a kind name.
pub open spec fn is_ident_continue_char(c: char) -> bool {
    is_ident_start_char(c) || ('0' <= c && c <= '9')
}

/// Whether a kind name has identifier shape: non-empty, opened by a letter
/// or underscore, continued by letters, digits and underscores.
pub open spec fn is_valid_kind_name(name: Seq<char>) -> bool {
    &&& name.len() > 0
    &&& is_ident_start_char(name[0])
    &&& forall|i: int| 1 <= i < name.len() ==> is_ident_continue_char(#[trigger] name[i])
}

/// Whether every configured kind name has identifier shape.
pub open spec fn all_names_valid(kinds: Seq<Seq<char>>) -> bool {
    forall|i: int| 0 <= i < kinds.len() ==> is_valid_kind_name(#[trigger] kinds[i])
}

/// Whether no kind name repeats.
pub open spec fn names_distinct(kinds: Seq<Seq<char>>) -> bool {
    forall|i: int, j: int| 0 <= i < j < kinds.len() ==> kinds[i] != kinds[j]
}

fn check_kind_name(name: &String) -> (ok: bool)
    ensures
        ok == is_valid_kind_name(name@),
{
    let s = name.as_str();
    let n = s.unicode_len();
    if n == 0 {
        return false;
    }
    let c0 = s.get_char(0);
    if !(c0 == '_' || ('a' <= c0 && c0 <= 'z') || ('A' <= c0 && c0 <= 'Z')) {
        return false;
    }
    let mut i: usize = 1;
    while i < n
        invariant
            1 <= i <= n,
            n == s@.len(),
            s@ == name@,
            is_ident_start_char(s@[0]),
            forall|j: int| 1 <= j < i ==> is_ident_continue_char(#[trigger] s@[j]),
        decreases n - i,
    {
        let c = s.get_char(i);
        if !(c == '_' || ('a' <= c && c <= 'z') || ('A' <= c && c <= 'Z') || ('0' <= c && c
            <= '9')) {
            return false;
        }
        i += 1;
    }
    true
}

fn check_distinct(kinds: &Vec<String>) -> (ok: bool)
    ensures
        ok == names_distinct(kinds.deep_view()),
{
    let ghost kdv = kinds.deep_view();
    let mut i: usize = 0;
    while i < kinds.len()
        invariant
            i <= kinds.len(),
            kdv == kinds.deep_view(),
            forall|a: int, b: int| 0 <= a < b < kdv.len() && a < i ==> kdv[a] != kdv[b],
        decreases kinds.len() - i,
    {
        let mut j: usize = i + 1;
        while j < kinds.len()
            invariant
                i < j <= kinds.len(),
                i < kinds.len(),
                kdv == kinds.deep_view(),
                forall|b: int| i < b < j ==> kdv[i as int] != kdv[b],
            decreases kinds.len() - j,
        {
            if kinds[i] == kinds[j] {
                proof {
                    assert(kdv[i as int] == kdv[j as int]);
                }
                return false;
            }
            j += 1;
        }
        i += 1;
    }
    true
}

/// Why a generator configuration was rejected.
#[derive(Clone, Copy, PartialEq, Eq, Structural, Debug)]
pub enum ConfigError {
    NegativeDepth,
    InvalidKind,
    DuplicateKind,
}

/// A validated generator configuration: a maximum depth and an ordered set
/// of distinct, identifier-shaped marker kinds.
pub struct RelationConfig {
    depth: usize,
    kinds: Vec<String>,
}

impl RelationConfig {
    /// The maximum history depth.
    pub closed spec fn depth(&self) -> nat {
        self.depth as nat
    }

    /// The configured kind names, in order.
    pub closed spec fn kinds(&self) -> Seq<Seq<char>> {
        self.kinds.deep_view()
    }

    /// Validates a configuration: the depth must not be negative, and the
    /// kind names must all have identifier shape, with no repeats. Each
    /// rejection names the first rule broken, in that order.
    pub fn new(depth: i32, kinds: Vec<String>) -> (r: Result<RelationConfig, ConfigError>)
        ensures
            match r {
                Ok(config) => {
                    &&& depth >= 0
                    &&& all_names_valid(kinds.deep_view())
                    &&& names_distinct(kinds.deep_view())
                    &&& config.depth() == depth as nat
                    &&& config.kinds() == kinds.deep_view()
                },
                Err(e) => {
                    &&& (e == ConfigError::NegativeDepth <==> depth < 0)
                    &&& (e == ConfigError::InvalidKind <==> (depth >= 0 && !all_names_valid(
                        kinds.deep_view(),
                    )))
                    &&& (e == ConfigError::DuplicateKind <==> (depth >= 0 && all_names_valid(
                        kinds.deep_view(),
                    ) && !names_distinct(kinds.deep_view())))
                },
            },
    {
        if depth < 0 {
            return Err(ConfigError::NegativeDepth);
        }
        let ghost kdv = kinds.deep_view();
        let mut i: usize = 0;
        while i < kinds.len()
            invariant
                depth >= 0,
                i <= kinds.len(),
                kdv == kinds.deep_view(),
                forall|j: int| 0 <= j < i ==> is_valid_kind_name(#[trigger] kdv[j]),
            decreases kinds.len() - i,
        {
            if !check_kind_name(&kinds[i]) {
                proof {
                    assert(!is_valid_kind_name(kdv[i as int]));
                    assert(!all_names_valid(kdv));
                }
                return Err(ConfigError::InvalidKind);
            }
            i += 1;
        }
        if !check_distinct(&kinds) {
            return Err(ConfigError::DuplicateKind);
        }
        Ok(RelationConfig { depth: depth as usize, kinds })
    }

    /// Generates the whole fact table for this configuration: depth by
    /// depth from 1, kind by kind, histories in lexicographic order. The
    /// table is exactly [`facts_to_depth`] of the configuration, and holds
    /// [`fact_count`] facts.
    pub fn generate(&self) -> (facts: Vec<Fact>)
        ensures
            models(facts@) == facts_to_depth(self.kinds(), self.depth()),
            facts@.len() == fact_count(self.kinds().len(), self.depth()),
    {
        let ghost kdv = self.kinds.deep_view();
        let mut facts: Vec<Fact> = Vec::new();
        proof {
            assert(models(facts@) =~= facts_to_depth(kdv, 0));
        }
        let mut dm: usize = 0;
        while dm < self.depth
            invariant
                dm <= self.depth,
                kdv == self.kinds.deep_view(),
                models(facts@) == facts_to_depth(kdv, dm as nat),
            decreases self.depth - dm,
        {
            let d = dm + 1;
            let hists = histories_of_len(&self.kinds, d);
            let mut chunk = facts_step_exec(&self.kinds, &hists);
            let ghost chunk_models = models(chunk@);
            let ghost facts_models = models(facts@);
            facts.append(&mut chunk);
            proof {
                assert(models(facts@) =~= facts_models + chunk_models);
                assert(chunk_models == facts_at_depth(kdv, d as nat));
            }
            dm = d;
        }
        proof {
            lemma_facts_to_depth_len(kdv, self.depth as nat);
        }
        facts
    }

    /// The configured kind names, for callers that enumerate them.
    pub fn kind_names(&self) -> (r: &Vec<String>)
        ensures
            r.deep_view() == self.kinds(),
    {
        &self.kinds
    }

    /// The configured maximum depth.
    pub fn max_depth(&self) -> (r: usize)
        ensures
            r as nat == self.depth(),
    {
        self.depth
    }
}

} // verus!
