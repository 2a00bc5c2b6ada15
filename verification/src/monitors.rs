//! Keeping one minimap per connected output.
//!
//! Each minimap is bound to one output for its whole life; when the set of
//! monitors changes, minimaps of vanished outputs are dropped and new ones
//! are built for outputs that have none.

use vstd::prelude::*;

verus! {

/// What to do for one monitor in the live list.
#[derive(Clone, Copy, Debug, PartialEq, Eq, Structural)]
pub enum MonitorStep {
    /// The monitor has no connector name yet: wait for it
    AwaitName,
    /// The output has no minimap: build one
    Create,
    /// The output already has a minimap
    Present,
}

/// The reconciliation of the minimap list with the live monitors.
#[derive(Debug)]
pub struct ReconcilePlan {
    /// For each current minimap (by position), whether its output is still
    /// live
    pub keep: Vec<bool>,
    /// For each live monitor (by position), what to do
    pub steps: Vec<MonitorStep>,
}

/// Whether a monitor's connector name is `n`.
pub open spec fn is_named(o: Option<String>, n: Seq<char>) -> bool {
    match o {
        Some(s) => s@ == n,
        None => false,
    }
}

/// The characters of each string in a list, as a set.
pub open spec fn name_set(v: Seq<String>) -> Set<Seq<char>> {
    Set::new(|n: Seq<char>| exists|k: int| 0 <= k < v.len() && (#[trigger] v[k])@ == n)
}

/// Appending a string adds its characters to the set.
proof fn lemma_name_set_push(v: Seq<String>, s: String)
    ensures
        name_set(v.push(s)) == name_set(v).insert(s@),
{
    assert forall|n: Seq<char>| name_set(v.push(s)).contains(n) <==> name_set(v).insert(s@).contains(n) by {
        if name_set(v).contains(n) {
            let k = choose|k: int| 0 <= k < v.len() && (#[trigger] v[k])@ == n;
            assert(v.push(s)[k]@ == n);
        }
        if n == s@ {
            assert(v.push(s)[v.len() as int]@ == n);
        }
        if name_set(v.push(s)).contains(n) {
            let k = choose|k: int| 0 <= k < v.len() + 1 && (#[trigger] v.push(s)[k])@ == n;
            if k < v.len() {
                assert(v[k]@ == n);
            }
        }
    }
    assert(name_set(v.push(s)) =~= name_set(v).insert(s@));
}

/// The names of the live monitors that have one.
pub open spec fn live_names(live: Seq<Option<String>>) -> Set<Seq<char>> {
    Set::new(|n: Seq<char>| exists|j: int| 0 <= j < live.len() && is_named(#[trigger] live[j], n))
}

/// The outputs of the kept minimaps.
pub open spec fn kept_outputs(current: Seq<String>, live: Seq<Option<String>>) -> Set<Seq<char>> {
    Set::new(|n: Seq<char>| exists|i: int| 0 <= i < current.len() && (#[trigger] current[i])@ == n && live_names(live).contains(n))
}

/// The steps for the live monitors, in order, given the outputs that
/// already have a minimap; an output named twice gets one minimap.
pub open spec fn plan_steps(known: Set<Seq<char>>, live: Seq<Option<String>>) -> Seq<MonitorStep>
    decreases live.len(),
{
    if live.len() == 0 {
        Seq::empty()
    } else {
        match live[0] {
            None => seq![MonitorStep::AwaitName] + plan_steps(known, live.drop_first()),
            Some(o) => if known.contains(o@) {
                seq![MonitorStep::Present] + plan_steps(known, live.drop_first())
            } else {
                seq![MonitorStep::Create] + plan_steps(known.insert(o@), live.drop_first())
            },
        }
    }
}

/// Whether a name is among the names of the live monitors.
fn live_has(live: &Vec<Option<String>>, name: &String) -> (b: bool)
    ensures
        b == live_names(live@).contains(name@),
{
    let mut j: usize = 0;
    while j < live.len()
        invariant
            j <= live@.len(),
            forall|q: int| 0 <= q < j ==> !is_named(#[trigger] live@[q], name@),
        decreases live@.len() - j,
    {
        if let Some(o) = &live[j] {
            if *o == *name {
                proof {
                    assert(is_named(live@[j as int], name@));
                }
                return true;
            }
        }
        j += 1;
    }
    false
}

/// Whether a name is among the names of a list.
fn list_has(v: &Vec<String>, name: &String) -> (b: bool)
    ensures
        b == name_set(v@).contains(name@),
{
    let mut k: usize = 0;
    while k < v.len()
        invariant
            k <= v@.len(),
            forall|q: int| 0 <= q < k ==> (#[trigger] v@[q])@ != name@,
        decreases v@.len() - k,
    {
        if v[k] == *name {
            proof {
                assert(v@[k as int]@ == name@);
            }
            return true;
        }
        k += 1;
    }
    false
}

/// Decide which minimaps stay (their output is still live) and, for each
/// live monitor in order, whether to wait for its name, build a minimap, or
/// leave the existing one.
pub fn plan_reconcile(current: &Vec<String>, live: &Vec<Option<String>>) -> (p: ReconcilePlan)
    ensures
        p.keep@.len() == current@.len(),
        forall|i: int| 0 <= i < current@.len() ==> p.keep@[i] == live_names(live@).contains((#[trigger] current@[i])@),
        p.steps@ == plan_steps(kept_outputs(current@, live@), live@),
{
    let mut keep: Vec<bool> = Vec::new();
    let mut known: Vec<String> = Vec::new();
    let mut i: usize = 0;
    while i < current.len()
        invariant
            i <= current@.len(),
            keep@.len() == i,
            forall|q: int| 0 <= q < i ==> keep@[q] == live_names(live@).contains((#[trigger] current@[q])@),
            name_set(known@) == kept_outputs(current@.take(i as int), live@),
        decreases current@.len() - i,
    {
        let name = &current[i];
        let b = live_has(live, name);
        keep.push(b);
        let ghost before = known@;
        if b {
            let c = name.clone();
            known.push(c);
            proof {
                lemma_name_set_push(before, c);
            }
        }
        proof {
            assert(current@.take(i + 1) =~= current@.take(i as int).push(current@[i as int]));
            assert forall|n: Seq<char>| #[trigger] kept_outputs(current@.take(i + 1), live@).contains(n) <==>
                (kept_outputs(current@.take(i as int), live@).contains(n) || (b && n == current@[i as int]@)) by {
                if kept_outputs(current@.take(i as int), live@).contains(n) {
                    let q = choose|q: int| 0 <= q < i && (#[trigger] current@.take(i as int)[q])@ == n && live_names(live@).contains(n);
                    assert(current@.take(i + 1)[q]@ == n);
                }
                if b && n == current@[i as int]@ {
                    assert(current@.take(i + 1)[i as int]@ == n);
                }
                if kept_outputs(current@.take(i + 1), live@).contains(n) {
                    let q = choose|q: int| 0 <= q < i + 1 && (#[trigger] current@.take(i + 1)[q])@ == n && live_names(live@).contains(n);
                    if q < i {
                        assert(current@.take(i as int)[q]@ == n);
                    }
                }
            }
            assert(name_set(known@) =~= kept_outputs(current@.take(i + 1), live@));
        }
        i += 1;
    }
    proof {
        assert(current@.take(current@.len() as int) =~= current@);
    }
    let ghost known0 = kept_outputs(current@, live@);
    let mut steps: Vec<MonitorStep> = Vec::new();
    let mut j: usize = 0;
    proof {
        assert(live@.skip(0) =~= live@);
    }
    while j < live.len()
        invariant
            j <= live@.len(),
            steps@ + plan_steps(name_set(known@), live@.skip(j as int)) == plan_steps(known0, live@),
        decreases live@.len() - j,
    {
        let ghost ks = name_set(known@);
        proof {
            assert(live@.skip(j as int)[0] == live@[j as int]);
            assert(live@.skip(j as int).drop_first() =~= live@.skip(j + 1));
        }
        match &live[j] {
            None => {
                steps.push(MonitorStep::AwaitName);
                proof {
                    assert(steps@ + plan_steps(ks, live@.skip(j + 1)) =~= steps@.drop_last() + plan_steps(ks, live@.skip(j as int)));
                }
            },
            Some(o) => {
                if list_has(&known, o) {
                    steps.push(MonitorStep::Present);
                    proof {
                        assert(steps@ + plan_steps(ks, live@.skip(j + 1)) =~= steps@.drop_last() + plan_steps(ks, live@.skip(j as int)));
                    }
                } else {
                    let ghost before = known@;
                    let c = o.clone();
                    known.push(c);
                    steps.push(MonitorStep::Create);
                    proof {
                        lemma_name_set_push(before, c);
                        assert(steps@ + plan_steps(name_set(known@), live@.skip(j + 1)) =~= steps@.drop_last() + plan_steps(ks, live@.skip(j as int)));
                    }
                }
            },
        }
        j += 1;
    }
    proof {
        assert(live@.skip(live@.len() as int) =~= Seq::<Option<String>>::empty());
        assert(steps@ =~= steps@ + Seq::<MonitorStep>::empty());
    }
    ReconcilePlan { keep, steps }
}

/// Whether step `j` builds a minimap for the output named `n`.
pub open spec fn creates(steps: Seq<MonitorStep>, live: Seq<Option<String>>, j: int, n: Seq<char>) -> bool {
    0 <= j < steps.len() && j < live.len() && steps[j] == MonitorStep::Create && is_named(live[j], n)
}

/// The outputs the steps build a minimap for.
pub open spec fn created_outputs(steps: Seq<MonitorStep>, live: Seq<Option<String>>) -> Set<Seq<char>> {
    Set::new(|n: Seq<char>| exists|j: int| #[trigger] creates(steps, live, j, n))
}

/// The steps, given the outputs that already have a minimap, build one for
/// every other live output, once, and wait exactly for the unnamed monitors.
proof fn lemma_plan_steps(known: Set<Seq<char>>, live: Seq<Option<String>>)
    ensures
        plan_steps(known, live).len() == live.len(),
        forall|j: int| 0 <= j < live.len() ==>
            (#[trigger] plan_steps(known, live)[j] == MonitorStep::AwaitName) == (live[j] is None),
        known + created_outputs(plan_steps(known, live), live) == known + live_names(live),
        forall|n: Seq<char>| #[trigger] created_outputs(plan_steps(known, live), live).contains(n) ==> !known.contains(n),
        forall|i: int, j: int, n: Seq<char>| #[trigger] creates(plan_steps(known, live), live, i, n)
            && #[trigger] creates(plan_steps(known, live), live, j, n) ==> i == j,
    decreases live.len(),
{
    let p = plan_steps(known, live);
    if live.len() == 0 {
        assert(created_outputs(p, live) =~= Set::empty());
        assert(live_names(live) =~= Set::empty());
        assert(known + created_outputs(p, live) =~= known + live_names(live));
    } else {
        let rest = live.drop_first();
        let k2 = match live[0] {
            Some(o) => if known.contains(o@) { known } else { known.insert(o@) },
            None => known,
        };
        lemma_plan_steps(k2, rest);
        let q = plan_steps(k2, rest);
        assert(p == seq![p[0]] + q);
        assert forall|j: int, n: Seq<char>| 0 <= j < rest.len() implies
            #[trigger] creates(q, rest, j, n) == creates(p, live, j + 1, n) by {
            assert(p[j + 1] == q[j]);
            assert(live[j + 1] == rest[j]);
        }
        assert forall|n: Seq<char>| #[trigger] created_outputs(p, live).contains(n) <==>
            (created_outputs(q, rest).contains(n) || creates(p, live, 0, n)) by {
            if created_outputs(p, live).contains(n) {
                let j = choose|j: int| #[trigger] creates(p, live, j, n);
                if j > 0 {
                    assert(creates(q, rest, j - 1, n));
                }
            }
            if created_outputs(q, rest).contains(n) {
                let j = choose|j: int| #[trigger] creates(q, rest, j, n);
                assert(creates(p, live, j + 1, n));
            }
        }
        assert forall|n: Seq<char>| #[trigger] live_names(live).contains(n) <==>
            (live_names(rest).contains(n) || is_named(live[0], n)) by {
            if live_names(live).contains(n) {
                let j = choose|j: int| 0 <= j < live.len() && is_named(#[trigger] live[j], n);
                if j > 0 {
                    assert(rest[j - 1] == live[j]);
                }
            }
            if live_names(rest).contains(n) {
                let j = choose|j: int| 0 <= j < rest.len() && is_named(#[trigger] rest[j], n);
                assert(live[j + 1] == rest[j]);
            }
            if is_named(live[0], n) {
                assert(live[0] == live[0]);
            }
        }
        assert((known + created_outputs(p, live)) =~= (known + live_names(live))) by {
            assert forall|n: Seq<char>| (known + created_outputs(p, live)).contains(n) <==>
                (known + live_names(live)).contains(n) by {
                assert((k2 + created_outputs(q, rest)).contains(n) == (k2 + live_names(rest)).contains(n));
            }
        }
        assert forall|i: int, j: int, n: Seq<char>| #[trigger] creates(p, live, i, n)
            && #[trigger] creates(p, live, j, n) implies i == j by {
            if i > 0 && j > 0 {
                assert(creates(q, rest, i - 1, n) && creates(q, rest, j - 1, n));
            } else if i == 0 && j > 0 {
                assert(creates(q, rest, j - 1, n));
                assert(created_outputs(q, rest).contains(n));
            } else if j == 0 && i > 0 {
                assert(creates(q, rest, i - 1, n));
                assert(created_outputs(q, rest).contains(n));
            }
        }
        assert forall|j: int| 0 <= j < live.len() implies
            (#[trigger] p[j] == MonitorStep::AwaitName) == (live[j] is None) by {
            if j > 0 {
                assert(p[j] == q[j - 1]);
                assert(live[j] == rest[j - 1]);
            }
        }
    }
}

/// After reconciliation every live output has exactly one minimap: the kept
/// minimaps and the built ones together cover the named live monitors, no
/// output is built twice or built beside a kept minimap, and exactly the
/// monitors without a name are waited for.
pub proof fn law_reconcile_one_minimap_per_output(current: Seq<String>, live: Seq<Option<String>>)
    ensures
        kept_outputs(current, live) + created_outputs(plan_steps(kept_outputs(current, live), live), live)
            == live_names(live),
        forall|n: Seq<char>| #[trigger] created_outputs(plan_steps(kept_outputs(current, live), live), live).contains(n)
            ==> !kept_outputs(current, live).contains(n),
        forall|i: int, j: int, n: Seq<char>| #[trigger] creates(plan_steps(kept_outputs(current, live), live), live, i, n)
            && #[trigger] creates(plan_steps(kept_outputs(current, live), live), live, j, n) ==> i == j,
        forall|j: int| 0 <= j < live.len() ==>
            (#[trigger] plan_steps(kept_outputs(current, live), live)[j] == MonitorStep::AwaitName) == (live[j] is None),
{
    let k = kept_outputs(current, live);
    lemma_plan_steps(k, live);
    assert(k + live_names(live) =~= live_names(live));
}

} // verus!
