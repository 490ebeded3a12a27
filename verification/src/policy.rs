//! From verdicts to a decision.
use vstd::prelude::*;

use crate::config::{GroupMode, Mode};
use crate::detectors::{Group, Verdict};

verus! {

/// What happens to a request.
#[derive(Debug, Clone, Copy, PartialEq, Eq, Structural)]
pub enum Action {
    /// It proceeds.
    Allow,
    /// It is answered with an error.
    Block,
}

/// The decision on one request.
#[derive(Debug)]
pub struct Decision {
    /// Whether the request proceeds.
    pub action: Action,
    /// The verdict that blocks it, if any.
    pub blocked_by: Option<Verdict>,
    /// The verdicts that were seen and did not block.
    pub would_block: Vec<Verdict>,
}

/// A verdict of a group in mode `gm` can block a request.
pub open spec fn enforces(global: Mode, gm: GroupMode) -> bool {
    global == Mode::Enforce && gm == GroupMode::Enforce
}

/// The verdicts that can block, in order. `modes[i]` is the mode of the group
/// of `vs[i]`.
pub open spec fn enforced(vs: Seq<Verdict>, modes: Seq<GroupMode>, global: Mode) -> Seq<Verdict>
    decreases vs.len(),
{
    if vs.len() == 0 {
        Seq::empty()
    } else {
        let before = enforced(vs.drop_last(), modes.drop_last(), global);
        if enforces(global, modes.last()) {
            before.push(vs.last())
        } else {
            before
        }
    }
}

/// The verdicts that are reported only, in order.
pub open spec fn observed(vs: Seq<Verdict>, modes: Seq<GroupMode>, global: Mode) -> Seq<Verdict>
    decreases vs.len(),
{
    if vs.len() == 0 {
        Seq::empty()
    } else {
        let before = observed(vs.drop_last(), modes.drop_last(), global);
        if modes.last() != GroupMode::Off && !enforces(global, modes.last()) {
            before.push(vs.last())
        } else {
            before
        }
    }
}

/// The verdicts of groups that are not off, in order.
pub open spec fn active(vs: Seq<Verdict>, modes: Seq<GroupMode>) -> Seq<Verdict>
    decreases vs.len(),
{
    if vs.len() == 0 {
        Seq::empty()
    } else {
        let before = active(vs.drop_last(), modes.drop_last());
        if modes.last() != GroupMode::Off {
            before.push(vs.last())
        } else {
            before
        }
    }
}

/// `vs[i]` is the most severe verdict, and the first of those.
pub open spec fn is_worst(vs: Seq<Verdict>, i: int) -> bool {
    &&& 0 <= i < vs.len()
    &&& forall|j: int|
        0 <= j < vs.len() ==> (#[trigger] vs[j]).severity.rank() <= vs[i].severity.rank()
    &&& forall|j: int| 0 <= j < i ==> (#[trigger] vs[j]).severity.rank() < vs[i].severity.rank()
}

/// What is left when `vs[i]` is taken out and the last verdict moves there.
pub open spec fn taken_out(vs: Seq<Verdict>, i: int) -> Seq<Verdict> {
    vs.update(i, vs.last()).drop_last()
}

/// `d` is the decision on `vs`: the worst enforced verdict blocks; what was
/// only observed comes first among the rest, then the other enforced ones.
pub open spec fn decides(
    vs: Seq<Verdict>,
    modes: Seq<GroupMode>,
    global: Mode,
    d: Decision,
) -> bool {
    let e = enforced(vs, modes, global);
    let o = observed(vs, modes, global);
    if e.len() == 0 {
        d.action == Action::Allow && d.blocked_by is None && d.would_block@ == o
    } else {
        d.action == Action::Block && exists|i: int|
            #![trigger e[i]]
            is_worst(e, i) && d.blocked_by == Some(e[i]) && d.would_block@ == o + taken_out(e, i)
    }
}

/// `modes` are answers that `group_mode` gives for the groups of `vs`.
pub open spec fn modes_of<F: Fn(Group) -> GroupMode>(
    group_mode: F,
    vs: Seq<Verdict>,
    modes: Seq<GroupMode>,
) -> bool {
    &&& modes.len() == vs.len()
    &&& forall|i: int|
        0 <= i < vs.len() ==> call_ensures(group_mode, (vs[i].group,), #[trigger] modes[i])
}

/// Resolves verdicts into a decision.
///
/// A verdict blocks only where both the global mode and the mode of its group
/// enforce. Of several that could block, the most severe one does, and the
/// first of those on a tie; the others are demoted to `would_block`.
pub fn decide<F: Fn(Group) -> GroupMode>(
    verdicts: Vec<Verdict>,
    global: Mode,
    group_mode: F,
) -> (d: Decision)
    requires
        forall|g: Group| call_requires(group_mode, (g,)),
    ensures
        exists|modes: Seq<GroupMode>|
            #![trigger decides(verdicts@, modes, global, d)]
            modes_of(group_mode, verdicts@, modes) && decides(verdicts@, modes, global, d),
{
    let ghost vs = verdicts@;
    let ghost mut modes: Seq<GroupMode> = Seq::empty();
    let mut pool: Vec<Verdict> = Vec::new();
    let mut would_block: Vec<Verdict> = Vec::new();
    for v in it: verdicts
        invariant
            forall|g: Group| call_requires(group_mode, (g,)),
            it.seq() == vs,
            modes.len() == it.index(),
            forall|i: int|
                0 <= i < it.index() ==> call_ensures(
                    group_mode,
                    (vs[i].group,),
                    #[trigger] modes[i],
                ),
            pool@ == enforced(vs.take(it.index() as int), modes, global),
            would_block@ == observed(vs.take(it.index() as int), modes, global),
    {
        let gm = group_mode(v.group);
        let ghost k = it.index() as int;
        proof {
            assert(vs.take(k + 1).drop_last() == vs.take(k));
            assert(modes.push(gm).drop_last() == modes);
            modes = modes.push(gm);
        }
        if global == Mode::Enforce && gm == GroupMode::Enforce {
            pool.push(v);
        } else if gm != GroupMode::Off {
            would_block.push(v);
        }
    }
    assert(vs.take(vs.len() as int) == vs);
    let ghost e = pool@;
    let d = if pool.len() == 0 {
        Decision { action: Action::Allow, blocked_by: None, would_block }
    } else {
        let mut idx: usize = 0;
        let mut i: usize = 1;
        while i < pool.len()
            invariant
                pool@ == e,
                0 <= idx < i <= e.len(),
                is_worst(e.take(i as int), idx as int),
            decreases e.len() - i,
        {
            assert(e.take(i + 1).drop_last() == e.take(i as int));
            assert(forall|j: int| 0 <= j < i ==> e.take(i + 1)[j] == e.take(i as int)[j]);
            if pool[i].severity.level() > pool[idx].severity.level() {
                idx = i;
            }
            i = i + 1;
        }
        assert(e.take(e.len() as int) == e);
        let chosen = pool.swap_remove(idx);
        assert(pool@ == taken_out(e, idx as int));
        would_block.append(&mut pool);
        let d = Decision { action: Action::Block, blocked_by: Some(chosen), would_block };
        assert(is_worst(e, idx as int) && d.blocked_by == Some(e[idx as int]));
        d
    };
    assert(decides(vs, modes, global, d));
    d
}

// ---------------------------------------------------------------------------
// Laws
// ---------------------------------------------------------------------------
/// In monitor mode nothing is ever blocked, and every active verdict is
/// reported.
pub proof fn law_monitor_never_blocks(vs: Seq<Verdict>, modes: Seq<GroupMode>, d: Decision)
    requires
        modes.len() == vs.len(),
        decides(vs, modes, Mode::Monitor, d),
    ensures
        d.action == Action::Allow,
        d.blocked_by is None,
        d.would_block@ == active(vs, modes),
{
    lemma_monitor(vs, modes);
}

proof fn lemma_monitor(vs: Seq<Verdict>, modes: Seq<GroupMode>)
    requires
        modes.len() == vs.len(),
    ensures
        enforced(vs, modes, Mode::Monitor).len() == 0,
        observed(vs, modes, Mode::Monitor) == active(vs, modes),
    decreases vs.len(),
{
    if vs.len() > 0 {
        lemma_monitor(vs.drop_last(), modes.drop_last());
    }
}

/// A group that is off neither blocks nor is reported: with every group off,
/// the decision is to allow and to report nothing.
pub proof fn law_off_suppresses_all(
    vs: Seq<Verdict>,
    modes: Seq<GroupMode>,
    global: Mode,
    d: Decision,
)
    requires
        modes.len() == vs.len(),
        forall|i: int| 0 <= i < modes.len() ==> #[trigger] modes[i] == GroupMode::Off,
        decides(vs, modes, global, d),
    ensures
        d.action == Action::Allow,
        d.blocked_by is None,
        d.would_block@.len() == 0,
{
    lemma_off(vs, modes, global);
}

proof fn lemma_off(vs: Seq<Verdict>, modes: Seq<GroupMode>, global: Mode)
    requires
        modes.len() == vs.len(),
        forall|i: int| 0 <= i < modes.len() ==> #[trigger] modes[i] == GroupMode::Off,
    ensures
        enforced(vs, modes, global).len() == 0,
        observed(vs, modes, global).len() == 0,
    decreases vs.len(),
{
    if vs.len() > 0 {
        assert(modes.last() == GroupMode::Off);
        assert forall|i: int| 0 <= i < modes.drop_last().len() implies
            #[trigger] modes.drop_last()[i] == GroupMode::Off by {
            assert(modes[i] == GroupMode::Off);
        }
        lemma_off(vs.drop_last(), modes.drop_last(), global);
    }
}

/// Where everything enforces, any verdict blocks, and the verdict that blocks
/// is at least as severe as every other one.
pub proof fn law_worst_verdict_blocks(vs: Seq<Verdict>, modes: Seq<GroupMode>, d: Decision)
    requires
        modes.len() == vs.len(),
        vs.len() > 0,
        forall|i: int| 0 <= i < modes.len() ==> #[trigger] modes[i] == GroupMode::Enforce,
        decides(vs, modes, Mode::Enforce, d),
    ensures
        d.action == Action::Block,
        d.blocked_by is Some,
        d.would_block@.len() == vs.len() - 1,
        forall|j: int|
            0 <= j < d.would_block@.len() ==> (#[trigger] d.would_block@[j]).severity.rank()
                <= d.blocked_by->0.severity.rank(),
        forall|j: int|
            0 <= j < vs.len() ==> (#[trigger] vs[j]).severity.rank()
                <= d.blocked_by->0.severity.rank(),
{
    lemma_all_enforced(vs, modes);
    let e = enforced(vs, modes, Mode::Enforce);
    let o = observed(vs, modes, Mode::Enforce);
    let i = choose|i: int|
        #![trigger e[i]]
        is_worst(e, i) && d.blocked_by == Some(e[i]) && d.would_block@ == o + taken_out(e, i);
    assert(is_worst(e, i));
    assert(d.would_block@ == taken_out(e, i));
    assert forall|j: int| 0 <= j < d.would_block@.len() implies (
    #[trigger] d.would_block@[j]).severity.rank() <= d.blocked_by->0.severity.rank() by {
        if j == i {
            assert(d.would_block@[j] == e[e.len() - 1]);
        } else {
            assert(d.would_block@[j] == e[j]);
        }
    }
}

proof fn lemma_all_enforced(vs: Seq<Verdict>, modes: Seq<GroupMode>)
    requires
        modes.len() == vs.len(),
        forall|i: int| 0 <= i < modes.len() ==> #[trigger] modes[i] == GroupMode::Enforce,
    ensures
        enforced(vs, modes, Mode::Enforce) == vs,
        observed(vs, modes, Mode::Enforce).len() == 0,
    decreases vs.len(),
{
    if vs.len() > 0 {
        assert(modes.last() == GroupMode::Enforce);
        assert forall|i: int| 0 <= i < modes.drop_last().len() implies
            #[trigger] modes.drop_last()[i] == GroupMode::Enforce by {
            assert(modes[i] == GroupMode::Enforce);
        }
        lemma_all_enforced(vs.drop_last(), modes.drop_last());
        assert(vs.drop_last().push(vs.last()) == vs);
    }
}

/// No active verdict is lost or made up: the blocking verdict and the reported
/// ones together are exactly the verdicts of groups that are not off.
pub proof fn law_no_verdict_is_lost(
    vs: Seq<Verdict>,
    modes: Seq<GroupMode>,
    global: Mode,
    d: Decision,
)
    requires
        modes.len() == vs.len(),
        decides(vs, modes, global, d),
    ensures
        ({
            let reported = d.would_block@.to_multiset();
            let all = match d.blocked_by {
                Some(v) => reported.insert(v),
                None => reported,
            };
            all =~= active(vs, modes).to_multiset()
        }),
{
    broadcast use vstd::seq_lib::group_to_multiset_ensures;

    lemma_partition(vs, modes, global);
    let e = enforced(vs, modes, global);
    let o = observed(vs, modes, global);
    if e.len() > 0 {
        let i = choose|i: int|
            #![trigger e[i]]
            is_worst(e, i) && d.blocked_by == Some(e[i]) && d.would_block@ == o + taken_out(e, i);
        lemma_taken_out(e, i);
        vstd::seq_lib::lemma_multiset_commutative(o, taken_out(e, i));
    } else {
        assert(o + e == o);
        vstd::seq_lib::lemma_multiset_commutative(o, e);
        assert(e =~= Seq::empty());
    }
}

proof fn lemma_taken_out(e: Seq<Verdict>, i: int)
    requires
        0 <= i < e.len(),
    ensures
        taken_out(e, i).to_multiset().insert(e[i]) =~= e.to_multiset(),
{
    broadcast use vstd::seq_lib::group_to_multiset_ensures;

    let n = e.len() - 1;
    let t = taken_out(e, i);
    assert(e =~= e.drop_last().push(e.last()));
    if i == n {
        assert(t =~= e.drop_last());
    } else {
        assert(t =~= e.drop_last().update(i, e.last()));
        vstd::seq_lib::to_multiset_update(e.drop_last(), i, e.last());
    }
}

proof fn lemma_partition(vs: Seq<Verdict>, modes: Seq<GroupMode>, global: Mode)
    requires
        modes.len() == vs.len(),
    ensures
        observed(vs, modes, global).to_multiset().add(enforced(vs, modes, global).to_multiset())
            =~= active(vs, modes).to_multiset(),
    decreases vs.len(),
{
    broadcast use vstd::seq_lib::group_to_multiset_ensures;

    if vs.len() > 0 {
        lemma_partition(vs.drop_last(), modes.drop_last(), global);
    } else {
        assert(observed(vs, modes, global) =~= Seq::empty());
        assert(enforced(vs, modes, global) =~= Seq::empty());
        assert(active(vs, modes) =~= Seq::empty());
    }
}

proof fn lemma_enforced_contains(
    vs: Seq<Verdict>,
    modes: Seq<GroupMode>,
    global: Mode,
    i: int,
)
    requires
        modes.len() == vs.len(),
        0 <= i < vs.len(),
        global == Mode::Enforce,
        modes[i] == GroupMode::Enforce,
    ensures
        enforced(vs, modes, global).contains(vs[i]),
    decreases vs.len(),
{
    let front = enforced(vs.drop_last(), modes.drop_last(), global);
    vstd::seq_lib::lemma_seq_contains_after_push(front, vs.last(), vs[i]);
    if i < vs.len() - 1 {
        assert(vs.drop_last()[i] == vs[i] && modes.drop_last()[i] == modes[i]);
        lemma_enforced_contains(vs.drop_last(), modes.drop_last(), global, i);
    }
}

/// Every verdict of a group that is not off is part of the decision, wherever it stands:
/// it blocks or it is reported. And what blocks or is reported is a verdict of such a
/// group.
pub proof fn law_every_active_verdict_counts(
    vs: Seq<Verdict>,
    modes: Seq<GroupMode>,
    global: Mode,
    d: Decision,
)
    requires
        modes.len() == vs.len(),
        decides(vs, modes, global, d),
    ensures
        forall|i: int|
            0 <= i < vs.len() && #[trigger] modes[i] != GroupMode::Off ==> d.blocked_by == Some(
                vs[i],
            ) || d.would_block@.contains(vs[i]),
        forall|v: Verdict| #[trigger]
            d.would_block@.contains(v) ==> exists|i: int|
                0 <= i < vs.len() && #[trigger] modes[i] != GroupMode::Off && vs[i] == v,
{
    law_no_verdict_is_lost(vs, modes, global, d);
    let all = active(vs, modes);
    let shown = d.would_block@;
    all.to_multiset_ensures();
    shown.to_multiset_ensures();
    assert forall|i: int| 0 <= i < vs.len() && #[trigger] modes[i] != GroupMode::Off implies
        d.blocked_by == Some(vs[i]) || shown.contains(vs[i]) by {
        lemma_active_contains(vs, modes, i);
        assert(all.to_multiset().count(vs[i]) > 0);
    }
    assert forall|v: Verdict| #[trigger] shown.contains(v) implies exists|i: int|
        0 <= i < vs.len() && #[trigger] modes[i] != GroupMode::Off && vs[i] == v by {
        assert(shown.to_multiset().count(v) > 0);
        assert(all.to_multiset().count(v) > 0);
        assert(all.contains(v));
        lemma_active_source(vs, modes, all.index_of(v));
    }
}

proof fn lemma_active_contains(vs: Seq<Verdict>, modes: Seq<GroupMode>, i: int)
    requires
        modes.len() == vs.len(),
        0 <= i < vs.len(),
        modes[i] != GroupMode::Off,
    ensures
        active(vs, modes).contains(vs[i]),
    decreases vs.len(),
{
    let front = active(vs.drop_last(), modes.drop_last());
    vstd::seq_lib::lemma_seq_contains_after_push(front, vs.last(), vs[i]);
    if i < vs.len() - 1 {
        assert(vs.drop_last()[i] == vs[i] && modes.drop_last()[i] == modes[i]);
        lemma_active_contains(vs.drop_last(), modes.drop_last(), i);
    }
}

proof fn lemma_active_source(vs: Seq<Verdict>, modes: Seq<GroupMode>, z: int)
    requires
        modes.len() == vs.len(),
        0 <= z < active(vs, modes).len(),
    ensures
        exists|i: int|
            0 <= i < vs.len() && #[trigger] modes[i] != GroupMode::Off && vs[i] == active(
                vs,
                modes,
            )[z],
    decreases vs.len(),
{
    if vs.len() > 0 {
        let fv = vs.drop_last();
        let fm = modes.drop_last();
        let front = active(fv, fm);
        if z < front.len() {
            lemma_active_source(fv, fm, z);
            let i = choose|i: int|
                0 <= i < fv.len() && #[trigger] fm[i] != GroupMode::Off && fv[i] == front[z];
            assert(modes[i] == fm[i] && vs[i] == fv[i]);
        } else {
            assert(modes[vs.len() - 1] != GroupMode::Off);
        }
    }
}

proof fn lemma_front_rank(f: Seq<Verdict>, e: Seq<Verdict>, v: Verdict, q: int)
    requires
        f.contains(v),
        f.len() <= q < e.len(),
        forall|z: int| 0 <= z < f.len() ==> f[z] == #[trigger] e[z],
        is_worst(e, q),
    ensures
        v.severity.rank() < e[q].severity.rank(),
{
    let z = f.index_of(v);
    assert(e[z] == v);
}

proof fn lemma_worst_of_all(
    vs: Seq<Verdict>,
    modes: Seq<GroupMode>,
    global: Mode,
    q: int,
) -> (i: int)
    requires
        modes.len() == vs.len(),
        is_worst(enforced(vs, modes, global), q),
    ensures
        global == Mode::Enforce,
        0 <= i < vs.len(),
        modes[i] == GroupMode::Enforce,
        vs[i] == enforced(vs, modes, global)[q],
        forall|j: int|
            0 <= j < i && #[trigger] modes[j] == GroupMode::Enforce ==> vs[j].severity.rank()
                < vs[i].severity.rank(),
    decreases vs.len(),
{
    let e = enforced(vs, modes, global);
    let n = vs.len() - 1;
    let fv = vs.drop_last();
    let fm = modes.drop_last();
    let f = enforced(fv, fm, global);
    if enforces(global, modes.last()) && q == f.len() {
        assert forall|j: int| 0 <= j < n && #[trigger] modes[j]
            == GroupMode::Enforce implies vs[j].severity.rank() < vs[n].severity.rank() by {
            assert(fm[j] == modes[j] && fv[j] == vs[j]);
            lemma_enforced_contains(fv, fm, global, j);
            lemma_front_rank(f, e, vs[j], q);
        }
        n
    } else {
        assert(is_worst(f, q)) by {
            assert forall|z: int| 0 <= z < f.len() implies #[trigger] f[z] == e[z] by {}
        }
        let i = lemma_worst_of_all(fv, fm, global, q);
        assert forall|j: int| 0 <= j < i && #[trigger] modes[j]
            == GroupMode::Enforce implies vs[j].severity.rank() < vs[i].severity.rank() by {
            assert(fm[j] == modes[j] && fv[j] == vs[j]);
        }
        i
    }
}

/// A request is blocked just when the global mode enforces and some verdict, wherever it
/// stands, is of a group that enforces. It is blocked by the most severe one of these, the
/// first where several are as severe.
pub proof fn law_enforced_verdict_blocks(
    vs: Seq<Verdict>,
    modes: Seq<GroupMode>,
    global: Mode,
    d: Decision,
)
    requires
        modes.len() == vs.len(),
        decides(vs, modes, global, d),
    ensures
        d.action == Action::Block <==> d.blocked_by is Some,
        d.action == Action::Block <==> global == Mode::Enforce && modes.contains(
            GroupMode::Enforce,
        ),
        d.blocked_by matches Some(v) ==> exists|i: int|
            {
                &&& 0 <= i < vs.len()
                &&& #[trigger] modes[i] == GroupMode::Enforce
                &&& vs[i] == v
                &&& forall|j: int|
                    0 <= j < i && #[trigger] modes[j] == GroupMode::Enforce
                        ==> vs[j].severity.rank() < v.severity.rank()
            },
        d.blocked_by matches Some(v) ==> forall|j: int|
            0 <= j < vs.len() && #[trigger] modes[j] == GroupMode::Enforce
                ==> vs[j].severity.rank() <= v.severity.rank(),
{
    let e = enforced(vs, modes, global);
    if e.len() > 0 {
        let q = choose|q: int|
            #![trigger e[q]]
            is_worst(e, q) && d.blocked_by == Some(e[q]) && d.would_block@ == observed(
                vs,
                modes,
                global,
            ) + taken_out(e, q);
        let i = lemma_worst_of_all(vs, modes, global, q);
        assert(modes[i] == GroupMode::Enforce);
        assert forall|j: int| 0 <= j < vs.len() && #[trigger] modes[j]
            == GroupMode::Enforce implies vs[j].severity.rank() <= e[q].severity.rank() by {
            lemma_enforced_contains(vs, modes, global, j);
            let z = e.index_of(vs[j]);
            assert(e[z] == vs[j]);
        }
    } else if global == Mode::Enforce && modes.contains(GroupMode::Enforce) {
        let i = modes.index_of(GroupMode::Enforce);
        lemma_enforced_contains(vs, modes, global, i);
    }
}

/// Where nothing is enforced and no group is off, all verdicts are reported, in their order.
pub proof fn law_monitoring_reports_all(vs: Seq<Verdict>, modes: Seq<GroupMode>, d: Decision)
    requires
        modes.len() == vs.len(),
        !modes.contains(GroupMode::Off),
        decides(vs, modes, Mode::Monitor, d),
    ensures
        d.action == Action::Allow,
        d.would_block@ == vs,
{
    lemma_monitoring(vs, modes);
}

proof fn lemma_monitoring(vs: Seq<Verdict>, modes: Seq<GroupMode>)
    requires
        modes.len() == vs.len(),
        !modes.contains(GroupMode::Off),
    ensures
        enforced(vs, modes, Mode::Monitor).len() == 0,
        observed(vs, modes, Mode::Monitor) == vs,
    decreases vs.len(),
{
    if vs.len() > 0 {
        let fm = modes.drop_last();
        assert(modes.contains(modes[modes.len() - 1]));
        assert(!fm.contains(GroupMode::Off)) by {
            if fm.contains(GroupMode::Off) {
                let i = fm.index_of(GroupMode::Off);
                assert(modes[i] == GroupMode::Off);
            }
        }
        lemma_monitoring(vs.drop_last(), fm);
        assert(vs.drop_last().push(vs.last()) =~= vs);
    } else {
        assert(vs =~= Seq::<Verdict>::empty());
    }
}

} // verus!
