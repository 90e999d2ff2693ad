//! The access coordinator: simulated thread entities, the
//! reconciliation state machine that lets them acquire and release
//! resources, and the conservation argument tying their holdings to
//! the pool's counters.

use vstd::prelude::*;
use crate::resource_box::{Resource, ResourceBox, dec_or_zero, numbered_name};

verus! {

/// The access state of one simulated thread entity.
#[derive(Clone, Copy, Debug, PartialEq, Eq, Structural)]
pub enum ThreadState {
    Reading,
    Writing,
    Waiting,
    Idle,
}

/// One simulated thread entity: a display name, its access state and
/// the resource it holds, if any.
#[derive(Clone, Debug)]
pub struct ThreadInfo {
    pub name: String,
    pub state: ThreadState,
    pub resource_in_use: Option<usize>,
}

impl ThreadInfo {
    /// A held resource is only ever paired with a granted state: a
    /// waiting or idle entity holds nothing.
    pub open spec fn wf(self) -> bool {
        self.resource_in_use is Some ==> (self.state == ThreadState::Reading || self.state
            == ThreadState::Writing)
    }
}

/// One if entity `t` is a granted reader of the resource at `r`,
/// zero otherwise.
pub open spec fn read_contrib(t: ThreadInfo, r: int) -> nat {
    match t.resource_in_use {
        Some(h) => if t.state == ThreadState::Reading && h == r {
            1nat
        } else {
            0nat
        },
        None => 0nat,
    }
}

/// One if entity `t` is the granted writer of the resource at `r`,
/// zero otherwise.
pub open spec fn write_contrib(t: ThreadInfo, r: int) -> nat {
    match t.resource_in_use {
        Some(h) => if t.state == ThreadState::Writing && h == r {
            1nat
        } else {
            0nat
        },
        None => 0nat,
    }
}

/// How many entities are granted readers of the resource at `r`.
pub open spec fn reader_count(ts: Seq<ThreadInfo>, r: int) -> nat
    decreases ts.len(),
{
    if ts.len() == 0 {
        0nat
    } else {
        reader_count(ts.drop_last(), r) + read_contrib(ts.last(), r)
    }
}

/// How many entities are granted writers of the resource at `r`.
pub open spec fn writer_count(ts: Seq<ThreadInfo>, r: int) -> nat
    decreases ts.len(),
{
    if ts.len() == 0 {
        0nat
    } else {
        writer_count(ts.drop_last(), r) + write_contrib(ts.last(), r)
    }
}

/// Whatever entity `t` holds lies below the pool size `n`.
pub open spec fn held_in_range(t: ThreadInfo, n: int) -> bool {
    match t.resource_in_use {
        Some(h) => h < n,
        None => true,
    }
}

/// Conservation: every resource's counters equal the number of
/// entities granted that resource, every entity is well formed, and
/// every held index lies inside the pool.
pub open spec fn consistent(ts: Seq<ThreadInfo>, ps: Seq<Resource>) -> bool {
    &&& (forall|r: int|
        0 <= r < ps.len() ==> reader_count(ts, r) == ps[r].read_count && writer_count(ts, r)
            == ps[r].write_count)
    &&& (forall|j: int| 0 <= j < ts.len() ==> ts[j].wf())
    &&& (forall|j: int| 0 <= j < ts.len() ==> held_in_range(ts[j], ps.len() as int))
}

proof fn lemma_contrib_le_count(ts: Seq<ThreadInfo>, i: int, r: int)
    requires
        0 <= i < ts.len(),
    ensures
        read_contrib(ts[i], r) <= reader_count(ts, r),
        write_contrib(ts[i], r) <= writer_count(ts, r),
    decreases ts.len(),
{
    if i < ts.len() - 1 {
        lemma_contrib_le_count(ts.drop_last(), i, r);
    }
}

proof fn lemma_counts_update(ts: Seq<ThreadInfo>, i: int, t: ThreadInfo, r: int)
    requires
        0 <= i < ts.len(),
    ensures
        reader_count(ts.update(i, t), r) + read_contrib(ts[i], r) == reader_count(ts, r)
            + read_contrib(t, r),
        writer_count(ts.update(i, t), r) + write_contrib(ts[i], r) == writer_count(ts, r)
            + write_contrib(t, r),
    decreases ts.len(),
{
    let ts2 = ts.update(i, t);
    if i == ts.len() - 1 {
        assert(ts2.drop_last() =~= ts.drop_last());
    } else {
        assert(ts2.drop_last() =~= ts.drop_last().update(i, t));
        lemma_counts_update(ts.drop_last(), i, t, r);
    }
}

proof fn lemma_count_le_len(ts: Seq<ThreadInfo>, r: int)
    ensures
        reader_count(ts, r) <= ts.len(),
        writer_count(ts, r) <= ts.len(),
    decreases ts.len(),
{
    if ts.len() > 0 {
        lemma_count_le_len(ts.drop_last(), r);
    }
}

proof fn lemma_counts_without_holder(ts: Seq<ThreadInfo>, i: int, r: int)
    requires
        0 <= i < ts.len(),
        ts[i].resource_in_use is None,
    ensures
        reader_count(ts, r) < ts.len(),
        writer_count(ts, r) < ts.len(),
    decreases ts.len(),
{
    if i == ts.len() - 1 {
        lemma_count_le_len(ts.drop_last(), r);
    } else {
        lemma_counts_without_holder(ts.drop_last(), i, r);
    }
}

proof fn lemma_counts_no_holders(ts: Seq<ThreadInfo>, r: int)
    requires
        forall|j: int| 0 <= j < ts.len() ==> ts[j].resource_in_use is None,
    ensures
        reader_count(ts, r) == 0,
        writer_count(ts, r) == 0,
    decreases ts.len(),
{
    if ts.len() > 0 {
        lemma_counts_no_holders(ts.drop_last(), r);
    }
}

/// Conservation holds from the start: a pool of untouched counters
/// and a set of entities holding nothing are consistent, whatever
/// their states and names.
pub proof fn lemma_fresh_consistent(ts: Seq<ThreadInfo>, ps: Seq<Resource>)
    requires
        forall|j: int| 0 <= j < ts.len() ==> ts[j].resource_in_use is None,
        forall|r: int| 0 <= r < ps.len() ==> ps[r].read_count == 0 && ps[r].write_count == 0,
    ensures
        consistent(ts, ps),
{
    assert forall|r: int| 0 <= r < ps.len() implies reader_count(ts, r) == ps[r].read_count
        && writer_count(ts, r) == ps[r].write_count by {
        lemma_counts_no_holders(ts, r);
    }
}

/// The resource at `r` with its reader count replaced by `c`.
pub open spec fn with_read(r: Resource, c: nat) -> Resource {
    Resource { name: r.name, read_count: c as usize, write_count: r.write_count }
}

/// The resource at `r` with its writer count replaced by `c`.
pub open spec fn with_write(r: Resource, c: nat) -> Resource {
    Resource { name: r.name, read_count: r.read_count, write_count: c as usize }
}

/// The pool after an entity in state `st` lets go of the resource at
/// `o`: one release of the matching counter, and no change at all for
/// an out-of-range index or a state that holds nothing.
pub open spec fn spec_release(ps: Seq<Resource>, st: ThreadState, o: int) -> Seq<Resource> {
    if 0 <= o < ps.len() {
        if st == ThreadState::Reading {
            ps.update(o, with_read(ps[o], dec_or_zero(ps[o].read_count as nat)))
        } else if st == ThreadState::Writing {
            ps.update(o, with_write(ps[o], dec_or_zero(ps[o].write_count as nat)))
        } else {
            ps
        }
    } else {
        ps
    }
}

/// A reader may be granted the resource at `r`: the index is in range
/// and no writer is granted there.
pub open spec fn read_grant_ok(ps: Seq<Resource>, r: int) -> bool {
    0 <= r < ps.len() && ps[r].write_count == 0
}

/// The writer may be granted the resource at `r`: the index is in
/// range and the resource is entirely idle there.
pub open spec fn write_grant_ok(ps: Seq<Resource>, r: int) -> bool {
    0 <= r < ps.len() && ps[r].read_count == 0 && ps[r].write_count == 0
}

/// The pool that entity `i`'s prior holding leaves behind: its release
/// is applied before any new acquisition is attempted.
pub open spec fn spec_released(ts: Seq<ThreadInfo>, ps: Seq<Resource>, i: int) -> Seq<Resource> {
    match ts[i].resource_in_use {
        Some(o) => spec_release(ps, ts[i].state, o as int),
        None => ps,
    }
}

/// One reconciliation, as a function on the whole model: entity `i`'s
/// prior holding is released first, the requested state `s` is
/// applied, and a requested resource is acquired only for a granted
/// state — a refused acquisition downgrades the entity to waiting with
/// nothing held. An out-of-range entity index changes nothing.
pub open spec fn spec_reconcile(
    ts: Seq<ThreadInfo>,
    ps: Seq<Resource>,
    i: int,
    s: ThreadState,
    nr: Option<usize>,
) -> (Seq<ThreadInfo>, Seq<Resource>) {
    if !(0 <= i < ts.len()) {
        (ts, ps)
    } else {
        let ps1 = spec_released(ts, ps, i);
        let name = ts[i].name;
        match nr {
            Some(r) => if s == ThreadState::Reading {
                if read_grant_ok(ps1, r as int) {
                    (
                        ts.update(i, ThreadInfo { name, state: s, resource_in_use: Some(r) }),
                        ps1.update(
                            r as int,
                            with_read(ps1[r as int], (ps1[r as int].read_count + 1) as nat),
                        ),
                    )
                } else {
                    (
                        ts.update(
                            i,
                            ThreadInfo {
                                name,
                                state: ThreadState::Waiting,
                                resource_in_use: None,
                            },
                        ),
                        ps1,
                    )
                }
            } else if s == ThreadState::Writing {
                if write_grant_ok(ps1, r as int) {
                    (
                        ts.update(i, ThreadInfo { name, state: s, resource_in_use: Some(r) }),
                        ps1.update(
                            r as int,
                            with_write(ps1[r as int], (ps1[r as int].write_count + 1) as nat),
                        ),
                    )
                } else {
                    (
                        ts.update(
                            i,
                            ThreadInfo {
                                name,
                                state: ThreadState::Waiting,
                                resource_in_use: None,
                            },
                        ),
                        ps1,
                    )
                }
            } else {
                (ts.update(i, ThreadInfo { name, state: s, resource_in_use: None }), ps1)
            },
            None => (ts.update(i, ThreadInfo { name, state: s, resource_in_use: None }), ps1),
        }
    }
}

/// Releasing entity `i`'s prior holding and overwriting its entry with
/// any entity that holds nothing keeps the model consistent.
proof fn lemma_release_consistent(ts: Seq<ThreadInfo>, ps: Seq<Resource>, i: int, t2: ThreadInfo)
    requires
        consistent(ts, ps),
        0 <= i < ts.len(),
        t2.resource_in_use is None,
    ensures
        consistent(ts.update(i, t2), spec_released(ts, ps, i)),
{
    let ts2 = ts.update(i, t2);
    let ps1 = spec_released(ts, ps, i);
    assert(ts[i].wf());
    assert forall|r: int| 0 <= r < ps1.len() implies reader_count(ts2, r) == ps1[r].read_count
        && writer_count(ts2, r) == ps1[r].write_count by {
        lemma_counts_update(ts, i, t2, r);
        lemma_contrib_le_count(ts, i, r);
    }
    assert forall|j: int| 0 <= j < ts2.len() implies held_in_range(ts2[j], ps1.len() as int) by {
        assert(held_in_range(ts[j], ps.len() as int));
    }
}

/// Granting a requested resource to an entity that holds nothing keeps
/// the model consistent, provided the matching admission rule allows
/// the grant.
proof fn lemma_grant_consistent(
    ts: Seq<ThreadInfo>,
    ps: Seq<Resource>,
    i: int,
    r: usize,
    s: ThreadState,
)
    requires
        consistent(ts, ps),
        ts.len() <= usize::MAX,
        0 <= i < ts.len(),
        ts[i].resource_in_use is None,
        s == ThreadState::Reading || s == ThreadState::Writing,
        s == ThreadState::Reading ==> read_grant_ok(ps, r as int),
        s == ThreadState::Writing ==> write_grant_ok(ps, r as int),
    ensures
        s == ThreadState::Reading ==> consistent(
            ts.update(i, ThreadInfo { name: ts[i].name, state: s, resource_in_use: Some(r) }),
            ps.update(r as int, with_read(ps[r as int], (ps[r as int].read_count + 1) as nat)),
        ),
        s == ThreadState::Writing ==> consistent(
            ts.update(i, ThreadInfo { name: ts[i].name, state: s, resource_in_use: Some(r) }),
            ps.update(r as int, with_write(ps[r as int], (ps[r as int].write_count + 1) as nat)),
        ),
{
    let t3 = ThreadInfo { name: ts[i].name, state: s, resource_in_use: Some(r) };
    let ts3 = ts.update(i, t3);
    lemma_counts_without_holder(ts, i, r as int);
    assert(ps[r as int].read_count < usize::MAX);
    let ps2 = if s == ThreadState::Reading {
        ps.update(r as int, with_read(ps[r as int], (ps[r as int].read_count + 1) as nat))
    } else {
        ps.update(r as int, with_write(ps[r as int], (ps[r as int].write_count + 1) as nat))
    };
    assert forall|q: int| 0 <= q < ps2.len() implies reader_count(ts3, q) == ps2[q].read_count
        && writer_count(ts3, q) == ps2[q].write_count by {
        lemma_counts_update(ts, i, t3, q);
    }
    assert forall|j: int| 0 <= j < ts3.len() implies held_in_range(ts3[j], ps2.len() as int) by {
        assert(held_in_range(ts[j], ps.len() as int));
    }
}

proof fn lemma_two_contribs(ts: Seq<ThreadInfo>, i: int, j: int, r: int)
    requires
        0 <= i < ts.len(),
        0 <= j < ts.len(),
        i != j,
    ensures
        read_contrib(ts[i], r) + read_contrib(ts[j], r) <= reader_count(ts, r),
        write_contrib(ts[i], r) + write_contrib(ts[j], r) <= writer_count(ts, r),
{
    let t_none = ThreadInfo { name: ts[i].name, state: ThreadState::Idle, resource_in_use: None };
    let ts_p = ts.update(i, t_none);
    lemma_counts_update(ts, i, t_none, r);
    lemma_contrib_le_count(ts_p, j, r);
    assert(ts_p[j] == ts[j]);
}

/// Index-order precedence within one tick: entities are reconciled in
/// increasing index order, so when two of them both request the
/// writer role on the same resource and the first request is granted,
/// the later entity is refused — it ends waiting with nothing held,
/// the earlier entity keeps its grant, and the resource keeps its one
/// writer.
pub proof fn lemma_index_order_precedence(
    ts: Seq<ThreadInfo>,
    ps: Seq<Resource>,
    a: int,
    b: int,
    r: usize,
)
    requires
        consistent(ts, ps),
        ts.len() <= usize::MAX,
        0 <= a < ts.len(),
        0 <= b < ts.len(),
        a != b,
        write_grant_ok(spec_released(ts, ps, a), r as int),
    ensures
        ({
            let m1 = spec_reconcile(ts, ps, a, ThreadState::Writing, Some(r));
            let m2 = spec_reconcile(m1.0, m1.1, b, ThreadState::Writing, Some(r));
            &&& m1.0[a].state == ThreadState::Writing
            &&& m1.0[a].resource_in_use == Some(r)
            &&& m2.0[a] == m1.0[a]
            &&& m2.0[b].state == ThreadState::Waiting
            &&& m2.0[b].resource_in_use is None
            &&& m2.1[r as int].write_count == 1
        }),
{
    let ri = r as int;
    let ps1 = spec_released(ts, ps, a);
    let t_clear = ThreadInfo { name: ts[a].name, state: ThreadState::Writing, resource_in_use: None };
    let ts2 = ts.update(a, t_clear);
    let t3 = ThreadInfo { name: ts[a].name, state: ThreadState::Writing, resource_in_use: Some(r) };
    let ts3 = ts.update(a, t3);
    let ps2 = ps1.update(ri, with_write(ps1[ri], (ps1[ri].write_count + 1) as nat));
    lemma_release_consistent(ts, ps, a, t_clear);
    lemma_grant_consistent(ts2, ps1, a, r, ThreadState::Writing);
    assert(ts2.update(a, t3) =~= ts3);
    let m1 = spec_reconcile(ts, ps, a, ThreadState::Writing, Some(r));
    assert(m1.0 =~= ts3);
    assert(m1.1 =~= ps2);
    assert(consistent(ts3, ps2));
    assert(ps2[ri].write_count == 1);
    assert(ps2[ri].read_count == 0);
    assert(write_contrib(ts3[a], ri) == 1);
    lemma_two_contribs(ts3, a, b, ri);
    assert(writer_count(ts3, ri) == ps2[ri].write_count);
    assert(write_contrib(ts3[b], ri) == 0);
    assert(read_contrib(ts3[b], ri) == 0) by {
        lemma_contrib_le_count(ts3, b, ri);
        assert(reader_count(ts3, ri) == ps2[ri].read_count);
    }
    // The later entity holds at most some other resource, so its
    // release leaves this one's counters alone, and the grant check
    // still sees the standing writer.
    let ps1b = spec_released(ts3, ps2, b);
    assert(ts3[b].wf());
    assert(ps1b[ri] == ps2[ri]);
    assert(!write_grant_ok(ps1b, ri));
    let m2 = spec_reconcile(ts3, ps2, b, ThreadState::Writing, Some(r));
    assert(m2.0 =~= ts3.update(
        b,
        (ThreadInfo { name: ts3[b].name, state: ThreadState::Waiting, resource_in_use: None }),
    ));
    assert(m2.0[a] == ts3[a]);
    assert(m2.1[ri].write_count == 1);
}

/// Relies on `rand::random_range`: a draw from `0..n` lies below `n`;
/// the call panics on an empty range, so `n` must be positive. Which
/// value comes back is chance, and nothing more is assumed of it.
#[verifier::external_body]
fn rand_below(n: usize) -> (r: usize)
    requires
        n > 0,
    ensures
        r < n,
{
    rand::random_range(0..n)
}

/// The access coordinator: the fixed collection of simulated thread
/// entities, advanced only by reconciliation calls. (Named for its
/// role as the front end of the display; the geometry of the display
/// itself lives with the presentation layer.)
pub struct ThreadsVisualizer {
    pub threads: Vec<ThreadInfo>,
}

impl ThreadsVisualizer {
    /// A coordinator of `num_threads` entities, all idle and holding
    /// nothing.
    pub fn new(num_threads: usize) -> (r: ThreadsVisualizer)
        ensures
            r.threads.len() == num_threads,
            forall|j: int|
                0 <= j < num_threads ==> r.threads[j].state == ThreadState::Idle
                    && r.threads[j].resource_in_use is None,
    {
        let mut threads: Vec<ThreadInfo> = Vec::new();
        let mut i: usize = 0;
        while i < num_threads
            invariant
                i <= num_threads,
                threads.len() == i,
                forall|j: int|
                    0 <= j < i ==> threads[j].state == ThreadState::Idle
                        && threads[j].resource_in_use is None,
            decreases num_threads - i,
        {
            threads.push(
                ThreadInfo {
                    name: numbered_name("Thread", i + 1),
                    state: ThreadState::Idle,
                    resource_in_use: None,
                },
            );
            i = i + 1;
        }
        ThreadsVisualizer { threads }
    }

    /// One reconciliation: the entity at `index` lets go of whatever
    /// it held, takes the requested state, and — for a granted state
    /// with a requested resource — attempts the matching acquisition,
    /// dropping to waiting if the pool refuses it. The outcome is
    /// exactly `spec_reconcile` of the prior model, and conservation
    /// is preserved.
    pub fn set_thread_resource_state(
        &mut self,
        resource_box: &mut ResourceBox,
        index: usize,
        new_state: ThreadState,
        new_resource: Option<usize>,
    )
        requires
            old(resource_box).wf(),
            consistent(old(self).threads@, old(resource_box).resources@),
        ensures
            final(resource_box).wf(),
            consistent(final(self).threads@, final(resource_box).resources@),
            final(self).threads@ == spec_reconcile(
                old(self).threads@,
                old(resource_box).resources@,
                index as int,
                new_state,
                new_resource,
            ).0,
            final(resource_box).resources@ == spec_reconcile(
                old(self).threads@,
                old(resource_box).resources@,
                index as int,
                new_state,
                new_resource,
            ).1,
    {
        let ghost ts0 = self.threads@;
        let ghost ps0 = resource_box.resources@;
        let n = self.threads.len();
        if index >= n {
            return;
        }
        let ghost i = index as int;
        let cur_state = self.threads[index].state;
        let cur_res = self.threads[index].resource_in_use;
        proof {
            assert(ts0[i].wf());
            assert(held_in_range(ts0[i], ps0.len() as int));
        }
        match cur_res {
            Some(old_res) => {
                match cur_state {
                    ThreadState::Reading => {
                        resource_box.remove_reading(old_res);
                    },
                    ThreadState::Writing => {
                        resource_box.remove_writing(old_res);
                    },
                    _ => {},
                }
            },
            None => {},
        }
        let ghost ps1 = spec_released(ts0, ps0, i);
        proof {
            assert(resource_box.resources@ =~= ps1);
        }
        self.threads[index].resource_in_use = None;
        self.threads[index].state = new_state;
        let ghost t_clear = ThreadInfo {
            name: ts0[i].name,
            state: new_state,
            resource_in_use: None,
        };
        let ghost ts2 = ts0.update(i, t_clear);
        proof {
            assert(self.threads@ =~= ts2);
            lemma_release_consistent(ts0, ps0, i, t_clear);
            assert(ts2.len() <= usize::MAX);
        }
        match new_resource {
            Some(res_idx) => {
                match new_state {
                    ThreadState::Reading => {
                        proof {
                            if (res_idx as int) < ps1.len() {
                                lemma_counts_without_holder(ts2, i, res_idx as int);
                            }
                        }
                        let ok = resource_box.try_set_reading(res_idx);
                        if ok {
                            self.threads[index].resource_in_use = Some(res_idx);
                            proof {
                                assert(read_grant_ok(ps1, res_idx as int));
                                lemma_grant_consistent(ts2, ps1, i, res_idx, ThreadState::Reading);
                                assert(resource_box.resources@ =~= ps1.update(
                                    res_idx as int,
                                    with_read(
                                        ps1[res_idx as int],
                                        (ps1[res_idx as int].read_count + 1) as nat,
                                    ),
                                ));
                                assert(self.threads@ =~= ts2.update(
                                    i,
                                    (ThreadInfo {
                                        name: ts0[i].name,
                                        state: new_state,
                                        resource_in_use: Some(res_idx),
                                    }),
                                ));
                                assert(self.threads@ =~= ts0.update(
                                    i,
                                    (ThreadInfo {
                                        name: ts0[i].name,
                                        state: new_state,
                                        resource_in_use: Some(res_idx),
                                    }),
                                ));
                            }
                        } else {
                            self.threads[index].state = ThreadState::Waiting;
                            proof {
                                assert(!read_grant_ok(ps1, res_idx as int));
                                let t_wait = ThreadInfo {
                                    name: ts0[i].name,
                                    state: ThreadState::Waiting,
                                    resource_in_use: None,
                                };
                                lemma_release_consistent(ts0, ps0, i, t_wait);
                                assert(resource_box.resources@ =~= ps1);
                                assert(self.threads@ =~= ts0.update(i, t_wait));
                            }
                        }
                    },
                    ThreadState::Writing => {
                        let ok = resource_box.try_set_writing(res_idx);
                        if ok {
                            self.threads[index].resource_in_use = Some(res_idx);
                            proof {
                                assert(write_grant_ok(ps1, res_idx as int));
                                lemma_grant_consistent(ts2, ps1, i, res_idx, ThreadState::Writing);
                                assert(resource_box.resources@ =~= ps1.update(
                                    res_idx as int,
                                    with_write(
                                        ps1[res_idx as int],
                                        (ps1[res_idx as int].write_count + 1) as nat,
                                    ),
                                ));
                                assert(self.threads@ =~= ts0.update(
                                    i,
                                    (ThreadInfo {
                                        name: ts0[i].name,
                                        state: new_state,
                                        resource_in_use: Some(res_idx),
                                    }),
                                ));
                            }
                        } else {
                            self.threads[index].state = ThreadState::Waiting;
                            proof {
                                assert(!write_grant_ok(ps1, res_idx as int));
                                let t_wait = ThreadInfo {
                                    name: ts0[i].name,
                                    state: ThreadState::Waiting,
                                    resource_in_use: None,
                                };
                                lemma_release_consistent(ts0, ps0, i, t_wait);
                                assert(resource_box.resources@ =~= ps1);
                                assert(self.threads@ =~= ts0.update(i, t_wait));
                            }
                        }
                    },
                    _ => {},
                }
            },
            None => {},
        }
    }

    /// One tick: every entity, in increasing index order, draws a
    /// uniformly random state and — for a granted state — a uniformly
    /// random resource, and is reconciled against the pool. With an
    /// empty pool nothing is drawn and nothing changes. Whatever the
    /// draws were, conservation and the pool's admission rules still
    /// hold afterwards, and no entity is renamed, added or removed.
    pub fn update_threads_randomly(&mut self, resource_box: &mut ResourceBox)
        requires
            old(resource_box).wf(),
            consistent(old(self).threads@, old(resource_box).resources@),
        ensures
            final(resource_box).wf(),
            consistent(final(self).threads@, final(resource_box).resources@),
            final(self).threads.len() == old(self).threads.len(),
            final(resource_box).resources.len() == old(resource_box).resources.len(),
            forall|j: int|
                0 <= j < old(self).threads.len() ==> final(self).threads[j].name == old(
                    self,
                ).threads[j].name,
            old(resource_box).resources.len() == 0 ==> final(self).threads@ == old(self).threads@
                && final(resource_box).resources@ == old(resource_box).resources@,
    {
        let total = resource_box.resources.len();
        if total == 0 {
            return;
        }
        let n = self.threads.len();
        let mut i: usize = 0;
        while i < n
            invariant
                i <= n,
                n == self.threads.len(),
                total == resource_box.resources.len(),
                total > 0,
                resource_box.wf(),
                consistent(self.threads@, resource_box.resources@),
                forall|j: int|
                    0 <= j < n ==> self.threads[j].name == old(self).threads[j].name,
            decreases n - i,
        {
            let ghost ts_pre = self.threads@;
            let roll = rand_below(4);
            let new_state = match roll {
                0 => ThreadState::Idle,
                1 => ThreadState::Waiting,
                2 => ThreadState::Reading,
                3 => ThreadState::Writing,
                _ => ThreadState::Idle,
            };
            let new_resource = if new_state == ThreadState::Reading || new_state
                == ThreadState::Writing {
                Some(rand_below(total))
            } else {
                None
            };
            self.set_thread_resource_state(resource_box, i, new_state, new_resource);
            proof {
                assert forall|j: int|
                    0 <= j < n implies self.threads[j].name == ts_pre[j].name by {}
            }
            i = i + 1;
        }
    }
}

} // verus!
