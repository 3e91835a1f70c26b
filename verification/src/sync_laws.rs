use vstd::prelude::*;

use crate::ast::{AExpr, ChannelName, Target, CG};
use crate::halts::{calm, lemma_aeval_calm, lemma_target_calm};
use crate::program::{Instr, InstrPtr, Program, StateV, StepError};
use crate::semantics::{
    add_handover, branch_senders, broadcast_steps, collective_steps, deliver, gather_into, gather_orderings,
    gather_steps, handover, pair_branch_receive, pair_branches, pair_send_branch, pair_steps,
    pairs_from, senders_from, sync_from, sync_steps,
};

verus! {

// ---------------------------------------------------------------------------
// Synchronous communication writes data cells and moves processes; it
// leaves the tuple spaces and the asynchronous channels as they are.

/// `a` has as many processes and data cells as `b`, and the same tuple
/// spaces and channels.
pub open spec fn kept(a: StateV, b: StateV) -> bool {
    &&& a.ptrs.len() == b.ptrs.len()
    &&& a.mem.data.len() == b.mem.data.len()
    &&& a.mem.ts == b.mem.ts
    &&& a.mem.ch == b.mem.ch
}


/// Every state in `v` is kept from `r`.
pub open spec fn all_kept(v: Seq<StateV>, r: StateV) -> bool {
    forall|k: int| 0 <= k < v.len() ==> kept(#[trigger] v[k], r)
}

pub open spec fn result_kept(res: Option<Result<Seq<StateV>, StepError>>, r: StateV) -> bool {
    res matches Some(Ok(v)) ==> all_kept(v, r)
}

proof fn lemma_push_kept(v: Seq<StateV>, x: StateV, r: StateV)
    requires
        all_kept(v, r),
        kept(x, r),
    ensures
        all_kept(v.push(x), r),
{
    assert forall|k: int| 0 <= k < v.push(x).len() implies kept(#[trigger] v.push(x)[k], r) by {
        if k < v.len() {
            assert(v.push(x)[k] == v[k]);
        }
    }
}

proof fn lemma_concat_kept(a: Seq<StateV>, b: Seq<StateV>, r: StateV)
    requires
        all_kept(a, r),
        all_kept(b, r),
    ensures
        all_kept(a + b, r),
{
    assert forall|k: int| 0 <= k < (a + b).len() implies kept(#[trigger] (a + b)[k], r) by {
        if k < a.len() {
            assert((a + b)[k] == a[k]);
        } else {
            assert((a + b)[k] == b[k - a.len()]);
        }
    }
}

proof fn lemma_add_handover_kept(
    h: Option<Result<Option<StateV>, StepError>>,
    acc: Seq<StateV>,
    r: StateV,
)
    requires
        all_kept(acc, r),
        h matches Some(Ok(Some(st))) ==> kept(st, r),
    ensures
        result_kept(add_handover(h, acc), r),
{
    if let Some(Ok(Some(st))) = h {
        lemma_push_kept(acc, st, r);
    }
}

proof fn lemma_handover_ptrs(p: Program, s: StateV, expr: AExpr, target: Target, ptrs: Seq<u32>)
    ensures
        handover(p, s, expr, target, ptrs) matches Some(Ok(Some(st))) ==> st.ptrs == ptrs
            && st.mem.data.len() == s.mem.data.len() && st.mem.ts == s.mem.ts && st.mem.ch == s.mem.ch,
{
}

proof fn lemma_pair_branches_kept(
    p: Program,
    s: StateV,
    i: int,
    j: int,
    ci: Seq<(CG, InstrPtr)>,
    cj: Seq<(CG, InstrPtr)>,
    a: int,
    b: int,
    acc: Seq<StateV>,
)
    requires
        0 <= i < s.ptrs.len(),
        0 <= j < s.ptrs.len(),
        all_kept(acc, s),
    ensures
        result_kept(pair_branches(p, s, i, j, ci, cj, a, b, acc), s),
    decreases ci.len() - a, cj.len() - b,
{
    if a < 0 || a >= ci.len() {
    } else if b < 0 || b >= cj.len() {
        lemma_pair_branches_kept(p, s, i, j, ci, cj, a + 1, 0, acc);
    } else {
        let h = match (ci[a].0, cj[b].0) {
            (CG::Send(c1, expr), CG::Receive(c2, t)) => if crate::semantics::same_channel(c1, c2) {
                handover(p, s, expr, t, s.ptrs.update(i, ci[a].1.0).update(j, cj[b].1.0))
            } else {
                Some(Ok(None))
            },
            _ => Some(Ok(None)),
        };
        if let (CG::Send(c1, expr), CG::Receive(c2, t)) = (ci[a].0, cj[b].0) {
            lemma_handover_ptrs(p, s, expr, t, s.ptrs.update(i, ci[a].1.0).update(j, cj[b].1.0));
        }
        lemma_add_handover_kept(h, acc, s);
        if let Some(Ok(acc2)) = add_handover(h, acc) {
            lemma_pair_branches_kept(p, s, i, j, ci, cj, a, b + 1, acc2);
        }
    }
}

proof fn lemma_pair_send_branch_kept(
    p: Program,
    s: StateV,
    i: int,
    j: int,
    c1: ChannelName,
    expr: AExpr,
    cj: Seq<(CG, InstrPtr)>,
    b: int,
    acc: Seq<StateV>,
)
    requires
        0 <= i < s.ptrs.len(),
        0 <= j < s.ptrs.len(),
        all_kept(acc, s),
    ensures
        result_kept(pair_send_branch(p, s, i, j, c1, expr, cj, b, acc), s),
    decreases cj.len() - b,
{
    if 0 <= b < cj.len() {
        let h = match cj[b].0 {
            CG::Receive(c2, t) => if crate::semantics::same_channel(c1, c2) {
                handover(p, s, expr, t, s.ptrs.update(i, crate::semantics::bumped(s.ptrs[i])).update(j, cj[b].1.0))
            } else {
                Some(Ok(None))
            },
            _ => Some(Ok(None)),
        };
        if let CG::Receive(c2, t) = cj[b].0 {
            lemma_handover_ptrs(p, s, expr, t, s.ptrs.update(i, crate::semantics::bumped(s.ptrs[i])).update(j, cj[b].1.0));
        }
        lemma_add_handover_kept(h, acc, s);
        if let Some(Ok(acc2)) = add_handover(h, acc) {
            lemma_pair_send_branch_kept(p, s, i, j, c1, expr, cj, b + 1, acc2);
        }
    }
}

proof fn lemma_pair_branch_receive_kept(
    p: Program,
    s: StateV,
    i: int,
    j: int,
    ci: Seq<(CG, InstrPtr)>,
    c2: ChannelName,
    target: Target,
    a: int,
    acc: Seq<StateV>,
)
    requires
        0 <= i < s.ptrs.len(),
        0 <= j < s.ptrs.len(),
        all_kept(acc, s),
    ensures
        result_kept(pair_branch_receive(p, s, i, j, ci, c2, target, a, acc), s),
    decreases ci.len() - a,
{
    if 0 <= a < ci.len() {
        let h = match ci[a].0 {
            CG::Send(c1, expr) => if crate::semantics::same_channel(c1, c2) {
                handover(p, s, expr, target, s.ptrs.update(i, ci[a].1.0).update(j, crate::semantics::bumped(s.ptrs[j])))
            } else {
                Some(Ok(None))
            },
            _ => Some(Ok(None)),
        };
        if let CG::Send(c1, expr) = ci[a].0 {
            lemma_handover_ptrs(p, s, expr, target, s.ptrs.update(i, ci[a].1.0).update(j, crate::semantics::bumped(s.ptrs[j])));
        }
        lemma_add_handover_kept(h, acc, s);
        if let Some(Ok(acc2)) = add_handover(h, acc) {
            lemma_pair_branch_receive_kept(p, s, i, j, ci, c2, target, a + 1, acc2);
        }
    }
}

proof fn lemma_pair_steps_kept(p: Program, s: StateV, i: int, j: int, acc: Seq<StateV>)
    requires
        0 <= i < s.ptrs.len(),
        0 <= j < s.ptrs.len(),
        all_kept(acc, s),
    ensures
        result_kept(pair_steps(p, s, i, j, acc), s),
{
    match (crate::semantics::instr_of(p, s, i), crate::semantics::instr_of(p, s, j)) {
        (Some(Instr::SyncSend { channel: c1, expr }), Some(Instr::SyncReceive { channel: c2, target })) => {
            let ptrs = s.ptrs.update(i, crate::semantics::bumped(s.ptrs[i])).update(
                j,
                crate::semantics::bumped(s.ptrs[j]),
            );
            lemma_handover_ptrs(p, s, expr, target, ptrs);
            lemma_add_handover_kept(handover(p, s, expr, target, ptrs), acc, s);
        },
        (Some(Instr::Branch { choices: ci, .. }), Some(Instr::Branch { choices: cj, .. })) => {
            lemma_pair_branches_kept(p, s, i, j, ci@, cj@, 0, 0, acc);
        },
        (Some(Instr::SyncSend { channel: c1, expr }), Some(Instr::Branch { choices: cj, .. })) => {
            lemma_pair_send_branch_kept(p, s, i, j, c1, expr, cj@, 0, acc);
        },
        (Some(Instr::Branch { choices: ci, .. }), Some(Instr::SyncReceive { channel: c2, target })) => {
            lemma_pair_branch_receive_kept(p, s, i, j, ci@, c2, target, 0, acc);
        },
        _ => {},
    }
}

proof fn lemma_pairs_from_kept(p: Program, s: StateV, i: int, j: int, acc: Seq<StateV>)
    requires
        0 <= i < s.ptrs.len(),
        all_kept(acc, s),
    ensures
        result_kept(pairs_from(p, s, i, j, acc), s),
    decreases s.ptrs.len() - j,
{
    if j < 0 || j >= s.ptrs.len() {
    } else if j == i {
        lemma_pairs_from_kept(p, s, i, j + 1, acc);
    } else {
        lemma_pair_steps_kept(p, s, i, j, acc);
        if let Some(Ok(acc2)) = pair_steps(p, s, i, j, acc) {
            lemma_pairs_from_kept(p, s, i, j + 1, acc2);
        }
    }
}

proof fn lemma_deliver_kept(
    p: Program,
    s: StateV,
    value: i32,
    rs: Seq<(int, Target, Option<u32>)>,
    k: int,
    ns: StateV,
)
    requires
        kept(ns, s),
    ensures
        deliver(p, s, value, rs, k, ns) matches Some(Ok(x)) ==> kept(x, s),
    decreases rs.len() - k,
{
    if 0 <= k < rs.len() {
        let (j, target, bp) = rs[k];
        if let Some(Ok(ix)) = crate::semantics::target_index(p, s, target) {
            if !(ix >= ns.mem.data.len() || j < 0 || j >= ns.ptrs.len()) {
                let next = match bp {
                    Some(t) => t,
                    None => crate::semantics::bumped(ns.ptrs[j]),
                };
                lemma_deliver_kept(
                    p,
                    s,
                    value,
                    rs,
                    k + 1,
                    StateV {
                        ptrs: ns.ptrs.update(j, next),
                        mem: crate::semantics::with_data(ns.mem, ns.mem.data.update(ix as int, value)),
                    },
                );
            }
        }
    }
}

proof fn lemma_broadcast_kept(p: Program, s: StateV, i: int, c: ChannelName, k: i32, expr: AExpr)
    requires
        0 <= i < s.ptrs.len(),
    ensures
        result_kept(broadcast_steps(p, s, i, c, k, expr), s),
{
    if let Some(Ok(value)) = crate::semantics::aeval(p, s, expr) {
        if let Some(rs) = crate::semantics::receivers_from(p, s, i, c, 0, seq![]) {
            lemma_deliver_kept(p, s, value, rs, 0, s);
        }
    }
}

proof fn lemma_gather_into_kept(
    senders: Seq<(int, i32, Option<u32>)>,
    perm: Seq<usize>,
    base: u32,
    len: u32,
    idx: int,
    ns: StateV,
)
    ensures
        gather_into(senders, perm, base, len, idx, ns) matches Some(x) ==> kept(x, ns),
    decreases perm.len() - idx,
{
    if 0 <= idx < perm.len() && perm[idx] < senders.len() {
        let (j, value, bp) = senders[perm[idx] as int];
        let written = if idx < len {
            if base + idx < ns.mem.data.len() {
                Some(crate::semantics::with_data(ns.mem, ns.mem.data.update(base + idx, value)))
            } else {
                None
            }
        } else {
            Some(ns.mem)
        };
        if let Some(m) = written {
            if 0 <= j < ns.ptrs.len() {
                let next = match bp {
                    Some(t) => t,
                    None => crate::semantics::bumped(ns.ptrs[j]),
                };
                lemma_gather_into_kept(senders, perm, base, len, idx + 1, StateV { ptrs: ns.ptrs.update(j, next), mem: m });
            }
        }
    }
}

proof fn lemma_gather_orderings_kept(
    p: Program,
    s: StateV,
    i: int,
    target: Target,
    senders: Seq<(int, i32, Option<u32>)>,
    perms: Seq<Seq<usize>>,
    base: u32,
    len: u32,
    q: int,
    acc: Seq<StateV>,
)
    requires
        all_kept(acc, s),
    ensures
        result_kept(gather_orderings(p, s, i, target, senders, perms, base, len, q, acc), s),
    decreases perms.len() - q,
{
    if 0 <= q < perms.len() {
        lemma_gather_into_kept(senders, perms[q], base, len, 0, s);
        if let Some(ns) = gather_into(senders, perms[q], base, len, 0, s) {
            if let Some(Ok(ix)) = crate::semantics::target_index(p, s, target) {
                if !(ix >= ns.mem.data.len() || i < 0 || i >= s.ptrs.len()) {
                    let count = (if perms[q].len() <= len {
                        perms[q].len() as int
                    } else {
                        len as int
                    }) as i32;
                    let st = StateV {
                        ptrs: ns.ptrs.update(i, crate::semantics::bumped(s.ptrs[i])),
                        mem: crate::semantics::with_data(ns.mem, ns.mem.data.update(ix as int, count)),
                    };
                    lemma_push_kept(acc, st, s);
                    lemma_gather_orderings_kept(p, s, i, target, senders, perms, base, len, q + 1, acc.push(st));
                }
            }
        }
    }
}

proof fn lemma_collective_kept(p: Program, s: StateV, i: int)
    ensures
        result_kept(collective_steps(p, s, i), s),
{
    match crate::semantics::instr_of(p, s, i) {
        Some(Instr::Broadcast { channel, k, expr }) => lemma_broadcast_kept(p, s, i, channel, k, expr),
        Some(Instr::Gather { channel, k, array, target }) => {
            let arr = array.0@;
            if !(target matches Target::Array(a, _) && a.0@ == arr) {
                if let Some(slot) = crate::semantics::array_slot(p, arr) {
                    let base = p.targets@[slot].base_index;
                    let len = p.targets@[slot].length;
                    if let Some(Ok(senders)) = crate::semantics::senders_from(p, s, i, channel, 0, seq![]) {
                        if k >= 0 && senders.len() >= k {
                            lemma_gather_orderings_kept(
                                p,
                                s,
                                i,
                                target,
                                senders,
                                crate::perms::index_permutations(senders.len() as usize),
                                base,
                                len,
                                0,
                                seq![],
                            );
                        }
                    }
                }
            }
            assert(result_kept(gather_steps(p, s, i, channel, k, arr, target), s));
        },
        _ => {},
    }
}

proof fn lemma_sync_from_kept(p: Program, s: StateV, i: int, acc: Seq<StateV>)
    requires
        all_kept(acc, s),
    ensures
        result_kept(sync_from(p, s, i, acc), s),
    decreases s.ptrs.len() - i,
{
    if 0 <= i < s.ptrs.len() {
        lemma_collective_kept(p, s, i);
        if let Some(Ok(ts)) = collective_steps(p, s, i) {
            lemma_concat_kept(acc, ts, s);
            lemma_pairs_from_kept(p, s, i, 0, acc + ts);
            if let Some(Ok(acc2)) = pairs_from(p, s, i, 0, acc + ts) {
                lemma_sync_from_kept(p, s, i + 1, acc2);
            }
        }
    }
}

/// Every synchronous transition (a handover, a broadcast or a gather) keeps
/// the number of processes and data cells, and leaves the tuple spaces and
/// the asynchronous channels unchanged: it only writes data cells and moves
/// processes.
pub proof fn law_sync_keeps_spaces_and_channels(p: Program, s: StateV)
    ensures
        sync_steps(p, s) matches Some(Ok(v)) ==> forall|k: int| 0 <= k < v.len() ==> kept(#[trigger] v[k], s),
{
    lemma_sync_from_kept(p, s, 0, seq![]);
}

// ---------------------------------------------------------------------------
// Synchronous communication never reports `Stuck` or `Halt`: where it fails,
// the error comes from evaluating an expression or from a gather into its
// own counter array.

proof fn lemma_handover_calm(p: Program, s: StateV, expr: AExpr, target: Target, ptrs: Seq<u32>)
    ensures
        calm(handover(p, s, expr, target, ptrs)),
{
    lemma_target_calm(p, s, target);
}

proof fn lemma_add_handover_calm(h: Option<Result<Option<StateV>, StepError>>, acc: Seq<StateV>)
    requires
        calm(h),
    ensures
        calm(add_handover(h, acc)),
{
}

proof fn lemma_pair_branches_calm(
    p: Program,
    s: StateV,
    i: int,
    j: int,
    ci: Seq<(CG, InstrPtr)>,
    cj: Seq<(CG, InstrPtr)>,
    a: int,
    b: int,
    acc: Seq<StateV>,
)
    ensures
        calm(pair_branches(p, s, i, j, ci, cj, a, b, acc)),
    decreases ci.len() - a, cj.len() - b,
{
    if a < 0 || a >= ci.len() {
    } else if b < 0 || b >= cj.len() {
        lemma_pair_branches_calm(p, s, i, j, ci, cj, a + 1, 0, acc);
    } else {
        let h = match (ci[a].0, cj[b].0) {
            (CG::Send(c1, expr), CG::Receive(c2, t)) => if crate::semantics::same_channel(c1, c2) {
                handover(p, s, expr, t, s.ptrs.update(i, ci[a].1.0).update(j, cj[b].1.0))
            } else {
                Some(Ok(None))
            },
            _ => Some(Ok(None)),
        };
        if let (CG::Send(c1, expr), CG::Receive(c2, t)) = (ci[a].0, cj[b].0) {
            lemma_handover_calm(p, s, expr, t, s.ptrs.update(i, ci[a].1.0).update(j, cj[b].1.0));
        }
        lemma_add_handover_calm(h, acc);
        if let Some(Ok(acc2)) = add_handover(h, acc) {
            lemma_pair_branches_calm(p, s, i, j, ci, cj, a, b + 1, acc2);
        }
    }
}

proof fn lemma_pair_send_branch_calm(
    p: Program,
    s: StateV,
    i: int,
    j: int,
    c1: ChannelName,
    expr: AExpr,
    cj: Seq<(CG, InstrPtr)>,
    b: int,
    acc: Seq<StateV>,
)
    ensures
        calm(pair_send_branch(p, s, i, j, c1, expr, cj, b, acc)),
    decreases cj.len() - b,
{
    if 0 <= b < cj.len() {
        let h = match cj[b].0 {
            CG::Receive(c2, t) => if crate::semantics::same_channel(c1, c2) {
                handover(p, s, expr, t, s.ptrs.update(i, crate::semantics::bumped(s.ptrs[i])).update(j, cj[b].1.0))
            } else {
                Some(Ok(None))
            },
            _ => Some(Ok(None)),
        };
        if let CG::Receive(c2, t) = cj[b].0 {
            lemma_handover_calm(p, s, expr, t, s.ptrs.update(i, crate::semantics::bumped(s.ptrs[i])).update(j, cj[b].1.0));
        }
        lemma_add_handover_calm(h, acc);
        if let Some(Ok(acc2)) = add_handover(h, acc) {
            lemma_pair_send_branch_calm(p, s, i, j, c1, expr, cj, b + 1, acc2);
        }
    }
}

proof fn lemma_pair_branch_receive_calm(
    p: Program,
    s: StateV,
    i: int,
    j: int,
    ci: Seq<(CG, InstrPtr)>,
    c2: ChannelName,
    target: Target,
    a: int,
    acc: Seq<StateV>,
)
    ensures
        calm(pair_branch_receive(p, s, i, j, ci, c2, target, a, acc)),
    decreases ci.len() - a,
{
    if 0 <= a < ci.len() {
        let h = match ci[a].0 {
            CG::Send(c1, expr) => if crate::semantics::same_channel(c1, c2) {
                handover(p, s, expr, target, s.ptrs.update(i, ci[a].1.0).update(j, crate::semantics::bumped(s.ptrs[j])))
            } else {
                Some(Ok(None))
            },
            _ => Some(Ok(None)),
        };
        if let CG::Send(c1, expr) = ci[a].0 {
            lemma_handover_calm(p, s, expr, target, s.ptrs.update(i, ci[a].1.0).update(j, crate::semantics::bumped(s.ptrs[j])));
        }
        lemma_add_handover_calm(h, acc);
        if let Some(Ok(acc2)) = add_handover(h, acc) {
            lemma_pair_branch_receive_calm(p, s, i, j, ci, c2, target, a + 1, acc2);
        }
    }
}

proof fn lemma_pair_steps_calm(p: Program, s: StateV, i: int, j: int, acc: Seq<StateV>)
    ensures
        calm(pair_steps(p, s, i, j, acc)),
{
    match (crate::semantics::instr_of(p, s, i), crate::semantics::instr_of(p, s, j)) {
        (Some(Instr::SyncSend { channel: c1, expr }), Some(Instr::SyncReceive { channel: c2, target })) => {
            let ptrs = s.ptrs.update(i, crate::semantics::bumped(s.ptrs[i])).update(
                j,
                crate::semantics::bumped(s.ptrs[j]),
            );
            lemma_handover_calm(p, s, expr, target, ptrs);
            lemma_add_handover_calm(handover(p, s, expr, target, ptrs), acc);
        },
        (Some(Instr::Branch { choices: ci, .. }), Some(Instr::Branch { choices: cj, .. })) => {
            lemma_pair_branches_calm(p, s, i, j, ci@, cj@, 0, 0, acc);
        },
        (Some(Instr::SyncSend { channel: c1, expr }), Some(Instr::Branch { choices: cj, .. })) => {
            lemma_pair_send_branch_calm(p, s, i, j, c1, expr, cj@, 0, acc);
        },
        (Some(Instr::Branch { choices: ci, .. }), Some(Instr::SyncReceive { channel: c2, target })) => {
            lemma_pair_branch_receive_calm(p, s, i, j, ci@, c2, target, 0, acc);
        },
        _ => {},
    }
}

proof fn lemma_pairs_from_calm(p: Program, s: StateV, i: int, j: int, acc: Seq<StateV>)
    ensures
        calm(pairs_from(p, s, i, j, acc)),
    decreases s.ptrs.len() - j,
{
    if j < 0 || j >= s.ptrs.len() {
    } else if j == i {
        lemma_pairs_from_calm(p, s, i, j + 1, acc);
    } else {
        lemma_pair_steps_calm(p, s, i, j, acc);
        if let Some(Ok(acc2)) = pair_steps(p, s, i, j, acc) {
            lemma_pairs_from_calm(p, s, i, j + 1, acc2);
        }
    }
}

proof fn lemma_deliver_calm(
    p: Program,
    s: StateV,
    value: i32,
    rs: Seq<(int, Target, Option<u32>)>,
    k: int,
    ns: StateV,
)
    ensures
        calm(deliver(p, s, value, rs, k, ns)),
    decreases rs.len() - k,
{
    if 0 <= k < rs.len() {
        let (j, target, bp) = rs[k];
        lemma_target_calm(p, s, target);
        if let Some(Ok(ix)) = crate::semantics::target_index(p, s, target) {
            if !(ix >= ns.mem.data.len() || j < 0 || j >= ns.ptrs.len()) {
                let next = match bp {
                    Some(t) => t,
                    None => crate::semantics::bumped(ns.ptrs[j]),
                };
                lemma_deliver_calm(
                    p,
                    s,
                    value,
                    rs,
                    k + 1,
                    StateV {
                        ptrs: ns.ptrs.update(j, next),
                        mem: crate::semantics::with_data(ns.mem, ns.mem.data.update(ix as int, value)),
                    },
                );
            }
        }
    }
}

proof fn lemma_branch_senders_calm(
    p: Program,
    s: StateV,
    choices: Seq<(CG, InstrPtr)>,
    c: ChannelName,
    j: int,
    k: int,
    acc: Seq<(int, i32, Option<u32>)>,
)
    ensures
        calm(branch_senders(p, s, choices, c, j, k, acc)),
    decreases choices.len() - k,
{
    if 0 <= k < choices.len() {
        if let CG::Send(c2, e) = choices[k].0 {
            lemma_aeval_calm(p, s, e);
            if crate::semantics::same_channel(c, c2) {
                if let Some(Ok(v)) = crate::semantics::aeval(p, s, e) {
                    lemma_branch_senders_calm(p, s, choices, c, j, k + 1, acc.push((j, v, Some(choices[k].1.0))));
                }
            } else {
                lemma_branch_senders_calm(p, s, choices, c, j, k + 1, acc);
            }
        } else {
            lemma_branch_senders_calm(p, s, choices, c, j, k + 1, acc);
        }
    }
}

proof fn lemma_senders_from_calm(
    p: Program,
    s: StateV,
    i: int,
    c: ChannelName,
    j: int,
    acc: Seq<(int, i32, Option<u32>)>,
)
    ensures
        calm(senders_from(p, s, i, c, j, acc)),
    decreases s.ptrs.len() - j,
{
    if j < 0 || j >= s.ptrs.len() {
    } else if j == i {
        lemma_senders_from_calm(p, s, i, c, j + 1, acc);
    } else {
        match crate::semantics::instr_of(p, s, j) {
            Some(Instr::SyncSend { channel, expr }) => {
                lemma_aeval_calm(p, s, expr);
                if crate::semantics::same_channel(c, channel) {
                    if let Some(Ok(v)) = crate::semantics::aeval(p, s, expr) {
                        lemma_senders_from_calm(p, s, i, c, j + 1, acc.push((j, v, None)));
                    }
                } else {
                    lemma_senders_from_calm(p, s, i, c, j + 1, acc);
                }
            },
            Some(Instr::Branch { choices, .. }) => {
                lemma_branch_senders_calm(p, s, choices@, c, j, 0, acc);
                if let Some(Ok(acc2)) = branch_senders(p, s, choices@, c, j, 0, acc) {
                    lemma_senders_from_calm(p, s, i, c, j + 1, acc2);
                }
            },
            Some(_) => lemma_senders_from_calm(p, s, i, c, j + 1, acc),
            None => {},
        }
    }
}

proof fn lemma_gather_orderings_calm(
    p: Program,
    s: StateV,
    i: int,
    target: Target,
    senders: Seq<(int, i32, Option<u32>)>,
    perms: Seq<Seq<usize>>,
    base: u32,
    len: u32,
    q: int,
    acc: Seq<StateV>,
)
    ensures
        calm(gather_orderings(p, s, i, target, senders, perms, base, len, q, acc)),
    decreases perms.len() - q,
{
    if 0 <= q < perms.len() {
        lemma_target_calm(p, s, target);
        if let Some(ns) = gather_into(senders, perms[q], base, len, 0, s) {
            if let Some(Ok(ix)) = crate::semantics::target_index(p, s, target) {
                if !(ix >= ns.mem.data.len() || i < 0 || i >= s.ptrs.len()) {
                    let count = (if perms[q].len() <= len {
                        perms[q].len() as int
                    } else {
                        len as int
                    }) as i32;
                    let st = StateV {
                        ptrs: ns.ptrs.update(i, crate::semantics::bumped(s.ptrs[i])),
                        mem: crate::semantics::with_data(ns.mem, ns.mem.data.update(ix as int, count)),
                    };
                    lemma_gather_orderings_calm(p, s, i, target, senders, perms, base, len, q + 1, acc.push(st));
                }
            }
        }
    }
}

proof fn lemma_collective_calm(p: Program, s: StateV, i: int)
    ensures
        calm(collective_steps(p, s, i)),
{
    match crate::semantics::instr_of(p, s, i) {
        Some(Instr::Broadcast { channel, k, expr }) => {
            lemma_aeval_calm(p, s, expr);
            if let Some(Ok(value)) = crate::semantics::aeval(p, s, expr) {
                if let Some(rs) = crate::semantics::receivers_from(p, s, i, channel, 0, seq![]) {
                    lemma_deliver_calm(p, s, value, rs, 0, s);
                }
            }
        },
        Some(Instr::Gather { channel, k, array, target }) => {
            let arr = array.0@;
            lemma_senders_from_calm(p, s, i, channel, 0, seq![]);
            if !(target matches Target::Array(a, _) && a.0@ == arr) {
                if let Some(slot) = crate::semantics::array_slot(p, arr) {
                    let base = p.targets@[slot].base_index;
                    let len = p.targets@[slot].length;
                    if let Some(Ok(senders)) = crate::semantics::senders_from(p, s, i, channel, 0, seq![]) {
                        if k >= 0 && senders.len() >= k {
                            lemma_gather_orderings_calm(
                                p,
                                s,
                                i,
                                target,
                                senders,
                                crate::perms::index_permutations(senders.len() as usize),
                                base,
                                len,
                                0,
                                seq![],
                            );
                        }
                    }
                }
            }
            assert(calm(gather_steps(p, s, i, channel, k, arr, target)));
        },
        _ => {},
    }
}

proof fn lemma_sync_from_calm(p: Program, s: StateV, i: int, acc: Seq<StateV>)
    ensures
        calm(sync_from(p, s, i, acc)),
    decreases s.ptrs.len() - i,
{
    if 0 <= i < s.ptrs.len() {
        lemma_collective_calm(p, s, i);
        if let Some(Ok(ts)) = collective_steps(p, s, i) {
            lemma_pairs_from_calm(p, s, i, 0, acc + ts);
            if let Some(Ok(acc2)) = pairs_from(p, s, i, 0, acc + ts) {
                lemma_sync_from_calm(p, s, i + 1, acc2);
            }
        }
    }
}

/// The synchronous transitions never fail with `Stuck` or `Halt`.
pub(crate) proof fn lemma_sync_steps_calm(p: Program, s: StateV)
    ensures
        calm(sync_steps(p, s)),
{
    lemma_sync_from_calm(p, s, 0, seq![]);
}

} // verus!
