use vstd::prelude::*;

use crate::ast::{AExpr, ChannelName, Target, CG};
use crate::program::{Instr, InstrPtr, Program, StateV};
use crate::semantics::{
    branch_receivers, broadcast_steps, bumped, deliver, instr_of, receivers_from, same_channel,
};

verus! {

// ---------------------------------------------------------------------------
// Where a broadcast moves its receivers: a process waiting at a receive on
// the channel moves to its next instruction; a process waiting at a branch
// moves into the body of a choice that receives on the channel.

/// The guard receives on channel `c`.
pub open spec fn receives_on(g: CG, c: ChannelName) -> bool {
    g matches CG::Receive(c2, _) && same_channel(c, c2)
}

/// `q` is where a choice of `choices` that receives on `c` leads.
pub open spec fn receiving_target(choices: Seq<(CG, InstrPtr)>, c: ChannelName, q: u32) -> bool {
    exists|k: int| 0 <= k < choices.len() && receives_on(choices[k].0, c) && (#[trigger] choices[k]).1.0 == q
}

/// Process `j` waits at a plain receive on channel `c`.
pub open spec fn plain_receiver(p: Program, s: StateV, c: ChannelName, j: int) -> bool {
    instr_of(p, s, j) matches Some(Instr::SyncReceive { channel, .. }) && same_channel(c, channel)
}

/// An entry of a list of receivers is right for the state: a process other
/// than the sender, at a plain receive (going on to the next instruction),
/// or at a branch with a choice that receives on `c` and leads where the
/// entry says.
pub open spec fn entry_ok(p: Program, s: StateV, i: int, c: ChannelName, e: (int, Target, Option<u32>)) -> bool {
    &&& 0 <= e.0 < s.ptrs.len()
    &&& e.0 != i
    &&& match e.2 {
        None => plain_receiver(p, s, c, e.0),
        Some(q) => instr_of(p, s, e.0) matches Some(Instr::Branch { choices, .. }) && receiving_target(
            choices@,
            c,
            q,
        ),
    }
}

/// Every entry is right, and a plain receiver has one entry only.
pub open spec fn receivers_ok(p: Program, s: StateV, i: int, c: ChannelName, rs: Seq<(int, Target, Option<u32>)>) -> bool {
    &&& forall|m: int| 0 <= m < rs.len() ==> entry_ok(p, s, i, c, #[trigger] rs[m])
    &&& forall|m: int, n: int|
        0 <= m < rs.len() && 0 <= n < rs.len() && m != n && (#[trigger] rs[m]).2 is None ==> (#[trigger] rs[n]).0
            != rs[m].0
}

proof fn lemma_branch_receivers_entries(choices: Seq<(CG, InstrPtr)>, c: ChannelName, j: int)
    ensures
        forall|m: int|
            0 <= m < branch_receivers(choices, c, j).len() ==> {
                let e = #[trigger] branch_receivers(choices, c, j)[m];
                &&& e.0 == j
                &&& e.2 matches Some(q) && receiving_target(choices, c, q)
            },
    decreases choices.len(),
{
    if choices.len() > 0 {
        let init = choices.drop_last();
        lemma_branch_receivers_entries(init, c, j);
        let br = branch_receivers(choices, c, j);
        let bi = branch_receivers(init, c, j);
        assert forall|m: int| 0 <= m < br.len() implies {
            let e = #[trigger] br[m];
            &&& e.0 == j
            &&& e.2 matches Some(q) && receiving_target(choices, c, q)
        } by {
            if m < bi.len() {
                assert(br[m] == bi[m]);
                let q = bi[m].2->0;
                let k = choose|k: int| 0 <= k < init.len() && receives_on(init[k].0, c) && (#[trigger] init[k]).1.0 == q;
                assert(choices[k] == init[k]);
            } else {
                let k = choices.len() - 1;
                assert(choices[k] == choices.last());
            }
        }
    }
}

proof fn lemma_receivers_from_ok(
    p: Program,
    s: StateV,
    i: int,
    c: ChannelName,
    j: int,
    acc: Seq<(int, Target, Option<u32>)>,
)
    requires
        0 <= j,
        receivers_ok(p, s, i, c, acc),
        forall|m: int| 0 <= m < acc.len() ==> (#[trigger] acc[m]).0 < j,
    ensures
        receivers_from(p, s, i, c, j, acc) matches Some(rs) ==> {
            &&& receivers_ok(p, s, i, c, rs)
            &&& forall|j2: int|
                j <= j2 < s.ptrs.len() && j2 != i && #[trigger] plain_receiver(p, s, c, j2) ==> exists|m: int|
                    0 <= m < rs.len() && rs[m].0 == j2 && rs[m].2 is None
        },
    decreases s.ptrs.len() - j,
{
    if j < s.ptrs.len() {
        if j == i {
            lemma_receivers_from_ok(p, s, i, c, j + 1, acc);
        } else {
            match instr_of(p, s, j) {
                None => {},
                Some(Instr::SyncReceive { channel, target }) => {
                    if same_channel(c, channel) {
                        let acc2 = acc.push((j, target, None));
                        assert(receivers_ok(p, s, i, c, acc2)) by {
                            assert forall|m: int| 0 <= m < acc2.len() implies entry_ok(p, s, i, c, #[trigger] acc2[m]) by {
                                if m < acc.len() {
                                    assert(acc2[m] == acc[m]);
                                }
                            }
                            assert forall|m: int, n: int|
                                0 <= m < acc2.len() && 0 <= n < acc2.len() && m != n && (#[trigger] acc2[m]).2 is None
                                    implies (#[trigger] acc2[n]).0 != acc2[m].0 by {
                                if m < acc.len() && n < acc.len() {
                                    assert(acc2[m] == acc[m]);
                                    assert(acc2[n] == acc[n]);
                                } else if m < acc.len() {
                                    assert(acc2[m] == acc[m]);
                                } else {
                                    assert(acc2[n] == acc[n]);
                                }
                            }
                        }
                        assert forall|m: int| 0 <= m < acc2.len() implies (#[trigger] acc2[m]).0 < j + 1 by {
                            if m < acc.len() {
                                assert(acc2[m] == acc[m]);
                            }
                        }
                        lemma_receivers_from_ok(p, s, i, c, j + 1, acc2);
                        lemma_receivers_from_keeps(p, s, i, c, j + 1, acc2);
                        if let Some(rs) = receivers_from(p, s, i, c, j + 1, acc2) {
                            assert(rs[acc.len() as int] == acc2[acc.len() as int]);
                        }
                    } else {
                        lemma_receivers_from_ok(p, s, i, c, j + 1, acc);
                    }
                },
                Some(Instr::Branch { choices, .. }) => {
                    let br = branch_receivers(choices@, c, j);
                    let acc2 = acc + br;
                    lemma_branch_receivers_entries(choices@, c, j);
                    assert(receivers_ok(p, s, i, c, acc2)) by {
                        assert forall|m: int| 0 <= m < acc2.len() implies entry_ok(p, s, i, c, #[trigger] acc2[m]) by {
                            if m < acc.len() {
                                assert(acc2[m] == acc[m]);
                            } else {
                                assert(acc2[m] == br[m - acc.len()]);
                            }
                        }
                        assert forall|m: int, n: int|
                            0 <= m < acc2.len() && 0 <= n < acc2.len() && m != n && (#[trigger] acc2[m]).2 is None
                                implies (#[trigger] acc2[n]).0 != acc2[m].0 by {
                            if m < acc.len() {
                                assert(acc2[m] == acc[m]);
                                if n < acc.len() {
                                    assert(acc2[n] == acc[n]);
                                } else {
                                    assert(acc2[n] == br[n - acc.len()]);
                                }
                            } else {
                                assert(acc2[m] == br[m - acc.len()]);
                            }
                        }
                    }
                    assert forall|m: int| 0 <= m < acc2.len() implies (#[trigger] acc2[m]).0 < j + 1 by {
                        if m < acc.len() {
                            assert(acc2[m] == acc[m]);
                        } else {
                            assert(acc2[m] == br[m - acc.len()]);
                        }
                    }
                    lemma_receivers_from_ok(p, s, i, c, j + 1, acc2);
                },
                Some(_) => lemma_receivers_from_ok(p, s, i, c, j + 1, acc),
            }
        }
    }
}

proof fn lemma_receivers_from_keeps(
    p: Program,
    s: StateV,
    i: int,
    c: ChannelName,
    j: int,
    acc: Seq<(int, Target, Option<u32>)>,
)
    ensures
        receivers_from(p, s, i, c, j, acc) matches Some(rs) ==> acc.len() <= rs.len() && forall|m: int|
            0 <= m < acc.len() ==> rs[m] == #[trigger] acc[m],
    decreases s.ptrs.len() - j,
{
    if 0 <= j < s.ptrs.len() {
        if j == i {
            lemma_receivers_from_keeps(p, s, i, c, j + 1, acc);
        } else {
            match instr_of(p, s, j) {
                None => {},
                Some(Instr::SyncReceive { channel, target }) => {
                    if same_channel(c, channel) {
                        let acc2 = acc.push((j, target, None));
                        lemma_receivers_from_keeps(p, s, i, c, j + 1, acc2);
                        assert forall|m: int| 0 <= m < acc.len() implies acc2[m] == #[trigger] acc[m] by {}
                    } else {
                        lemma_receivers_from_keeps(p, s, i, c, j + 1, acc);
                    }
                },
                Some(Instr::Branch { choices, .. }) => {
                    let acc2 = acc + branch_receivers(choices@, c, j);
                    lemma_receivers_from_keeps(p, s, i, c, j + 1, acc2);
                    assert forall|m: int| 0 <= m < acc.len() implies acc2[m] == #[trigger] acc[m] by {}
                },
                Some(_) => lemma_receivers_from_keeps(p, s, i, c, j + 1, acc),
            }
        }
    }
}

/// Where process `j` stands after the receivers before `k` have taken the
/// value.
pub open spec fn delivered_so_far(
    p: Program,
    s: StateV,
    c: ChannelName,
    rs: Seq<(int, Target, Option<u32>)>,
    k: int,
    ns: StateV,
    j: int,
) -> bool {
    &&& (instr_of(p, s, j) matches Some(Instr::Branch { choices, .. }) ==> ns.ptrs[j] == s.ptrs[j]
        || receiving_target(choices@, c, ns.ptrs[j]))
    &&& forall|m: int|
        0 <= m < rs.len() && (#[trigger] rs[m]).0 == j && rs[m].2 is None ==> ns.ptrs[j] == if m < k {
            bumped(s.ptrs[j])
        } else {
            s.ptrs[j]
        }
}

proof fn lemma_deliver_moves(
    p: Program,
    s: StateV,
    i: int,
    c: ChannelName,
    value: i32,
    rs: Seq<(int, Target, Option<u32>)>,
    k: int,
    ns: StateV,
)
    requires
        0 <= i < s.ptrs.len(),
        0 <= k <= rs.len(),
        receivers_ok(p, s, i, c, rs),
        ns.ptrs.len() == s.ptrs.len(),
        ns.ptrs[i] == s.ptrs[i],
        forall|j: int| 0 <= j < s.ptrs.len() ==> #[trigger] delivered_so_far(p, s, c, rs, k, ns, j),
    ensures
        deliver(p, s, value, rs, k, ns) matches Some(Ok(x)) ==> {
            &&& x.ptrs.len() == s.ptrs.len()
            &&& x.ptrs[i] == s.ptrs[i]
            &&& forall|j: int| 0 <= j < s.ptrs.len() ==> #[trigger] delivered_so_far(p, s, c, rs, rs.len() as int, x, j)
        },
    decreases rs.len() - k,
{
    if k < rs.len() {
        let (j0, target, bp) = rs[k];
        assert(entry_ok(p, s, i, c, rs[k]));
        assert(j0 == rs[k].0 && j0 != i);
        if let Some(Ok(ix)) = crate::semantics::target_index(p, s, target) {
            if !(ix >= ns.mem.data.len() || j0 < 0 || j0 >= ns.ptrs.len()) {
                let next = match bp {
                    Some(t) => t,
                    None => bumped(ns.ptrs[j0]),
                };
                let ns2 = StateV {
                    ptrs: ns.ptrs.update(j0, next),
                    mem: crate::semantics::with_data(ns.mem, ns.mem.data.update(ix as int, value)),
                };
                assert forall|j: int| 0 <= j < s.ptrs.len() implies #[trigger] delivered_so_far(p, s, c, rs, k + 1, ns2, j) by {
                    assert(delivered_so_far(p, s, c, rs, k, ns, j));
                    if j == j0 {
                        match bp {
                            Some(q) => {
                                assert forall|m: int|
                                    0 <= m < rs.len() && (#[trigger] rs[m]).0 == j && rs[m].2 is None implies false by {
                                    assert(m != k);
                                }
                            },
                            None => {
                                assert(ns.ptrs[j] == s.ptrs[j]);
                                assert forall|m: int|
                                    0 <= m < rs.len() && (#[trigger] rs[m]).0 == j && rs[m].2 is None implies m == k by {
                                    if m != k {
                                        assert(rs[k].0 != rs[m].0);
                                    }
                                }
                            },
                        }
                    } else {
                        assert forall|m: int|
                            0 <= m < rs.len() && (#[trigger] rs[m]).0 == j && rs[m].2 is None implies m != k by {}
                    }
                }
                assert(ns2.ptrs[i] == ns.ptrs[i]);
                lemma_deliver_moves(p, s, i, c, value, rs, k + 1, ns2);
            }
        }
    }
}

/// Where process `j` may stand after a broadcast by process `i` on `c`:
/// the sender and every plain receiver on `c` at their next instruction;
/// a process at a branch where it was, or in the body of a choice that
/// receives on `c`.
pub open spec fn broadcast_move_ok(p: Program, s: StateV, i: int, c: ChannelName, j: int, x: u32) -> bool {
    &&& j == i ==> x == bumped(s.ptrs[i])
    &&& j != i && plain_receiver(p, s, c, j) ==> x == bumped(s.ptrs[j])
    &&& j != i ==> match instr_of(p, s, j) {
        Some(Instr::Branch { choices, .. }) => x == s.ptrs[j] || receiving_target(choices@, c, x),
        _ => true,
    }
}

/// In every transition of a broadcast by process `i` on channel `c`, the
/// sender moves to its next instruction; every other process waiting at a
/// plain receive on `c` moves to its next instruction; and every process
/// waiting at a branch either stays or moves into the body of a choice of
/// that branch that receives on `c`, never elsewhere.
pub proof fn law_broadcast_moves_receivers(p: Program, s: StateV, i: int, c: ChannelName, k: i32, expr: AExpr)
    requires
        0 <= i < s.ptrs.len(),
    ensures
        broadcast_steps(p, s, i, c, k, expr) matches Some(Ok(v)) ==> forall|m: int, j: int|
            0 <= m < v.len() && 0 <= j < s.ptrs.len() ==> broadcast_move_ok(p, s, i, c, j, #[trigger] v[m].ptrs[j]),
{
    if let Some(Ok(value)) = crate::semantics::aeval(p, s, expr) {
        if let Some(rs) = receivers_from(p, s, i, c, 0, seq![]) {
            lemma_receivers_from_ok(p, s, i, c, 0, seq![]);
            assert forall|j: int| 0 <= j < s.ptrs.len() implies #[trigger] delivered_so_far(p, s, c, rs, 0, s, j) by {}
            lemma_deliver_moves(p, s, i, c, value, rs, 0, s);
            if k >= 0 && k <= rs.len() {
                if let Some(Ok(ns)) = deliver(p, s, value, rs, 0, s) {
                    let v = broadcast_steps(p, s, i, c, k, expr)->0->Ok_0;
                    assert forall|m: int, j: int| 0 <= m < v.len() && 0 <= j < s.ptrs.len() implies broadcast_move_ok(
                        p,
                        s,
                        i,
                        c,
                        j,
                        #[trigger] v[m].ptrs[j],
                    ) by {
                        assert(m == 0);
                        assert(delivered_so_far(p, s, c, rs, rs.len() as int, ns, j));
                        if j != i && plain_receiver(p, s, c, j) {
                            let w = choose|w: int| 0 <= w < rs.len() && rs[w].0 == j && rs[w].2 is None;
                            assert(rs[w].0 == j);
                        }
                    }
                }
            }
        }
    }
}

} // verus!
