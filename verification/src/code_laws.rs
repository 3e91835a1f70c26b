use vstd::prelude::*;

use crate::ast::{Command, CommandKind, CommunicationGuard, Guard, SourceSpan};
use crate::codegen::{
    bodies_len, cguard_bodies, cguard_choices, cguards_size, cmd_code, cmd_size, cmds_code,
    cmds_size, guard_bodies, guard_choices, guards_size, join_bodies, jumps_ok,
    lemma_cguard_bodies_len, lemma_cmd_code_len, lemma_cmd_jumps, lemma_cmds_code_len,
    lemma_guard_bodies_len, lemma_join_bodies_len, space_names, spaces_cguards, spaces_cmd,
    spaces_cmds, spaces_guards,
};
use crate::program::{ChannelMeta, InstrPtr, InstrV, TupleSpaceMeta};

verus! {

// ---------------------------------------------------------------------------
// Where the branches of generated code lead. In the code of a command
// placed at `at`, every choice of a `Branch` leads forward into the code,
// and its alternative forward, at most to the end of the code.

pub open spec fn branch_ok(code: Seq<(InstrV, Option<SourceSpan>)>, at: int, j: int) -> bool {
    match code[j].0 {
        InstrV::Branch { choices, otherwise } => {
            &&& forall|k: int| 0 <= k < choices.len() ==> at + j < (#[trigger] choices[k]).1.0 < at + code.len()
            &&& otherwise matches Some(q) ==> at + j < q.0 <= at + code.len()
        },
        _ => true,
    }
}

pub open spec fn branches_ok(code: Seq<(InstrV, Option<SourceSpan>)>, at: int) -> bool {
    forall|j: int| 0 <= j < code.len() ==> #[trigger] branch_ok(code, at, j)
}

proof fn lemma_branches_concat(a: Seq<(InstrV, Option<SourceSpan>)>, b: Seq<(InstrV, Option<SourceSpan>)>, at: int)
    requires
        branches_ok(a, at),
        branches_ok(b, at + a.len()),
    ensures
        branches_ok(a + b, at),
{
    let c = a + b;
    assert forall|j: int| 0 <= j < c.len() implies #[trigger] branch_ok(c, at, j) by {
        if j < a.len() {
            assert(branch_ok(a, at, j));
            assert(c[j] == a[j]);
        } else {
            assert(branch_ok(b, at + a.len(), j - a.len()));
            assert(c[j] == b[j - a.len()]);
        }
    }
}

pub(crate) proof fn lemma_guard_choices_range(gs: Seq<Guard>, at: int, sp: Seq<TupleSpaceMeta>, ch: Seq<ChannelMeta>)
    requires
        0 <= at,
        at + guards_size(gs) < u32::MAX,
        spaces_guards(gs).subset_of(space_names(sp)),
    ensures
        guard_choices(gs, at, sp, ch).len() == gs.len(),
        forall|k: int|
            0 <= k < gs.len() ==> at <= (#[trigger] guard_choices(gs, at, sp, ch)[k]).1.0 < at + guards_size(gs),
    decreases gs,
{
    if gs.len() > 0 {
        let init = gs.drop_last();
        lemma_guard_choices_range(init, at, sp, ch);
        lemma_guard_bodies_len(init, at, sp, ch);
        let cs = guard_choices(gs, at, sp, ch);
        assert forall|k: int| 0 <= k < gs.len() implies at <= (#[trigger] cs[k]).1.0 < at + guards_size(gs) by {
            if k < init.len() {
                assert(cs[k] == guard_choices(init, at, sp, ch)[k]);
            }
        }
    }
}

pub(crate) proof fn lemma_cguard_choices_range(
    gs: Seq<CommunicationGuard>,
    at: int,
    sp: Seq<TupleSpaceMeta>,
    ch: Seq<ChannelMeta>,
)
    requires
        0 <= at,
        at + cguards_size(gs) < u32::MAX,
        spaces_cguards(gs).subset_of(space_names(sp)),
    ensures
        cguard_choices(gs, at, sp, ch).len() == gs.len(),
        forall|k: int|
            0 <= k < gs.len() ==> at <= (#[trigger] cguard_choices(gs, at, sp, ch)[k]).1.0 < at + cguards_size(gs),
    decreases gs,
{
    if gs.len() > 0 {
        let init = gs.drop_last();
        lemma_cguard_choices_range(init, at, sp, ch);
        lemma_cguard_bodies_len(init, at, sp, ch);
        let cs = cguard_choices(gs, at, sp, ch);
        assert forall|k: int| 0 <= k < gs.len() implies at <= (#[trigger] cs[k]).1.0 < at + cguards_size(gs) by {
            if k < init.len() {
                assert(cs[k] == cguard_choices(init, at, sp, ch)[k]);
            }
        }
    }
}

/// A head whose targets lie in the rest of the code, followed by code whose
/// branches are in order.
proof fn lemma_head_branches(code: Seq<(InstrV, Option<SourceSpan>)>, at: int)
    requires
        code.len() >= 1,
        branch_ok(code, at, 0),
        branches_ok(code.drop_first(), at + 1),
    ensures
        branches_ok(code, at),
{
    assert forall|j: int| 0 <= j < code.len() implies #[trigger] branch_ok(code, at, j) by {
        if j > 0 {
            assert(branch_ok(code.drop_first(), at + 1, j - 1));
            assert(code.drop_first()[j - 1] == code[j]);
        }
    }
}

proof fn lemma_join_branches_tail(back: InstrPtr, span: SourceSpan, at: int)
    ensures
        branches_ok(seq![(InstrV::Goto(back), Some(span))], at),
{
    assert(branch_ok(seq![(InstrV::Goto(back), Some(span))], at, 0));
}

pub proof fn lemma_cmd_branches(c: Command, at: int, sp: Seq<TupleSpaceMeta>, ch: Seq<ChannelMeta>)
    requires
        0 <= at,
        at + cmd_size(c) < u32::MAX,
        spaces_cmd(c).subset_of(space_names(sp)),
    ensures
        branches_ok(cmd_code(c, at, sp, ch), at),
    decreases c,
{
    lemma_cmd_code_len(c, at, sp, ch);
    let code = cmd_code(c, at, sp, ch);
    match c.kind {
        CommandKind::If(gs) => {
            lemma_guard_bodies_len(gs@, at + 1, sp, ch);
            lemma_guard_choices_range(gs@, at + 1, sp, ch);
            let bodies = guard_bodies(gs@, at + 1, sp, ch);
            let end = at + 1 + bodies_len(bodies);
            lemma_guards_join_branches(gs@, at + 1, InstrPtr(end as u32), c.span, sp, ch);
            lemma_join_bodies_len(bodies, InstrPtr(end as u32), c.span);
            assert(code.drop_first() =~= join_bodies(bodies, InstrPtr(end as u32), c.span));
            lemma_head_branches(code, at);
        },
        CommandKind::Loop(gs) => {
            lemma_guard_bodies_len(gs@, at + 1, sp, ch);
            lemma_guard_choices_range(gs@, at + 1, sp, ch);
            let bodies = guard_bodies(gs@, at + 1, sp, ch);
            lemma_guards_join_branches(gs@, at + 1, InstrPtr(at as u32), c.span, sp, ch);
            lemma_join_bodies_len(bodies, InstrPtr(at as u32), c.span);
            assert(code.drop_first() =~= join_bodies(bodies, InstrPtr(at as u32), c.span));
            lemma_head_branches(code, at);
        },
        CommandKind::IfCG(gs) => {
            lemma_cguard_bodies_len(gs@, at + 1, sp, ch);
            lemma_cguard_choices_range(gs@, at + 1, sp, ch);
            let bodies = cguard_bodies(gs@, at + 1, sp, ch);
            let end = at + 1 + bodies_len(bodies);
            lemma_cguards_join_branches(gs@, at + 1, InstrPtr(end as u32), c.span, sp, ch);
            lemma_join_bodies_len(bodies, InstrPtr(end as u32), c.span);
            assert(code.drop_first() =~= join_bodies(bodies, InstrPtr(end as u32), c.span));
            lemma_head_branches(code, at);
        },
        CommandKind::LoopCG(gs) => {
            lemma_cguard_bodies_len(gs@, at + 1, sp, ch);
            lemma_cguard_choices_range(gs@, at + 1, sp, ch);
            let bodies = cguard_bodies(gs@, at + 1, sp, ch);
            lemma_cguards_join_branches(gs@, at + 1, InstrPtr(at as u32), c.span, sp, ch);
            lemma_join_bodies_len(bodies, InstrPtr(at as u32), c.span);
            assert(code.drop_first() =~= join_bodies(bodies, InstrPtr(at as u32), c.span));
            lemma_head_branches(code, at);
        },
        _ => {
            assert forall|j: int| 0 <= j < code.len() implies #[trigger] branch_ok(code, at, j) by {
                assert(!(code[j].0 is Branch));
            }
        },
    }
}

proof fn lemma_guards_join_branches(
    gs: Seq<Guard>,
    at: int,
    back: InstrPtr,
    span: SourceSpan,
    sp: Seq<TupleSpaceMeta>,
    ch: Seq<ChannelMeta>,
)
    requires
        0 <= at,
        at + guards_size(gs) < u32::MAX,
        spaces_guards(gs).subset_of(space_names(sp)),
    ensures
        branches_ok(join_bodies(guard_bodies(gs, at, sp, ch), back, span), at),
    decreases gs,
{
    let bs = guard_bodies(gs, at, sp, ch);
    if gs.len() == 0 {
        assert(join_bodies(bs, back, span) =~= Seq::<(InstrV, Option<SourceSpan>)>::empty());
    } else {
        let prev = guard_bodies(gs.drop_last(), at, sp, ch);
        lemma_guard_bodies_len(gs.drop_last(), at, sp, ch);
        lemma_guards_join_branches(gs.drop_last(), at, back, span, sp, ch);
        lemma_join_bodies_len(prev, back, span);
        let pos = at + bodies_len(prev);
        lemma_cmds_branches(gs.last().cmds.0@, pos, sp, ch);
        let body = cmds_code(gs.last().cmds.0@, pos, sp, ch);
        assert(bs.drop_last() =~= prev);
        let tail = seq![(InstrV::Goto(back), Some(span))];
        lemma_join_branches_tail(back, span, pos + body.len());
        lemma_branches_concat(join_bodies(prev, back, span), body, at);
        lemma_branches_concat(join_bodies(prev, back, span) + body, tail, at);
    }
}

proof fn lemma_cguards_join_branches(
    gs: Seq<CommunicationGuard>,
    at: int,
    back: InstrPtr,
    span: SourceSpan,
    sp: Seq<TupleSpaceMeta>,
    ch: Seq<ChannelMeta>,
)
    requires
        0 <= at,
        at + cguards_size(gs) < u32::MAX,
        spaces_cguards(gs).subset_of(space_names(sp)),
    ensures
        branches_ok(join_bodies(cguard_bodies(gs, at, sp, ch), back, span), at),
    decreases gs,
{
    let bs = cguard_bodies(gs, at, sp, ch);
    if gs.len() == 0 {
        assert(join_bodies(bs, back, span) =~= Seq::<(InstrV, Option<SourceSpan>)>::empty());
    } else {
        let prev = cguard_bodies(gs.drop_last(), at, sp, ch);
        lemma_cguard_bodies_len(gs.drop_last(), at, sp, ch);
        lemma_cguards_join_branches(gs.drop_last(), at, back, span, sp, ch);
        lemma_join_bodies_len(prev, back, span);
        let pos = at + bodies_len(prev);
        lemma_cmds_branches(gs.last().cmds.0@, pos, sp, ch);
        let body = cmds_code(gs.last().cmds.0@, pos, sp, ch);
        assert(bs.drop_last() =~= prev);
        let tail = seq![(InstrV::Goto(back), Some(span))];
        lemma_join_branches_tail(back, span, pos + body.len());
        lemma_branches_concat(join_bodies(prev, back, span), body, at);
        lemma_branches_concat(join_bodies(prev, back, span) + body, tail, at);
    }
}

pub proof fn lemma_cmds_branches(cs: Seq<Command>, at: int, sp: Seq<TupleSpaceMeta>, ch: Seq<ChannelMeta>)
    requires
        0 <= at,
        at + cmds_size(cs) < u32::MAX,
        spaces_cmds(cs).subset_of(space_names(sp)),
    ensures
        branches_ok(cmds_code(cs, at, sp, ch), at),
    decreases cs,
{
    if cs.len() == 0 {
        assert(cmds_code(cs, at, sp, ch) =~= Seq::<(InstrV, Option<SourceSpan>)>::empty());
    } else {
        lemma_cmds_branches(cs.drop_last(), at, sp, ch);
        lemma_cmds_code_len(cs.drop_last(), at, sp, ch);
        let prev = cmds_code(cs.drop_last(), at, sp, ch);
        lemma_cmd_branches(cs.last(), at + prev.len(), sp, ch);
        lemma_branches_concat(prev, cmd_code(cs.last(), at + prev.len(), sp, ch), at);
    }
}

/// The code of a command placed at `at` (what compiling the command appends
/// after the `at` instructions already there) has one instruction per unit
/// of its size and only leads within itself: every `Goto` goes forward at
/// most to the end of the code, or back onto a `Branch` of the code; every
/// choice of a `Branch` leads forward into the code, and its alternative
/// forward at most to the end.
pub proof fn law_command_code_within(c: Command, at: int, sp: Seq<TupleSpaceMeta>, ch: Seq<ChannelMeta>)
    requires
        0 <= at,
        at + cmd_size(c) < u32::MAX,
        spaces_cmd(c).subset_of(space_names(sp)),
    ensures
        cmd_code(c, at, sp, ch).len() == cmd_size(c),
        jumps_ok(cmd_code(c, at, sp, ch), at, -1),
        branches_ok(cmd_code(c, at, sp, ch), at),
{
    lemma_cmd_code_len(c, at, sp, ch);
    lemma_cmd_jumps(c, at, sp, ch);
    lemma_cmd_branches(c, at, sp, ch);
}

} // verus!
