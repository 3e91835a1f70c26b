use vstd::prelude::*;

use crate::ast::{
    span_end, Command, CommandKind, Commands, CommunicationGuard, Guard, Operation, SourceSpan, CG,
};
use crate::interpreter::{channel_position_of, space_position_of};
use crate::program::{ChannelMeta, Instr, InstrPtr, InstrV, TupleSpaceMeta};
use crate::semantics::{
    channel_position, is_space_named, lemma_first_index_some, space_position,
};

verus! {

// ---------------------------------------------------------------------------
// The code of commands. Each command compiles to a block placed at an
// absolute position `at`; a guarded command compiles to a `Branch` head,
// then the body of each guard followed by a jump: out of the block for
// `if`, back to the head for `do` and `loop`.

pub open spec fn bodies_len<T>(bs: Seq<Seq<T>>) -> int
    decreases bs.len(),
{
    if bs.len() == 0 {
        0
    } else {
        bodies_len(bs.drop_last()) + bs.last().len() + 1
    }
}

/// The bodies one after the other, each followed by a jump to `back`.
pub open spec fn join_bodies(
    bs: Seq<Seq<(InstrV, Option<SourceSpan>)>>,
    back: InstrPtr,
    span: SourceSpan,
) -> Seq<(InstrV, Option<SourceSpan>)>
    decreases bs.len(),
{
    if bs.len() == 0 {
        seq![]
    } else {
        join_bodies(bs.drop_last(), back, span) + bs.last() + seq![(InstrV::Goto(back), Some(span))]
    }
}

pub open spec fn cmd_code(
    c: Command,
    at: int,
    sp: Seq<TupleSpaceMeta>,
    ch: Seq<ChannelMeta>,
) -> Seq<(InstrV, Option<SourceSpan>)>
    decreases c,
{
    let s = Some(c.span);
    match c.kind {
        CommandKind::Assignment(t, e) => seq![(InstrV::Assign(t, e), s)],
        CommandKind::Skip => seq![(InstrV::Nop, s)],
        CommandKind::Placeholder => seq![(InstrV::Nop, s)],
        CommandKind::If(gs) => {
            let bodies = guard_bodies(gs@, at + 1, sp, ch);
            let end = at + 1 + bodies_len(bodies);
            seq![(InstrV::Branch { choices: guard_choices(gs@, at + 1, sp, ch), otherwise: None }, s)]
                + join_bodies(bodies, InstrPtr(end as u32), c.span)
        },
        CommandKind::IfCG(gs) => {
            let bodies = cguard_bodies(gs@, at + 1, sp, ch);
            let end = at + 1 + bodies_len(bodies);
            seq![(InstrV::Branch { choices: cguard_choices(gs@, at + 1, sp, ch), otherwise: None }, s)]
                + join_bodies(bodies, InstrPtr(end as u32), c.span)
        },
        CommandKind::Loop(gs) => {
            let bodies = guard_bodies(gs@, at + 1, sp, ch);
            let end = at + 1 + bodies_len(bodies);
            seq![
                (
                    InstrV::Branch {
                        choices: guard_choices(gs@, at + 1, sp, ch),
                        otherwise: Some(InstrPtr(end as u32)),
                    },
                    s,
                ),
            ] + join_bodies(bodies, InstrPtr(at as u32), c.span)
        },
        CommandKind::LoopCG(gs) => {
            let bodies = cguard_bodies(gs@, at + 1, sp, ch);
            seq![(InstrV::Branch { choices: cguard_choices(gs@, at + 1, sp, ch), otherwise: None }, s)]
                + join_bodies(bodies, InstrPtr(at as u32), c.span)
        },
        CommandKind::O(Operation::Put(ts, args)) => match space_position(sp, ts.0@) {
            Some(i) => seq![(InstrV::Put(sp[i as int].size, i, args@), s)],
            None => seq![],
        },
        CommandKind::O(Operation::Get(ts, fields)) => match space_position(sp, ts.0@) {
            Some(i) => seq![(InstrV::Get(sp[i as int].space_type, i, fields@), s)],
            None => seq![],
        },
        CommandKind::O(Operation::Query(ts, fields)) => match space_position(sp, ts.0@) {
            Some(i) => seq![(InstrV::Query(sp[i as int].space_type, i, fields@), s)],
            None => seq![],
        },
        CommandKind::Send(chn, e) => match channel_position(ch, chn.0@) {
            Some(i) => seq![(InstrV::Send(ch[i as int].size, i, e), s)],
            None => seq![(InstrV::SyncSend { channel: chn, expr: e }, s)],
        },
        CommandKind::Receive(chn, t) => match channel_position(ch, chn.0@) {
            Some(i) => seq![(InstrV::Receive(i, t), s)],
            None => seq![(InstrV::SyncReceive { channel: chn, target: t }, s)],
        },
        CommandKind::Broadcast(chn, k, e) => seq![(InstrV::Broadcast { channel: chn, k, expr: e }, s)],
        CommandKind::Gather(chn, k, a, t) => seq![
            (InstrV::Gather { channel: chn, k, array: a, target: t }, s),
        ],
    }
}

/// The code of commands placed one after the other from `at`.
pub open spec fn cmds_code(
    cs: Seq<Command>,
    at: int,
    sp: Seq<TupleSpaceMeta>,
    ch: Seq<ChannelMeta>,
) -> Seq<(InstrV, Option<SourceSpan>)>
    decreases cs,
{
    if cs.len() == 0 {
        seq![]
    } else {
        let prev = cmds_code(cs.drop_last(), at, sp, ch);
        prev + cmd_code(cs.last(), at + prev.len(), sp, ch)
    }
}

/// The code of the guards' bodies, the first placed at `at`, each followed
/// by one jump.
pub open spec fn guard_bodies(
    gs: Seq<Guard>,
    at: int,
    sp: Seq<TupleSpaceMeta>,
    ch: Seq<ChannelMeta>,
) -> Seq<Seq<(InstrV, Option<SourceSpan>)>>
    decreases gs,
{
    if gs.len() == 0 {
        seq![]
    } else {
        let prev = guard_bodies(gs.drop_last(), at, sp, ch);
        prev.push(cmds_code(gs.last().cmds.0@, at + bodies_len(prev), sp, ch))
    }
}

/// Each guard with the position of its body.
pub open spec fn guard_choices(
    gs: Seq<Guard>,
    at: int,
    sp: Seq<TupleSpaceMeta>,
    ch: Seq<ChannelMeta>,
) -> Seq<(CG, InstrPtr)>
    decreases gs,
{
    if gs.len() == 0 {
        seq![]
    } else {
        let prev = guard_bodies(gs.drop_last(), at, sp, ch);
        guard_choices(gs.drop_last(), at, sp, ch).push(
            (CG::BoolExpression(gs.last().guard), InstrPtr((at + bodies_len(prev)) as u32)),
        )
    }
}

pub open spec fn cguard_bodies(
    gs: Seq<CommunicationGuard>,
    at: int,
    sp: Seq<TupleSpaceMeta>,
    ch: Seq<ChannelMeta>,
) -> Seq<Seq<(InstrV, Option<SourceSpan>)>>
    decreases gs,
{
    if gs.len() == 0 {
        seq![]
    } else {
        let prev = cguard_bodies(gs.drop_last(), at, sp, ch);
        prev.push(cmds_code(gs.last().cmds.0@, at + bodies_len(prev), sp, ch))
    }
}

pub open spec fn cguard_choices(
    gs: Seq<CommunicationGuard>,
    at: int,
    sp: Seq<TupleSpaceMeta>,
    ch: Seq<ChannelMeta>,
) -> Seq<(CG, InstrPtr)>
    decreases gs,
{
    if gs.len() == 0 {
        seq![]
    } else {
        let prev = cguard_bodies(gs.drop_last(), at, sp, ch);
        cguard_choices(gs.drop_last(), at, sp, ch).push(
            (gs.last().guard, InstrPtr((at + bodies_len(prev)) as u32)),
        )
    }
}

/// The span of the `Halt` that ends a process: right after its last command.
pub open spec fn halt_span(cs: Seq<Command>) -> Option<SourceSpan> {
    if cs.len() == 0 {
        None
    } else {
        Some(span_end(cs.last().span))
    }
}

/// The code of all processes, one after the other, each ending in `Halt`.
pub open spec fn procs_code(
    ps: Seq<Commands>,
    sp: Seq<TupleSpaceMeta>,
    ch: Seq<ChannelMeta>,
) -> Seq<(InstrV, Option<SourceSpan>)>
    decreases ps.len(),
{
    if ps.len() == 0 {
        seq![]
    } else {
        let prev = procs_code(ps.drop_last(), sp, ch);
        prev + cmds_code(ps.last().0@, prev.len() as int, sp, ch) + seq![
            (InstrV::Halt, halt_span(ps.last().0@)),
        ]
    }
}

/// Where each process starts.
pub open spec fn entry_points(
    ps: Seq<Commands>,
    sp: Seq<TupleSpaceMeta>,
    ch: Seq<ChannelMeta>,
) -> Seq<InstrPtr>
    decreases ps.len(),
{
    if ps.len() == 0 {
        seq![]
    } else {
        entry_points(ps.drop_last(), sp, ch).push(
            InstrPtr(procs_code(ps.drop_last(), sp, ch).len() as u32),
        )
    }
}

// ---------------------------------------------------------------------------
// Sizes, which do not depend on where the code is placed.

pub open spec fn cmd_size(c: Command) -> nat
    decreases c,
{
    match c.kind {
        CommandKind::If(gs) => 1 + guards_size(gs@),
        CommandKind::IfCG(gs) => 1 + cguards_size(gs@),
        CommandKind::Loop(gs) => 1 + guards_size(gs@),
        CommandKind::LoopCG(gs) => 1 + cguards_size(gs@),
        _ => 1,
    }
}

pub open spec fn cmds_size(cs: Seq<Command>) -> nat
    decreases cs,
{
    if cs.len() == 0 {
        0
    } else {
        cmds_size(cs.drop_last()) + cmd_size(cs.last())
    }
}

pub open spec fn guards_size(gs: Seq<Guard>) -> nat
    decreases gs,
{
    if gs.len() == 0 {
        0
    } else {
        guards_size(gs.drop_last()) + cmds_size(gs.last().cmds.0@) + 1
    }
}

pub open spec fn cguards_size(gs: Seq<CommunicationGuard>) -> nat
    decreases gs,
{
    if gs.len() == 0 {
        0
    } else {
        cguards_size(gs.drop_last()) + cmds_size(gs.last().cmds.0@) + 1
    }
}

/// The number of instructions of a program.
pub open spec fn program_size(ps: Seq<Commands>) -> nat
    decreases ps.len(),
{
    if ps.len() == 0 {
        0
    } else {
        program_size(ps.drop_last()) + cmds_size(ps.last().0@) + 1
    }
}

// ---------------------------------------------------------------------------
// The tuple spaces that operations name.

pub open spec fn op_space(op: Operation) -> Seq<char> {
    match op {
        Operation::Put(ts, _) => ts.0@,
        Operation::Get(ts, _) => ts.0@,
        Operation::Query(ts, _) => ts.0@,
    }
}

pub open spec fn spaces_cmd(c: Command) -> Set<Seq<char>>
    decreases c,
{
    match c.kind {
        CommandKind::If(gs) => spaces_guards(gs@),
        CommandKind::IfCG(gs) => spaces_cguards(gs@),
        CommandKind::Loop(gs) => spaces_guards(gs@),
        CommandKind::LoopCG(gs) => spaces_cguards(gs@),
        CommandKind::O(op) => set![op_space(op)],
        _ => Set::empty(),
    }
}

pub open spec fn spaces_cmds(cs: Seq<Command>) -> Set<Seq<char>>
    decreases cs,
{
    if cs.len() == 0 {
        Set::empty()
    } else {
        spaces_cmds(cs.drop_last()).union(spaces_cmd(cs.last()))
    }
}

pub open spec fn spaces_guards(gs: Seq<Guard>) -> Set<Seq<char>>
    decreases gs,
{
    if gs.len() == 0 {
        Set::empty()
    } else {
        spaces_guards(gs.drop_last()).union(spaces_cmds(gs.last().cmds.0@))
    }
}

pub open spec fn spaces_cguards(gs: Seq<CommunicationGuard>) -> Set<Seq<char>>
    decreases gs,
{
    if gs.len() == 0 {
        Set::empty()
    } else {
        spaces_cguards(gs.drop_last()).union(spaces_cmds(gs.last().cmds.0@))
    }
}

/// The tuple spaces named by the operations of a program.
pub open spec fn program_spaces(ps: Seq<Commands>) -> Set<Seq<char>>
    decreases ps.len(),
{
    if ps.len() == 0 {
        Set::empty()
    } else {
        program_spaces(ps.drop_last()).union(spaces_cmds(ps.last().0@))
    }
}

/// The names of the tuple spaces of a layout.
pub open spec fn space_names(sp: Seq<TupleSpaceMeta>) -> Set<Seq<char>> {
    Set::new(|n: Seq<char>| exists|i: int| 0 <= i < sp.len() && #[trigger] sp[i].name.0@ == n)
}

// ---------------------------------------------------------------------------
// Lengths.

pub proof fn lemma_join_bodies_len(bs: Seq<Seq<(InstrV, Option<SourceSpan>)>>, back: InstrPtr, span: SourceSpan)
    ensures
        join_bodies(bs, back, span).len() == bodies_len(bs),
    decreases bs.len(),
{
    if bs.len() > 0 {
        lemma_join_bodies_len(bs.drop_last(), back, span);
    }
}

pub proof fn lemma_space_position_some(sp: Seq<TupleSpaceMeta>, n: Seq<char>)
    requires
        space_names(sp).contains(n),
    ensures
        space_position(sp, n) is Some,
{
    let i = choose|i: int| 0 <= i < sp.len() && #[trigger] sp[i].name.0@ == n;
    assert(is_space_named(sp, n)(i));
    lemma_first_index_some(sp.len() as int, is_space_named(sp, n), i);
}

pub proof fn lemma_cmd_code_len(c: Command, at: int, sp: Seq<TupleSpaceMeta>, ch: Seq<ChannelMeta>)
    requires
        spaces_cmd(c).subset_of(space_names(sp)),
    ensures
        cmd_code(c, at, sp, ch).len() == cmd_size(c),
    decreases c,
{
    match c.kind {
        CommandKind::If(gs) => {
            lemma_guard_bodies_len(gs@, at + 1, sp, ch);
            let bodies = guard_bodies(gs@, at + 1, sp, ch);
            lemma_join_bodies_len(bodies, InstrPtr((at + 1 + bodies_len(bodies)) as u32), c.span);
        },
        CommandKind::Loop(gs) => {
            lemma_guard_bodies_len(gs@, at + 1, sp, ch);
            let bodies = guard_bodies(gs@, at + 1, sp, ch);
            lemma_join_bodies_len(bodies, InstrPtr(at as u32), c.span);
        },
        CommandKind::IfCG(gs) => {
            lemma_cguard_bodies_len(gs@, at + 1, sp, ch);
            let bodies = cguard_bodies(gs@, at + 1, sp, ch);
            lemma_join_bodies_len(bodies, InstrPtr((at + 1 + bodies_len(bodies)) as u32), c.span);
        },
        CommandKind::LoopCG(gs) => {
            lemma_cguard_bodies_len(gs@, at + 1, sp, ch);
            let bodies = cguard_bodies(gs@, at + 1, sp, ch);
            lemma_join_bodies_len(bodies, InstrPtr(at as u32), c.span);
        },
        CommandKind::O(op) => {
            assert(spaces_cmd(c).contains(op_space(op)));
            lemma_space_position_some(sp, op_space(op));
        },
        _ => {},
    }
}

pub proof fn lemma_cmds_code_len(cs: Seq<Command>, at: int, sp: Seq<TupleSpaceMeta>, ch: Seq<ChannelMeta>)
    requires
        spaces_cmds(cs).subset_of(space_names(sp)),
    ensures
        cmds_code(cs, at, sp, ch).len() == cmds_size(cs),
    decreases cs,
{
    if cs.len() > 0 {
        lemma_cmds_code_len(cs.drop_last(), at, sp, ch);
        let prev = cmds_code(cs.drop_last(), at, sp, ch);
        lemma_cmd_code_len(cs.last(), at + prev.len(), sp, ch);
    }
}

pub proof fn lemma_guard_bodies_len(gs: Seq<Guard>, at: int, sp: Seq<TupleSpaceMeta>, ch: Seq<ChannelMeta>)
    requires
        spaces_guards(gs).subset_of(space_names(sp)),
    ensures
        bodies_len(guard_bodies(gs, at, sp, ch)) == guards_size(gs),
        guard_bodies(gs, at, sp, ch).len() == gs.len(),
    decreases gs,
{
    if gs.len() > 0 {
        lemma_guard_bodies_len(gs.drop_last(), at, sp, ch);
        let prev = guard_bodies(gs.drop_last(), at, sp, ch);
        lemma_cmds_code_len(gs.last().cmds.0@, at + bodies_len(prev), sp, ch);
        assert(guard_bodies(gs, at, sp, ch).drop_last() =~= prev);
    }
}

pub proof fn lemma_cguard_bodies_len(
    gs: Seq<CommunicationGuard>,
    at: int,
    sp: Seq<TupleSpaceMeta>,
    ch: Seq<ChannelMeta>,
)
    requires
        spaces_cguards(gs).subset_of(space_names(sp)),
    ensures
        bodies_len(cguard_bodies(gs, at, sp, ch)) == cguards_size(gs),
        cguard_bodies(gs, at, sp, ch).len() == gs.len(),
    decreases gs,
{
    if gs.len() > 0 {
        lemma_cguard_bodies_len(gs.drop_last(), at, sp, ch);
        let prev = cguard_bodies(gs.drop_last(), at, sp, ch);
        lemma_cmds_code_len(gs.last().cmds.0@, at + bodies_len(prev), sp, ch);
        assert(cguard_bodies(gs, at, sp, ch).drop_last() =~= prev);
    }
}

pub proof fn lemma_procs_code_len(ps: Seq<Commands>, sp: Seq<TupleSpaceMeta>, ch: Seq<ChannelMeta>)
    requires
        program_spaces(ps).subset_of(space_names(sp)),
    ensures
        procs_code(ps, sp, ch).len() == program_size(ps),
    decreases ps.len(),
{
    if ps.len() > 0 {
        lemma_procs_code_len(ps.drop_last(), sp, ch);
        lemma_cmds_code_len(ps.last().0@, procs_code(ps.drop_last(), sp, ch).len() as int, sp, ch);
    }
}

// ---------------------------------------------------------------------------
// Prefixes: the lists above are built from the front, so the value on a
// prefix is a part of the value on the whole.

pub proof fn lemma_cmds_prefix(cs: Seq<Command>, k: int)
    requires
        0 <= k <= cs.len(),
    ensures
        cmds_size(cs.take(k)) <= cmds_size(cs),
        spaces_cmds(cs.take(k)).subset_of(spaces_cmds(cs)),
    decreases cs.len(),
{
    if k < cs.len() {
        assert(cs.drop_last().take(k) =~= cs.take(k));
        lemma_cmds_prefix(cs.drop_last(), k);
    } else {
        assert(cs.take(k) =~= cs);
    }
}

pub proof fn lemma_guards_prefix(gs: Seq<Guard>, k: int)
    requires
        0 <= k <= gs.len(),
    ensures
        guards_size(gs.take(k)) <= guards_size(gs),
        spaces_guards(gs.take(k)).subset_of(spaces_guards(gs)),
    decreases gs.len(),
{
    if k < gs.len() {
        assert(gs.drop_last().take(k) =~= gs.take(k));
        lemma_guards_prefix(gs.drop_last(), k);
    } else {
        assert(gs.take(k) =~= gs);
    }
}

pub proof fn lemma_cguards_prefix(gs: Seq<CommunicationGuard>, k: int)
    requires
        0 <= k <= gs.len(),
    ensures
        cguards_size(gs.take(k)) <= cguards_size(gs),
        spaces_cguards(gs.take(k)).subset_of(spaces_cguards(gs)),
    decreases gs.len(),
{
    if k < gs.len() {
        assert(gs.drop_last().take(k) =~= gs.take(k));
        lemma_cguards_prefix(gs.drop_last(), k);
    } else {
        assert(gs.take(k) =~= gs);
    }
}

pub proof fn lemma_procs_prefix(ps: Seq<Commands>, k: int)
    requires
        0 <= k <= ps.len(),
    ensures
        program_size(ps.take(k)) <= program_size(ps),
        program_spaces(ps.take(k)).subset_of(program_spaces(ps)),
    decreases ps.len(),
{
    if k < ps.len() {
        assert(ps.drop_last().take(k) =~= ps.take(k));
        lemma_procs_prefix(ps.drop_last(), k);
    } else {
        assert(ps.take(k) =~= ps);
    }
}

// ---------------------------------------------------------------------------
// Jumps. Within the code of a command placed at `at`, every `Goto` jumps
// forward, at most to the end of the code, or back onto a `Branch` of the
// same code; inside a list of guarded bodies, a jump may also go to `back`.

pub open spec fn jump_ok(code: Seq<(InstrV, Option<SourceSpan>)>, at: int, j: int, back: int) -> bool {
    match code[j].0 {
        InstrV::Goto(q) => {
            ||| at + j < q.0 <= at + code.len()
            ||| (at <= q.0 < at + j && code[q.0 - at].0 is Branch)
            ||| q.0 == back
        },
        _ => true,
    }
}

pub open spec fn jumps_ok(code: Seq<(InstrV, Option<SourceSpan>)>, at: int, back: int) -> bool {
    forall|j: int| 0 <= j < code.len() ==> #[trigger] jump_ok(code, at, j, back)
}

/// Every `Goto` jumps forward inside the code, or back onto a `Branch`.
pub open spec fn closed(code: Seq<(InstrV, Option<SourceSpan>)>) -> bool {
    forall|j: int|
        0 <= j < code.len() ==> match #[trigger] code[j].0 {
            InstrV::Goto(q) => (j < q.0 < code.len()) || (q.0 < j && code[q.0 as int].0 is Branch),
            _ => true,
        }
}

pub proof fn lemma_jumps_concat(
    a: Seq<(InstrV, Option<SourceSpan>)>,
    b: Seq<(InstrV, Option<SourceSpan>)>,
    at: int,
    back: int,
)
    requires
        jumps_ok(a, at, back),
        jumps_ok(b, at + a.len(), back),
    ensures
        jumps_ok(a + b, at, back),
{
    let c = a + b;
    assert forall|j: int| 0 <= j < c.len() implies #[trigger] jump_ok(c, at, j, back) by {
        if j < a.len() {
            assert(jump_ok(a, at, j, back));
            assert(c[j] == a[j]);
            if let InstrV::Goto(q) = a[j].0 {
                if at <= q.0 < at + j {
                    assert(c[q.0 - at] == a[q.0 - at]);
                }
            }
        } else {
            assert(jump_ok(b, at + a.len(), j - a.len(), back));
            assert(c[j] == b[j - a.len()]);
            if let InstrV::Goto(q) = b[j - a.len()].0 {
                if at + a.len() <= q.0 < at + j {
                    assert(c[q.0 - at] == b[q.0 - at - a.len()]);
                }
            }
        }
    }
}

pub proof fn lemma_cmd_jumps(c: Command, at: int, sp: Seq<TupleSpaceMeta>, ch: Seq<ChannelMeta>)
    requires
        0 <= at,
        at + cmd_size(c) < u32::MAX,
        spaces_cmd(c).subset_of(space_names(sp)),
    ensures
        jumps_ok(cmd_code(c, at, sp, ch), at, -1),
    decreases c,
{
    lemma_cmd_code_len(c, at, sp, ch);
    let code = cmd_code(c, at, sp, ch);
    match c.kind {
        CommandKind::If(gs) => {
            lemma_guard_bodies_len(gs@, at + 1, sp, ch);
            let bodies = guard_bodies(gs@, at + 1, sp, ch);
            let end = at + 1 + bodies_len(bodies);
            lemma_guards_join_jumps(gs@, at + 1, InstrPtr(end as u32), c.span, sp, ch);
            assert(code.drop_first() =~= join_bodies(bodies, InstrPtr(end as u32), c.span));
            lemma_head_jumps(code, at, end);
        },
        CommandKind::Loop(gs) => {
            lemma_guard_bodies_len(gs@, at + 1, sp, ch);
            lemma_guards_join_jumps(gs@, at + 1, InstrPtr(at as u32), c.span, sp, ch);
            let bodies = guard_bodies(gs@, at + 1, sp, ch);
            assert(code.drop_first() =~= join_bodies(bodies, InstrPtr(at as u32), c.span));
            lemma_head_jumps(code, at, at);
        },
        CommandKind::IfCG(gs) => {
            lemma_cguard_bodies_len(gs@, at + 1, sp, ch);
            let bodies = cguard_bodies(gs@, at + 1, sp, ch);
            let end = at + 1 + bodies_len(bodies);
            lemma_cguards_join_jumps(gs@, at + 1, InstrPtr(end as u32), c.span, sp, ch);
            assert(code.drop_first() =~= join_bodies(bodies, InstrPtr(end as u32), c.span));
            lemma_head_jumps(code, at, end);
        },
        CommandKind::LoopCG(gs) => {
            lemma_cguard_bodies_len(gs@, at + 1, sp, ch);
            lemma_cguards_join_jumps(gs@, at + 1, InstrPtr(at as u32), c.span, sp, ch);
            let bodies = cguard_bodies(gs@, at + 1, sp, ch);
            assert(code.drop_first() =~= join_bodies(bodies, InstrPtr(at as u32), c.span));
            lemma_head_jumps(code, at, at);
        },
        _ => {
            assert forall|j: int| 0 <= j < code.len() implies #[trigger] jump_ok(code, at, j, -1) by {
                assert(!(code[j].0 is Goto));
            }
        },
    }
}

/// A `Branch` head followed by guarded bodies whose jumps to `back` leave
/// the block or return to the head.
proof fn lemma_head_jumps(code: Seq<(InstrV, Option<SourceSpan>)>, at: int, back: int)
    requires
        code.len() >= 1,
        code[0].0 is Branch,
        jumps_ok(code.drop_first(), at + 1, back),
        back == at || back == at + code.len(),
    ensures
        jumps_ok(code, at, -1),
{
    assert forall|j: int| 0 <= j < code.len() implies #[trigger] jump_ok(code, at, j, -1) by {
        if j > 0 {
            assert(jump_ok(code.drop_first(), at + 1, j - 1, back));
            assert(code.drop_first()[j - 1] == code[j]);
            if let InstrV::Goto(q) = code[j].0 {
                if at + 1 <= q.0 < at + j {
                    assert(code.drop_first()[q.0 - at - 1] == code[q.0 - at]);
                }
            }
        }
    }
}

pub proof fn lemma_guards_join_jumps(
    gs: Seq<Guard>,
    at: int,
    back: InstrPtr,
    span: SourceSpan,
    sp: Seq<TupleSpaceMeta>,
    ch: Seq<ChannelMeta>,
)
    requires
        0 <= at,
        at + guards_size(gs) < u32::MAX,
        spaces_guards(gs).subset_of(space_names(sp)),
    ensures
        jumps_ok(join_bodies(guard_bodies(gs, at, sp, ch), back, span), at, back.0 as int),
    decreases gs,
{
    let bs = guard_bodies(gs, at, sp, ch);
    if gs.len() == 0 {
        assert(join_bodies(bs, back, span) =~= Seq::<(InstrV, Option<SourceSpan>)>::empty());
    } else {
        let prev = guard_bodies(gs.drop_last(), at, sp, ch);
        lemma_guard_bodies_len(gs.drop_last(), at, sp, ch);
        lemma_guards_join_jumps(gs.drop_last(), at, back, span, sp, ch);
        lemma_join_bodies_len(prev, back, span);
        let pos = at + bodies_len(prev);
        lemma_cmds_jumps(gs.last().cmds.0@, pos, sp, ch);
        let body = cmds_code(gs.last().cmds.0@, pos, sp, ch);
        assert(bs.drop_last() =~= prev);
        assert(jumps_ok(body, pos, back.0 as int)) by {
            assert forall|j: int| 0 <= j < body.len() implies #[trigger] jump_ok(body, pos, j, back.0 as int) by {
                assert(jump_ok(body, pos, j, -1));
            }
        }
        let tail = seq![(InstrV::Goto(back), Some(span))];
        assert(jump_ok(tail, pos + body.len(), 0, back.0 as int));
        lemma_jumps_concat(join_bodies(prev, back, span), body, at, back.0 as int);
        lemma_jumps_concat(join_bodies(prev, back, span) + body, tail, at, back.0 as int);
    }
}

pub proof fn lemma_cguards_join_jumps(
    gs: Seq<CommunicationGuard>,
    at: int,
    back: InstrPtr,
    span: SourceSpan,
    sp: Seq<TupleSpaceMeta>,
    ch: Seq<ChannelMeta>,
)
    requires
        0 <= at,
        at + cguards_size(gs) < u32::MAX,
        spaces_cguards(gs).subset_of(space_names(sp)),
    ensures
        jumps_ok(join_bodies(cguard_bodies(gs, at, sp, ch), back, span), at, back.0 as int),
    decreases gs,
{
    let bs = cguard_bodies(gs, at, sp, ch);
    if gs.len() == 0 {
        assert(join_bodies(bs, back, span) =~= Seq::<(InstrV, Option<SourceSpan>)>::empty());
    } else {
        let prev = cguard_bodies(gs.drop_last(), at, sp, ch);
        lemma_cguard_bodies_len(gs.drop_last(), at, sp, ch);
        lemma_cguards_join_jumps(gs.drop_last(), at, back, span, sp, ch);
        lemma_join_bodies_len(prev, back, span);
        let pos = at + bodies_len(prev);
        lemma_cmds_jumps(gs.last().cmds.0@, pos, sp, ch);
        let body = cmds_code(gs.last().cmds.0@, pos, sp, ch);
        assert(bs.drop_last() =~= prev);
        assert(jumps_ok(body, pos, back.0 as int)) by {
            assert forall|j: int| 0 <= j < body.len() implies #[trigger] jump_ok(body, pos, j, back.0 as int) by {
                assert(jump_ok(body, pos, j, -1));
            }
        }
        let tail = seq![(InstrV::Goto(back), Some(span))];
        assert(jump_ok(tail, pos + body.len(), 0, back.0 as int));
        lemma_jumps_concat(join_bodies(prev, back, span), body, at, back.0 as int);
        lemma_jumps_concat(join_bodies(prev, back, span) + body, tail, at, back.0 as int);
    }
}

pub proof fn lemma_cmds_jumps(cs: Seq<Command>, at: int, sp: Seq<TupleSpaceMeta>, ch: Seq<ChannelMeta>)
    requires
        0 <= at,
        at + cmds_size(cs) < u32::MAX,
        spaces_cmds(cs).subset_of(space_names(sp)),
    ensures
        jumps_ok(cmds_code(cs, at, sp, ch), at, -1),
    decreases cs,
{
    if cs.len() == 0 {
        assert(cmds_code(cs, at, sp, ch) =~= Seq::<(InstrV, Option<SourceSpan>)>::empty());
    } else {
        lemma_cmds_jumps(cs.drop_last(), at, sp, ch);
        lemma_cmds_code_len(cs.drop_last(), at, sp, ch);
        let prev = cmds_code(cs.drop_last(), at, sp, ch);
        lemma_cmd_jumps(cs.last(), at + prev.len(), sp, ch);
        lemma_jumps_concat(prev, cmd_code(cs.last(), at + prev.len(), sp, ch), at, -1);
    }
}

/// The code of all processes is closed, and ends with a `Halt`.
pub proof fn lemma_procs_closed(ps: Seq<Commands>, sp: Seq<TupleSpaceMeta>, ch: Seq<ChannelMeta>)
    requires
        program_size(ps) < u32::MAX,
        program_spaces(ps).subset_of(space_names(sp)),
    ensures
        jumps_ok(procs_code(ps, sp, ch), 0, -1),
        closed(procs_code(ps, sp, ch)),
        ps.len() > 0 ==> procs_code(ps, sp, ch).last().0 is Halt,
    decreases ps.len(),
{
    let code = procs_code(ps, sp, ch);
    if ps.len() == 0 {
        assert(code =~= Seq::<(InstrV, Option<SourceSpan>)>::empty());
    } else {
        lemma_procs_closed(ps.drop_last(), sp, ch);
        lemma_procs_code_len(ps.drop_last(), sp, ch);
        let prev = procs_code(ps.drop_last(), sp, ch);
        let body = cmds_code(ps.last().0@, prev.len() as int, sp, ch);
        lemma_cmds_jumps(ps.last().0@, prev.len() as int, sp, ch);
        lemma_cmds_code_len(ps.last().0@, prev.len() as int, sp, ch);
        let tail = seq![(InstrV::Halt, halt_span(ps.last().0@))];
        assert(jump_ok(tail, (prev.len() + body.len()) as int, 0, -1));
        lemma_jumps_concat(prev, body, 0, -1);
        lemma_jumps_concat(prev + body, tail, 0, -1);
        assert(code == prev + body + tail);
        assert forall|j: int| 0 <= j < code.len() implies match #[trigger] code[j].0 {
            InstrV::Goto(q) => (j < q.0 < code.len()) || (q.0 < j && code[q.0 as int].0 is Branch),
            _ => true,
        } by {
            assert(jump_ok(code, 0, j, -1));
            if j < prev.len() {
                assert(code[j] == prev[j]);
                assert(jump_ok(prev, 0, j, -1));
            } else if j < prev.len() + body.len() {
                assert(code[j] == body[j - prev.len()]);
                assert(jump_ok(body, prev.len() as int, j - prev.len(), -1));
            }
        }
    }
}

// ---------------------------------------------------------------------------
// Emitting code.

/// Instructions with their source spans, as they are emitted.
pub(crate) struct Code {
    pub(crate) instrs: Vec<Instr>,
    pub(crate) spans: Vec<Option<SourceSpan>>,
}

impl Code {
    pub(crate) open spec fn wf(&self) -> bool {
        self.instrs@.len() == self.spans@.len()
    }

    pub(crate) open spec fn lines(&self) -> Seq<(InstrV, Option<SourceSpan>)> {
        Seq::new(self.instrs@.len(), |i: int| (self.instrs@[i]@, self.spans@[i]))
    }

    pub(crate) fn new() -> (r: Code)
        ensures
            r.wf(),
            r.lines() == Seq::<(InstrV, Option<SourceSpan>)>::empty(),
    {
        let r = Code { instrs: Vec::new(), spans: Vec::new() };
        assert(r.lines() =~= Seq::<(InstrV, Option<SourceSpan>)>::empty());
        r
    }

    pub(crate) fn push(&mut self, i: Instr, s: Option<SourceSpan>)
        requires
            old(self).wf(),
        ensures
            final(self).wf(),
            final(self).lines() == old(self).lines().push((i@, s)),
    {
        let ghost before = self.lines();
        let ghost iv = i@;
        self.instrs.push(i);
        self.spans.push(s);
        assert(self.lines() =~= before.push((iv, s)));
    }

    pub(crate) fn append(&mut self, other: Code)
        requires
            old(self).wf(),
            other.wf(),
        ensures
            final(self).wf(),
            final(self).lines() == old(self).lines() + other.lines(),
    {
        let ghost before = self.lines();
        let ghost added = other.lines();
        let mut other = other;
        self.instrs.append(&mut other.instrs);
        self.spans.append(&mut other.spans);
        assert(self.lines() =~= before + added);
    }

    pub(crate) fn len(&self) -> (r: usize)
        ensures
            r == self.instrs@.len(),
    {
        self.instrs.len()
    }
}

pub(crate) open spec fn codes_lines(v: Seq<Code>) -> Seq<Seq<(InstrV, Option<SourceSpan>)>> {
    v.map_values(|c: Code| c.lines())
}

pub(crate) open spec fn all_wf(v: Seq<Code>) -> bool {
    forall|i: int| 0 <= i < v.len() ==> (#[trigger] v[i]).wf()
}

/// Appends each body followed by a jump to `back`.
fn emit_bodies(out: &mut Code, bodies: Vec<Code>, back: InstrPtr, span: SourceSpan)
    requires
        old(out).wf(),
        all_wf(bodies@),
    ensures
        final(out).wf(),
        final(out).lines() == old(out).lines() + join_bodies(codes_lines(bodies@), back, span),
{
    let ghost start = out.lines();
    let ghost bv = codes_lines(bodies@);
    let ghost n = bodies@.len();
    let mut rest = bodies;
    let ghost mut k: int = 0;
    assert(bv.take(0) =~= Seq::<Seq<(InstrV, Option<SourceSpan>)>>::empty());
    assert(start + join_bodies(bv.take(0), back, span) =~= start);
    while rest.len() > 0
        invariant
            out.wf(),
            all_wf(rest@),
            k + rest@.len() == n,
            0 <= k,
            bv.len() == n,
            codes_lines(rest@) == bv.skip(k),
            out.lines() == start + join_bodies(bv.take(k), back, span),
        decreases rest@.len(),
    {
        let ghost rest_before = rest@;
        let body = rest.remove(0);
        assert(body.lines() == bv[k]) by {
            assert(codes_lines(rest_before)[0] == bv.skip(k)[0]);
        }
        assert(rest_before[0].wf());
        out.append(body);
        out.push(Instr::Goto(back), Some(span));
        proof {
            assert(bv.take(k + 1).drop_last() =~= bv.take(k));
            assert(bv.take(k + 1).last() == bv[k]);
            assert forall|i: int| 0 <= i < rest@.len() implies #[trigger] codes_lines(rest@)[i] == bv.skip(k + 1)[i] by {
                assert(rest@[i] == rest_before[i + 1]);
                assert(codes_lines(rest_before)[i + 1] == bv.skip(k)[i + 1]);
            }
            assert(codes_lines(rest@) =~= bv.skip(k + 1));
            assert forall|i: int| 0 <= i < rest@.len() implies (#[trigger] rest@[i]).wf() by {
                assert(rest@[i] == rest_before[i + 1]);
            }
        }
        proof {
            k = k + 1;
        }
    }
    assert(bv.take(n as int) =~= bv);
}

fn compile_cmd(c: Command, at: u32, sp: &Vec<TupleSpaceMeta>, ch: &Vec<ChannelMeta>) -> (r: Code)
    requires
        at + cmd_size(c) < u32::MAX,
        spaces_cmd(c).subset_of(space_names(sp@)),
    ensures
        r.wf(),
        r.lines() == cmd_code(c, at as int, sp@, ch@),
    decreases c, 0int,
{
    proof {
        lemma_cmd_code_len(c, at as int, sp@, ch@);
    }
    let ghost cv = c;
    let span = c.span;
    let mut out = Code::new();
    match c.kind {
        CommandKind::Assignment(t, e) => {
            out.push(Instr::Assign(t, e), Some(span));
        },
        CommandKind::Skip => {
            out.push(Instr::Nop, Some(span));
        },
        CommandKind::Placeholder => {
            out.push(Instr::Nop, Some(span));
        },
        CommandKind::If(gs) => {
            proof {
                lemma_guard_bodies_len(gs@, at + 1, sp@, ch@);
            }
            let (choices, bodies, end) = compile_guards(gs, at + 1, sp, ch);
            out.push(Instr::Branch { choices, otherwise: None }, Some(span));
            emit_bodies(&mut out, bodies, InstrPtr(end), span);
        },
        CommandKind::Loop(gs) => {
            proof {
                lemma_guard_bodies_len(gs@, at + 1, sp@, ch@);
            }
            let (choices, bodies, end) = compile_guards(gs, at + 1, sp, ch);
            out.push(Instr::Branch { choices, otherwise: Some(InstrPtr(end)) }, Some(span));
            emit_bodies(&mut out, bodies, InstrPtr(at), span);
        },
        CommandKind::IfCG(gs) => {
            proof {
                lemma_cguard_bodies_len(gs@, at + 1, sp@, ch@);
            }
            let (choices, bodies, end) = compile_cguards(gs, at + 1, sp, ch);
            out.push(Instr::Branch { choices, otherwise: None }, Some(span));
            emit_bodies(&mut out, bodies, InstrPtr(end), span);
        },
        CommandKind::LoopCG(gs) => {
            proof {
                lemma_cguard_bodies_len(gs@, at + 1, sp@, ch@);
            }
            let (choices, bodies, _end) = compile_cguards(gs, at + 1, sp, ch);
            out.push(Instr::Branch { choices, otherwise: None }, Some(span));
            emit_bodies(&mut out, bodies, InstrPtr(at), span);
        },
        CommandKind::O(op) => {
            proof {
                assert(spaces_cmd(cv).contains(op_space(op)));
                lemma_space_position_some(sp@, op_space(op));
            }
            match op {
                Operation::Put(ts, args) => {
                    if let Some(i) = space_position_of(sp, &ts.0) {
                        let size = sp[i as usize].size;
                        out.push(Instr::Put(size, i, args), Some(span));
                    }
                },
                Operation::Get(ts, fields) => {
                    if let Some(i) = space_position_of(sp, &ts.0) {
                        let ty = sp[i as usize].space_type;
                        out.push(Instr::Get(ty, i, fields), Some(span));
                    }
                },
                Operation::Query(ts, fields) => {
                    if let Some(i) = space_position_of(sp, &ts.0) {
                        let ty = sp[i as usize].space_type;
                        out.push(Instr::Query(ty, i, fields), Some(span));
                    }
                },
            }
        },
        CommandKind::Send(chn, e) => {
            match channel_position_of(ch, &chn.0) {
                Some(i) => {
                    let size = ch[i as usize].size;
                    out.push(Instr::Send(size, i, e), Some(span));
                },
                None => {
                    out.push(Instr::SyncSend { channel: chn, expr: e }, Some(span));
                },
            }
        },
        CommandKind::Receive(chn, t) => {
            match channel_position_of(ch, &chn.0) {
                Some(i) => {
                    out.push(Instr::Receive(i, t), Some(span));
                },
                None => {
                    out.push(Instr::SyncReceive { channel: chn, target: t }, Some(span));
                },
            }
        },
        CommandKind::Broadcast(chn, k, e) => {
            out.push(Instr::Broadcast { channel: chn, k, expr: e }, Some(span));
        },
        CommandKind::Gather(chn, k, a, t) => {
            out.push(Instr::Gather { channel: chn, k, array: a, target: t }, Some(span));
        },
    }
    assert(out.lines() =~= cmd_code(cv, at as int, sp@, ch@));
    out
}

pub(crate) fn compile_cmds(cs: Vec<Command>, at: u32, sp: &Vec<TupleSpaceMeta>, ch: &Vec<ChannelMeta>) -> (r: Code)
    requires
        at + cmds_size(cs@) < u32::MAX,
        spaces_cmds(cs@).subset_of(space_names(sp@)),
    ensures
        r.wf(),
        r.lines() == cmds_code(cs@, at as int, sp@, ch@),
    decreases cs@, 1int,
{
    let ghost csv = cs@;
    let ghost n = cs@.len();
    let mut rest = cs;
    let mut out = Code::new();
    let ghost mut k: int = 0;
    let mut pos: u32 = at;
    assert(csv.take(0) =~= Seq::<Command>::empty());
    while rest.len() > 0
        invariant
            out.wf(),
            k + rest@.len() == n,
            csv.len() == n,
            csv == cs@,
            0 <= k,
            rest@ == csv.skip(k),
            out.lines() == cmds_code(csv.take(k), at as int, sp@, ch@),
            pos == at + cmds_size(csv.take(k)),
            at + cmds_size(csv) < u32::MAX,
            spaces_cmds(csv).subset_of(space_names(sp@)),
        decreases rest@.len(),
    {
        let ghost rest_before = rest@;
        let c = rest.remove(0);
        proof {
            assert(c == csv[k]);
            assert(csv.take(k + 1).drop_last() =~= csv.take(k));
            assert(csv.take(k + 1).last() == csv[k]);
            lemma_cmds_prefix(csv, k + 1);
            lemma_cmds_code_len(csv.take(k), at as int, sp@, ch@);
            assert(rest@ =~= csv.skip(k + 1));
        }
        let piece = compile_cmd(c, pos, sp, ch);
        proof {
            lemma_cmd_code_len(csv[k], pos as int, sp@, ch@);
        }
        let len = piece.len();
        out.append(piece);
        pos = pos + len as u32;
        proof {
            k = k + 1;
        }
    }
    assert(csv.take(n as int) =~= csv);
    out
}

fn compile_guards(gs: Vec<Guard>, at: u32, sp: &Vec<TupleSpaceMeta>, ch: &Vec<ChannelMeta>) -> (r: (
    Vec<(CG, InstrPtr)>,
    Vec<Code>,
    u32,
))
    requires
        at + guards_size(gs@) < u32::MAX,
        spaces_guards(gs@).subset_of(space_names(sp@)),
    ensures
        r.0@ == guard_choices(gs@, at as int, sp@, ch@),
        all_wf(r.1@),
        codes_lines(r.1@) == guard_bodies(gs@, at as int, sp@, ch@),
        r.2 == at + guards_size(gs@),
    decreases gs@, 1int,
{
    let ghost gsv = gs@;
    let ghost n = gs@.len();
    let mut rest = gs;
    let mut choices: Vec<(CG, InstrPtr)> = Vec::new();
    let mut bodies: Vec<Code> = Vec::new();
    let ghost mut k: int = 0;
    let mut pos: u32 = at;
    assert(gsv.take(0) =~= Seq::<Guard>::empty());
    assert(codes_lines(bodies@) =~= Seq::<Seq<(InstrV, Option<SourceSpan>)>>::empty());
    while rest.len() > 0
        invariant
            k + rest@.len() == n,
            gsv.len() == n,
            gsv == gs@,
            0 <= k,
            rest@ == gsv.skip(k),
            choices@ == guard_choices(gsv.take(k), at as int, sp@, ch@),
            all_wf(bodies@),
            codes_lines(bodies@) == guard_bodies(gsv.take(k), at as int, sp@, ch@),
            pos == at + guards_size(gsv.take(k)),
            at + guards_size(gsv) < u32::MAX,
            spaces_guards(gsv).subset_of(space_names(sp@)),
        decreases rest@.len(),
    {
        let g = rest.remove(0);
        let ghost pre = gsv.take(k);
        proof {
            assert(g == gsv[k]);
            assert(gsv.take(k + 1).drop_last() =~= pre);
            assert(gsv.take(k + 1).last() == gsv[k]);
            lemma_guards_prefix(gsv, k + 1);
            lemma_guard_bodies_len(pre, at as int, sp@, ch@);
            assert(rest@ =~= gsv.skip(k + 1));
        }
        let Guard { guard, cmds } = g;
        choices.push((CG::BoolExpression(guard), InstrPtr(pos)));
        let body = compile_cmds(cmds.0, pos, sp, ch);
        proof {
            lemma_cmds_code_len(gsv[k].cmds.0@, pos as int, sp@, ch@);
        }
        let len = body.len();
        let ghost bodies_before = bodies@;
        bodies.push(body);
        proof {
            assert(codes_lines(bodies@) =~= codes_lines(bodies_before).push(body.lines()));
            assert forall|i: int| 0 <= i < bodies@.len() implies (#[trigger] bodies@[i]).wf() by {
                if i < bodies_before.len() {
                    assert(bodies@[i] == bodies_before[i]);
                }
            }
        }
        pos = pos + len as u32 + 1;
        proof {
            k = k + 1;
        }
    }
    assert(gsv.take(n as int) =~= gsv);
    (choices, bodies, pos)
}

fn compile_cguards(gs: Vec<CommunicationGuard>, at: u32, sp: &Vec<TupleSpaceMeta>, ch: &Vec<ChannelMeta>) -> (r: (
    Vec<(CG, InstrPtr)>,
    Vec<Code>,
    u32,
))
    requires
        at + cguards_size(gs@) < u32::MAX,
        spaces_cguards(gs@).subset_of(space_names(sp@)),
    ensures
        r.0@ == cguard_choices(gs@, at as int, sp@, ch@),
        all_wf(r.1@),
        codes_lines(r.1@) == cguard_bodies(gs@, at as int, sp@, ch@),
        r.2 == at + cguards_size(gs@),
    decreases gs@, 1int,
{
    let ghost gsv = gs@;
    let ghost n = gs@.len();
    let mut rest = gs;
    let mut choices: Vec<(CG, InstrPtr)> = Vec::new();
    let mut bodies: Vec<Code> = Vec::new();
    let ghost mut k: int = 0;
    let mut pos: u32 = at;
    assert(gsv.take(0) =~= Seq::<CommunicationGuard>::empty());
    assert(codes_lines(bodies@) =~= Seq::<Seq<(InstrV, Option<SourceSpan>)>>::empty());
    while rest.len() > 0
        invariant
            k + rest@.len() == n,
            gsv.len() == n,
            gsv == gs@,
            0 <= k,
            rest@ == gsv.skip(k),
            choices@ == cguard_choices(gsv.take(k), at as int, sp@, ch@),
            all_wf(bodies@),
            codes_lines(bodies@) == cguard_bodies(gsv.take(k), at as int, sp@, ch@),
            pos == at + cguards_size(gsv.take(k)),
            at + cguards_size(gsv) < u32::MAX,
            spaces_cguards(gsv).subset_of(space_names(sp@)),
        decreases rest@.len(),
    {
        let g = rest.remove(0);
        let ghost pre = gsv.take(k);
        proof {
            assert(g == gsv[k]);
            assert(gsv.take(k + 1).drop_last() =~= pre);
            assert(gsv.take(k + 1).last() == gsv[k]);
            lemma_cguards_prefix(gsv, k + 1);
            lemma_cguard_bodies_len(pre, at as int, sp@, ch@);
            assert(rest@ =~= gsv.skip(k + 1));
        }
        let CommunicationGuard { guard, cmds } = g;
        choices.push((guard, InstrPtr(pos)));
        let body = compile_cmds(cmds.0, pos, sp, ch);
        proof {
            lemma_cmds_code_len(gsv[k].cmds.0@, pos as int, sp@, ch@);
        }
        let len = body.len();
        let ghost bodies_before = bodies@;
        bodies.push(body);
        proof {
            assert(codes_lines(bodies@) =~= codes_lines(bodies_before).push(body.lines()));
            assert forall|i: int| 0 <= i < bodies@.len() implies (#[trigger] bodies@[i]).wf() by {
                if i < bodies_before.len() {
                    assert(bodies@[i] == bodies_before[i]);
                }
            }
        }
        pos = pos + len as u32 + 1;
        proof {
            k = k + 1;
        }
    }
    assert(gsv.take(n as int) =~= gsv);
    (choices, bodies, pos)
}

} // verus!
