use vstd::prelude::*;

use indexmap::IndexMap;

use crate::ast::{
    Array, BufferSize, Channel, ChannelName, Command, CommandKind, Commands, CommunicationGuard,
    Guard, Operation, SourceSpan, TargetDecl, TupleSpace, TupleSpaceName, TupleSpaceType,
};
use crate::codegen::{
    closed, cmd_size, cmds_size, compile_cmds, cguards_size, entry_points, guards_size,
    halt_span, lemma_cmds_code_len, lemma_procs_closed, lemma_procs_code_len, lemma_procs_prefix,
    op_space, procs_code, program_size, program_spaces, space_names, spaces_cguards, spaces_cmd,
    spaces_cmds, spaces_guards, Code,
};
use crate::collections::{
    array_size_entries, channel_entries, channel_entry_view, channel_map_entries, has_key,
    tuple_space_entries, tuple_space_entry_view, tuple_space_map_contains,
    tuple_space_map_entries,
};
use crate::layout::{
    build_metas, channel_entry_proj, channel_meta_view, channels_sorted, collect_program,
    decl_length, fv_program, law_layout_disjoint, layout, layout_end, layout_total, meta_view,
    sorted_channels, sorted_spaces, space_entry_proj, space_meta_view, spaces_sorted,
};
use crate::order::{decl_lt, decls_view, elems, strictly_sorted, DeclV};
use crate::inspect::{chunk_ok, flatten, resized};
use crate::state_text::showable;
use crate::program::StateV;
use crate::program::{
    flow_ok, instr_flow_ok, ChannelMeta, Instr, InstrPtr, InstrV, Program, TargetMeta,
    TupleSpaceMeta,
};

verus! {

/// The names of the entries of a map.
pub open spec fn entry_names<T>(e: Seq<(Seq<char>, T)>) -> Set<Seq<char>> {
    Set::new(|n: Seq<char>| has_key(e, n))
}

/// The instructions of a program with their source spans.
pub open(crate) spec fn program_lines(p: Program) -> Seq<(InstrV, Option<SourceSpan>)> {
    Seq::new(p.instrs@.len(), |i: int| (p.instrs@[i]@, p.source_map@[i]))
}

/// What `compile` builds: the locations that the processes mention and the
/// additional ones, strictly sorted, laid out one after the other; the
/// tuple spaces and channels sorted by name; the code of each process
/// followed by `Halt`, and the entry point of each.
pub open(crate) spec fn compiled(
    p: Program,
    ps: Seq<Commands>,
    extra: Seq<DeclV>,
    spaces: Seq<(Seq<char>, (TupleSpaceType, BufferSize, Seq<Seq<i32>>))>,
    chans: Seq<(Seq<char>, (BufferSize, Seq<i32>))>,
    sizes: Seq<(Seq<char>, u32)>,
) -> bool {
    let decls = p.targets@.map_values(|m: TargetMeta| m.target@);
    &&& strictly_sorted(decls)
    &&& elems(decls) == fv_program(ps).union(elems(extra))
    &&& p.targets@.map_values(|m: TargetMeta| meta_view(m)) == layout(decls, sizes)
    &&& spaces_sorted(p.tuple_spaces@)
    &&& p.tuple_spaces@.map_values(|m: TupleSpaceMeta| space_meta_view(m)).to_set() == spaces.map_values(
        |e: (Seq<char>, (TupleSpaceType, BufferSize, Seq<Seq<i32>>))| space_entry_proj(e),
    ).to_set()
    &&& channels_sorted(p.channels@)
    &&& p.channels@.map_values(|m: ChannelMeta| channel_meta_view(m)).to_set() == chans.map_values(
        |e: (Seq<char>, (BufferSize, Seq<i32>))| channel_entry_proj(e),
    ).to_set()
    &&& program_lines(p) == procs_code(ps, p.tuple_spaces@, p.channels@)
    &&& p.entry_points@ == entry_points(ps, p.tuple_spaces@, p.channels@)
}

proof fn lemma_layout_targets(ds: Seq<DeclV>, sizes: Seq<(Seq<char>, u32)>)
    ensures
        layout(ds, sizes).len() == ds.len(),
        forall|i: int| 0 <= i < ds.len() ==> (#[trigger] layout(ds, sizes)[i]).0 == ds[i],
    decreases ds.len(),
{
    if ds.len() > 0 {
        lemma_layout_targets(ds.drop_last(), sizes);
    }
}

/// Code that is closed and ends in `Halt` has well founded control flow.
proof fn lemma_flow_ok(instrs: Seq<Instr>, spans: Seq<Option<SourceSpan>>, code: Seq<(InstrV, Option<SourceSpan>)>)
    requires
        code == Seq::new(instrs.len(), |i: int| (instrs[i]@, spans[i])),
        closed(code),
        code.len() > 0 ==> code.last().0 is Halt,
        instrs.len() < u32::MAX,
    ensures
        flow_ok(instrs),
{
    assert forall|i: int| 0 <= i < instrs.len() implies #[trigger] instr_flow_ok(instrs, i) by {
        assert(code[i].0 == instrs[i]@);
        match instrs[i] {
            Instr::Nop => {
                if i + 1 == instrs.len() {
                    assert(code.last() == code[i]);
                }
            },
            Instr::Goto(q) => {
                if q.0 < i {
                    assert(code[q.0 as int].0 == instrs[q.0 as int]@);
                }
            },
            _ => {},
        }
    }
}

/// The code of all processes, each followed by `Halt`, and their entry points.
fn compile_processes(ps: Vec<Commands>, sp: &Vec<TupleSpaceMeta>, ch: &Vec<ChannelMeta>) -> (r: (Code, Vec<InstrPtr>))
    requires
        program_size(ps@) < u32::MAX,
        program_spaces(ps@).subset_of(space_names(sp@)),
    ensures
        r.0.wf(),
        r.0.lines() == procs_code(ps@, sp@, ch@),
        r.1@ == entry_points(ps@, sp@, ch@),
{
    let ghost psv = ps@;
    let ghost n = ps@.len();
    let mut rest = ps;
    let mut code = Code::new();
    let mut entries: Vec<InstrPtr> = Vec::new();
    let ghost mut k: int = 0;
    assert(psv.take(0) =~= Seq::<Commands>::empty());
    while rest.len() > 0
        invariant
            0 <= k,
            k + rest@.len() == n,
            psv.len() == n,
            rest@ == psv.skip(k),
            code.wf(),
            code.lines() == procs_code(psv.take(k), sp@, ch@),
            entries@ == entry_points(psv.take(k), sp@, ch@),
            program_size(psv) < u32::MAX,
            program_spaces(psv).subset_of(space_names(sp@)),
        decreases rest@.len(),
    {
        let ghost rest_before = rest@;
        let cmds = rest.remove(0);
        let ghost pre = psv.take(k);
        proof {
            assert(cmds == psv[k]);
            assert(rest@ =~= psv.skip(k + 1));
            assert(psv.take(k + 1).drop_last() =~= pre);
            assert(psv.take(k + 1).last() == psv[k]);
            lemma_procs_prefix(psv, k + 1);
            lemma_procs_code_len(pre, sp@, ch@);
            lemma_cmds_code_len(psv[k].0@, code.lines().len() as int, sp@, ch@);
        }
        let at = code.len() as u32;
        entries.push(InstrPtr(at));
        let n_cmds = cmds.0.len();
        let halt_at = if n_cmds > 0 {
            Some(cmds.0[n_cmds - 1].span.cursor_at_end())
        } else {
            None
        };
        assert(halt_at == halt_span(psv[k].0@));
        let body = compile_cmds(cmds.0, at, sp, ch);
        code.append(body);
        code.push(Instr::Halt, halt_at);
        proof {
            k = k + 1;
        }
    }
    assert(psv.take(n as int) =~= psv);
    (code, entries)
}

impl Program {
    /// Compiles the processes of a program. The data layout holds every
    /// variable and array that the processes mention, and the additional
    /// ones; an array is as long as `array_sizes` says, or 1.
    pub fn compile(
        cmdss: Vec<Commands>,
        additional_targets: Vec<TargetDecl>,
        tuple_spaces: IndexMap<TupleSpaceName, TupleSpace>,
        channels: IndexMap<ChannelName, Channel>,
        array_sizes: IndexMap<Array, u32>,
    ) -> (p: Program)
        requires
            program_size(cmdss@) < u32::MAX,
            program_spaces(cmdss@).subset_of(entry_names(tuple_space_entries(tuple_spaces))),
        ensures
            compiled(
                p,
                cmdss@,
                decls_view(additional_targets@),
                tuple_space_entries(tuple_spaces),
                channel_entries(channels),
                array_size_entries(array_sizes),
            ),
    {
        let decls = collect_program(&cmdss, &additional_targets);
        let ghost dv = decls_view(decls@);
        let targets = build_metas(decls, &array_sizes);
        proof {
            lemma_layout_targets(dv, array_size_entries(array_sizes));
            assert(targets@.map_values(|m: TargetMeta| m.target@) =~= dv) by {
                assert forall|i: int| 0 <= i < dv.len() implies targets@.map_values(|m: TargetMeta| m.target@)[i] == dv[i] by {
                    assert(targets@.map_values(|m: TargetMeta| meta_view(m))[i] == layout(dv, array_size_entries(array_sizes))[i]);
                }
            }
        }
        let ghost spaces_v = tuple_space_entries(tuple_spaces);
        let ghost chans_v = channel_entries(channels);
        let space_list = tuple_space_map_entries(tuple_spaces);
        let chan_list = channel_map_entries(channels);
        proof {
            assert(space_list@.map_values(
                |x: (TupleSpaceName, TupleSpace)| space_entry_proj(tuple_space_entry_view(x)),
            ) =~= spaces_v.map_values(
                |e: (Seq<char>, (TupleSpaceType, BufferSize, Seq<Seq<i32>>))| space_entry_proj(e),
            ));
            assert(chan_list@.map_values(|x: (ChannelName, Channel)| channel_entry_proj(channel_entry_view(x)))
                =~= chans_v.map_values(|e: (Seq<char>, (BufferSize, Seq<i32>))| channel_entry_proj(e)));
        }
        let sp = sorted_spaces(space_list);
        let ch = sorted_channels(chan_list);
        proof {
            let a = sp@.map_values(|m: TupleSpaceMeta| space_meta_view(m));
            let b = spaces_v.map_values(
                |e: (Seq<char>, (TupleSpaceType, BufferSize, Seq<Seq<i32>>))| space_entry_proj(e),
            );
            assert forall|nm: Seq<char>| program_spaces(cmdss@).contains(nm) implies space_names(sp@).contains(nm) by {
                assert(entry_names(spaces_v).contains(nm));
                let i = choose|i: int| 0 <= i < spaces_v.len() && #[trigger] spaces_v[i].0 == nm;
                assert(b[i] == space_entry_proj(spaces_v[i]));
                assert(b.to_set().contains(b[i]));
                assert(a.to_set().contains(b[i]));
                let j = choose|j: int| 0 <= j < a.len() && a[j] == b[i];
                assert(sp@[j].name.0@ == nm);
            }
        }
        let (code, entries) = compile_processes(cmdss, &sp, &ch);
        proof {
            lemma_procs_closed(cmdss@, sp@, ch@);
            lemma_procs_code_len(cmdss@, sp@, ch@);
            lemma_flow_ok(code.instrs@, code.spans@, code.lines());
        }
        let p = Program {
            targets,
            tuple_spaces: sp,
            channels: ch,
            instrs: code.instrs,
            entry_points: entries,
            source_map: code.spans,
        };
        assert(program_lines(p) =~= procs_code(cmdss@, sp@, ch@));
        p
    }
}

// ---------------------------------------------------------------------------
// Checking the inputs of `compile`.

/// The number of instructions that no program may reach.
pub const SIZE_CAP: u64 = 4294967295u64;

pub open spec fn capped(n: nat) -> nat {
    if n < SIZE_CAP {
        n
    } else {
        SIZE_CAP as nat
    }
}

fn add_capped(a: u64, b: u64) -> (r: u64)
    requires
        a <= SIZE_CAP,
        b <= SIZE_CAP,
    ensures
        r == capped((a + b) as nat),
{
    if a + b < SIZE_CAP {
        a + b
    } else {
        SIZE_CAP
    }
}

fn cmd_size_capped(c: &Command) -> (r: u64)
    ensures
        r == capped(cmd_size(*c)),
    decreases c, 0int,
{
    match &c.kind {
        CommandKind::If(gs) | CommandKind::Loop(gs) => add_capped(1, guards_size_capped(gs)),
        CommandKind::IfCG(gs) | CommandKind::LoopCG(gs) => add_capped(1, cguards_size_capped(gs)),
        _ => 1,
    }
}

fn cmds_size_capped(cs: &Vec<Command>) -> (r: u64)
    ensures
        r == capped(cmds_size(cs@)),
    decreases cs@, 1int,
{
    let mut total: u64 = 0;
    let mut i: usize = 0;
    assert(cs@.take(0) =~= Seq::<Command>::empty());
    while i < cs.len()
        invariant
            i <= cs@.len(),
            total == capped(cmds_size(cs@.take(i as int))),
        decreases cs@.len() - i,
    {
        let c = cmd_size_capped(&cs[i]);
        total = add_capped(total, c);
        assert(cs@.take(i + 1).drop_last() =~= cs@.take(i as int));
        i += 1;
    }
    assert(cs@.take(cs@.len() as int) =~= cs@);
    total
}

fn guards_size_capped(gs: &Vec<Guard>) -> (r: u64)
    ensures
        r == capped(guards_size(gs@)),
    decreases gs@, 1int,
{
    let mut total: u64 = 0;
    let mut i: usize = 0;
    assert(gs@.take(0) =~= Seq::<Guard>::empty());
    while i < gs.len()
        invariant
            i <= gs@.len(),
            total == capped(guards_size(gs@.take(i as int))),
        decreases gs@.len() - i,
    {
        let c = cmds_size_capped(&gs[i].cmds.0);
        total = add_capped(add_capped(total, c), 1);
        assert(gs@.take(i + 1).drop_last() =~= gs@.take(i as int));
        i += 1;
    }
    assert(gs@.take(gs@.len() as int) =~= gs@);
    total
}

fn cguards_size_capped(gs: &Vec<CommunicationGuard>) -> (r: u64)
    ensures
        r == capped(cguards_size(gs@)),
    decreases gs@, 1int,
{
    let mut total: u64 = 0;
    let mut i: usize = 0;
    assert(gs@.take(0) =~= Seq::<CommunicationGuard>::empty());
    while i < gs.len()
        invariant
            i <= gs@.len(),
            total == capped(cguards_size(gs@.take(i as int))),
        decreases gs@.len() - i,
    {
        let c = cmds_size_capped(&gs[i].cmds.0);
        total = add_capped(add_capped(total, c), 1);
        assert(gs@.take(i + 1).drop_last() =~= gs@.take(i as int));
        i += 1;
    }
    assert(gs@.take(gs@.len() as int) =~= gs@);
    total
}

fn program_size_capped(ps: &Vec<Commands>) -> (r: u64)
    ensures
        r == capped(program_size(ps@)),
{
    let mut total: u64 = 0;
    let mut i: usize = 0;
    assert(ps@.take(0) =~= Seq::<Commands>::empty());
    while i < ps.len()
        invariant
            i <= ps@.len(),
            total == capped(program_size(ps@.take(i as int))),
        decreases ps@.len() - i,
    {
        let c = cmds_size_capped(&ps[i].0);
        total = add_capped(add_capped(total, c), 1);
        assert(ps@.take(i + 1).drop_last() =~= ps@.take(i as int));
        i += 1;
    }
    assert(ps@.take(ps@.len() as int) =~= ps@);
    total
}

fn cmd_spaces_ok(c: &Command, m: &IndexMap<TupleSpaceName, TupleSpace>) -> (r: bool)
    ensures
        r == spaces_cmd(*c).subset_of(entry_names(tuple_space_entries(*m))),
    decreases c, 0int,
{
    match &c.kind {
        CommandKind::If(gs) | CommandKind::Loop(gs) => guards_spaces_ok(gs, m),
        CommandKind::IfCG(gs) | CommandKind::LoopCG(gs) => cguards_spaces_ok(gs, m),
        CommandKind::O(op) => {
            let name = match op {
                Operation::Put(ts, _) => ts,
                Operation::Get(ts, _) => ts,
                Operation::Query(ts, _) => ts,
            };
            let r = tuple_space_map_contains(m, name);
            assert(spaces_cmd(*c) =~= set![op_space(*op)]);
            assert(op_space(*op) == name.0@);
            assert(entry_names(tuple_space_entries(*m)).contains(name.0@) == r);
            if r {
                assert(set![op_space(*op)].subset_of(entry_names(tuple_space_entries(*m))));
            } else {
                assert(set![op_space(*op)].contains(op_space(*op)));
            }
            r
        },
        _ => {
            assert(spaces_cmd(*c) =~= Set::<Seq<char>>::empty());
            true
        },
    }
}

fn cmds_spaces_ok(cs: &Vec<Command>, m: &IndexMap<TupleSpaceName, TupleSpace>) -> (r: bool)
    ensures
        r == spaces_cmds(cs@).subset_of(entry_names(tuple_space_entries(*m))),
    decreases cs@, 1int,
{
    let ghost names = entry_names(tuple_space_entries(*m));
    let mut i: usize = 0;
    assert(cs@.take(0) =~= Seq::<Command>::empty());
    while i < cs.len()
        invariant
            i <= cs@.len(),
            names == entry_names(tuple_space_entries(*m)),
            spaces_cmds(cs@.take(i as int)).subset_of(names),
        decreases cs@.len() - i,
    {
        assert(cs@.take(i + 1).drop_last() =~= cs@.take(i as int));
        if !cmd_spaces_ok(&cs[i], m) {
            proof {
                crate::codegen::lemma_cmds_prefix(cs@, i + 1);
            }
            return false;
        }
        i += 1;
    }
    assert(cs@.take(cs@.len() as int) =~= cs@);
    true
}

fn guards_spaces_ok(gs: &Vec<Guard>, m: &IndexMap<TupleSpaceName, TupleSpace>) -> (r: bool)
    ensures
        r == spaces_guards(gs@).subset_of(entry_names(tuple_space_entries(*m))),
    decreases gs@, 1int,
{
    let ghost names = entry_names(tuple_space_entries(*m));
    let mut i: usize = 0;
    assert(gs@.take(0) =~= Seq::<Guard>::empty());
    while i < gs.len()
        invariant
            i <= gs@.len(),
            names == entry_names(tuple_space_entries(*m)),
            spaces_guards(gs@.take(i as int)).subset_of(names),
        decreases gs@.len() - i,
    {
        assert(gs@.take(i + 1).drop_last() =~= gs@.take(i as int));
        if !cmds_spaces_ok(&gs[i].cmds.0, m) {
            proof {
                crate::codegen::lemma_guards_prefix(gs@, i + 1);
            }
            return false;
        }
        i += 1;
    }
    assert(gs@.take(gs@.len() as int) =~= gs@);
    true
}

fn cguards_spaces_ok(gs: &Vec<CommunicationGuard>, m: &IndexMap<TupleSpaceName, TupleSpace>) -> (r: bool)
    ensures
        r == spaces_cguards(gs@).subset_of(entry_names(tuple_space_entries(*m))),
    decreases gs@, 1int,
{
    let ghost names = entry_names(tuple_space_entries(*m));
    let mut i: usize = 0;
    assert(gs@.take(0) =~= Seq::<CommunicationGuard>::empty());
    while i < gs.len()
        invariant
            i <= gs@.len(),
            names == entry_names(tuple_space_entries(*m)),
            spaces_cguards(gs@.take(i as int)).subset_of(names),
        decreases gs@.len() - i,
    {
        assert(gs@.take(i + 1).drop_last() =~= gs@.take(i as int));
        if !cmds_spaces_ok(&gs[i].cmds.0, m) {
            proof {
                crate::codegen::lemma_cguards_prefix(gs@, i + 1);
            }
            return false;
        }
        i += 1;
    }
    assert(gs@.take(gs@.len() as int) =~= gs@);
    true
}

fn program_spaces_ok(ps: &Vec<Commands>, m: &IndexMap<TupleSpaceName, TupleSpace>) -> (r: bool)
    ensures
        r == program_spaces(ps@).subset_of(entry_names(tuple_space_entries(*m))),
{
    let ghost names = entry_names(tuple_space_entries(*m));
    let mut i: usize = 0;
    assert(ps@.take(0) =~= Seq::<Commands>::empty());
    while i < ps.len()
        invariant
            i <= ps@.len(),
            names == entry_names(tuple_space_entries(*m)),
            program_spaces(ps@.take(i as int)).subset_of(names),
        decreases ps@.len() - i,
    {
        assert(ps@.take(i + 1).drop_last() =~= ps@.take(i as int));
        if !cmds_spaces_ok(&ps[i].0, m) {
            proof {
                lemma_procs_prefix(ps@, i + 1);
            }
            return false;
        }
        i += 1;
    }
    assert(ps@.take(ps@.len() as int) =~= ps@);
    true
}

impl Program {
    /// `compile` on the inputs it accepts: `None` where an operation names a
    /// tuple space that `tuple_spaces` does not declare, or where the
    /// program would have `u32::MAX` instructions or more.
    pub fn checked_compile(
        cmdss: Vec<Commands>,
        additional_targets: Vec<TargetDecl>,
        tuple_spaces: IndexMap<TupleSpaceName, TupleSpace>,
        channels: IndexMap<ChannelName, Channel>,
        array_sizes: IndexMap<Array, u32>,
    ) -> (r: Option<Program>)
        ensures
            r is Some <==> (program_size(cmdss@) < u32::MAX && program_spaces(cmdss@).subset_of(
                entry_names(tuple_space_entries(tuple_spaces)),
            )),
            r matches Some(p) ==> compiled(
                p,
                cmdss@,
                decls_view(additional_targets@),
                tuple_space_entries(tuple_spaces),
                channel_entries(channels),
                array_size_entries(array_sizes),
            ),
    {
        if program_size_capped(&cmdss) < SIZE_CAP && program_spaces_ok(&cmdss, &tuple_spaces) {
            Some(Program::compile(cmdss, additional_targets, tuple_spaces, channels, array_sizes))
        } else {
            None
        }
    }
}

// ---------------------------------------------------------------------------
// The initial state of a compiled program can be shown.

proof fn lemma_layout_at(ds: Seq<DeclV>, sizes: Seq<(Seq<char>, u32)>, i: int)
    requires
        0 <= i < ds.len(),
    ensures
        layout(ds, sizes).len() == ds.len(),
        layout(ds, sizes)[i] == (ds[i], layout_end(ds.take(i), sizes), decl_length(ds[i], sizes)),
    decreases ds.len(),
{
    let prev = ds.drop_last();
    if i < prev.len() {
        lemma_layout_at(prev, sizes, i);
        assert(prev.take(i) =~= ds.take(i));
        assert(prev[i] == ds[i]);
    } else {
        assert(ds.take(i) =~= prev);
        if prev.len() > 0 {
            lemma_layout_at(prev, sizes, 0);
        }
    }
}

/// Variables come before arrays in a strictly sorted list.
proof fn lemma_variables_first(ds: Seq<DeclV>, i: int, j: int)
    requires
        strictly_sorted(ds),
        0 <= j < i < ds.len(),
        ds[i] is Variable,
    ensures
        ds[j] is Variable,
{
    assert(decl_lt(ds[j], ds[i]));
}

proof fn lemma_total_prefix(ds: Seq<DeclV>, sizes: Seq<(Seq<char>, u32)>, i: int)
    requires
        0 <= i <= ds.len(),
    ensures
        layout_total(ds.take(i), sizes) <= layout_total(ds, sizes),
    decreases ds.len(),
{
    if i < ds.len() {
        assert(ds.drop_last().take(i) =~= ds.take(i));
        lemma_total_prefix(ds.drop_last(), sizes, i);
    } else {
        assert(ds.take(i) =~= ds);
    }
}

proof fn lemma_variable_prefix_total(ds: Seq<DeclV>, sizes: Seq<(Seq<char>, u32)>, i: int)
    requires
        0 <= i <= ds.len(),
        forall|j: int| 0 <= j < i ==> (#[trigger] ds[j]) is Variable,
    ensures
        layout_total(ds.take(i), sizes) == i,
    decreases i,
{
    if i > 0 {
        lemma_variable_prefix_total(ds, sizes, i - 1);
        assert(ds.take(i).drop_last() =~= ds.take(i - 1));
        assert(ds.take(i).last() == ds[i - 1]);
    }
}

/// A prefix of variables ends where its length says.
proof fn lemma_variable_prefix_end(ds: Seq<DeclV>, sizes: Seq<(Seq<char>, u32)>, i: int)
    requires
        0 <= i <= ds.len(),
        i <= u32::MAX,
        forall|j: int| 0 <= j < i ==> (#[trigger] ds[j]) is Variable,
    ensures
        layout_end(ds.take(i), sizes) == i,
    decreases i,
{
    if i > 0 {
        lemma_variable_prefix_end(ds, sizes, i - 1);
        assert(ds.take(i).drop_last() =~= ds.take(i - 1));
        assert(ds.take(i).last() == ds[i - 1]);
    }
}

/// The data of chunks as long as the locations is as long as the layout.
proof fn lemma_flatten_len(chunks: Seq<Seq<i32>>, ds: Seq<DeclV>, sizes: Seq<(Seq<char>, u32)>)
    requires
        chunks.len() == ds.len(),
        forall|i: int| 0 <= i < ds.len() ==> (#[trigger] chunks[i]).len() == decl_length(ds[i], sizes),
    ensures
        flatten(chunks).len() == layout_total(ds, sizes),
    decreases ds.len(),
{
    if ds.len() > 0 {
        lemma_flatten_len(chunks.drop_last(), ds.drop_last(), sizes);
        assert(chunks[chunks.len() - 1] == chunks.last());
    }
}

/// The initial state of a compiled program, with all of its data cells
/// addressable by `u32`, can be shown: every cell that showing reads exists.
pub proof fn law_initial_state_showable<F: Fn(&crate::ast::Variable) -> i32, G: Fn(&Array) -> Vec<i32>>(
    p: Program,
    ps: Seq<Commands>,
    extra: Seq<DeclV>,
    spaces: Seq<(Seq<char>, (TupleSpaceType, BufferSize, Seq<Seq<i32>>))>,
    chans: Seq<(Seq<char>, (BufferSize, Seq<i32>))>,
    sizes: Seq<(Seq<char>, u32)>,
    s: StateV,
    var_init: F,
    arr_init: G,
)
    requires
        compiled(p, ps, extra, spaces, chans, sizes),
        layout_total(p.target_metas().map_values(|m: TargetMeta| m.target@), sizes) <= u32::MAX,
        exists|chunks: Seq<Seq<i32>>|
            {
                &&& chunks.len() == p.target_metas().len()
                &&& forall|i: int|
                    0 <= i < chunks.len() ==> chunk_ok(p.target_metas()[i], #[trigger] chunks[i], var_init, arr_init)
                &&& s.mem.data == flatten(chunks)
            },
    ensures
        showable(p, s),
{
    let ds = p.targets@.map_values(|m: TargetMeta| m.target@);
    let chunks = choose|chunks: Seq<Seq<i32>>|
        {
            &&& chunks.len() == p.targets@.len()
            &&& forall|i: int|
                0 <= i < chunks.len() ==> chunk_ok(p.targets@[i], #[trigger] chunks[i], var_init, arr_init)
            &&& s.mem.data == flatten(chunks)
        };
    let metas = p.targets@.map_values(|m: TargetMeta| meta_view(m));
    assert(metas == layout(ds, sizes));
    law_layout_disjoint(ds, sizes);
    assert forall|i: int| 0 <= i < ds.len() implies (#[trigger] chunks[i]).len() == decl_length(ds[i], sizes) by {
        lemma_layout_at(ds, sizes, i);
        assert(metas[i] == meta_view(p.targets@[i]));
        assert(chunk_ok(p.targets@[i], chunks[i], var_init, arr_init));
    }
    lemma_flatten_len(chunks, ds, sizes);
    assert forall|i: int| 0 <= i < p.targets@.len() implies match (#[trigger] p.targets@[i]).target {
        crate::ast::TargetDecl::Variable(_) => i < s.mem.data.len(),
        crate::ast::TargetDecl::Array(_) => p.targets@[i].base_index + p.targets@[i].length <= s.mem.data.len()
            && p.targets@[i].base_index + p.targets@[i].length <= u32::MAX,
    } by {
        lemma_layout_at(ds, sizes, i);
        assert(metas[i] == meta_view(p.targets@[i]));
        assert(ds[i] == p.targets@[i].target@);
        if p.targets@[i].target is Variable {
            assert forall|j: int| 0 <= j < i implies (#[trigger] ds[j]) is Variable by {
                lemma_variables_first(ds, i, j);
            }
            lemma_variable_prefix_total(ds, sizes, i);
            lemma_total_prefix(ds, sizes, i);
            lemma_variable_prefix_end(ds, sizes, i);
        }
    }
}

} // verus!
