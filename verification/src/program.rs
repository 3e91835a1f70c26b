use vstd::prelude::*;

use crate::ast::{
    AExpr, Array, BufferSize, ChannelName, Field, Int, SourceSpan, Target, TargetDecl,
    TupleSpaceName, TupleSpaceType, CG,
};

verus! {

/// The position of an instruction in a compiled program.
#[derive(Debug, Clone, Copy, PartialEq, Eq, Structural, PartialOrd, Ord, Hash)]
pub struct InstrPtr(pub u32);

impl InstrPtr {
    /// The next instruction.
    pub fn bump(&self) -> (r: InstrPtr)
        requires
            self.0 < u32::MAX,
        ensures
            r.0 == self.0 + 1,
    {
        InstrPtr(self.0 + 1)
    }
}

/// The instructions of the abstract machine that programs compile to.
#[derive(Debug)]
pub enum Instr {
    Nop,
    Assign(Target, AExpr),
    Branch { choices: Vec<(CG, InstrPtr)>, otherwise: Option<InstrPtr> },
    Goto(InstrPtr),
    Halt,
    Put(BufferSize, u32, Vec<AExpr>),
    Get(TupleSpaceType, u32, Vec<Field>),
    Query(TupleSpaceType, u32, Vec<Field>),
    Send(BufferSize, u32, AExpr),
    Receive(u32, Target),
    SyncSend { channel: ChannelName, expr: AExpr },
    SyncReceive { channel: ChannelName, target: Target },
    Broadcast { channel: ChannelName, k: Int, expr: AExpr },
    Gather { channel: ChannelName, k: Int, array: Array, target: Target },
}

/// An instruction as a plain value, its lists as sequences.
pub enum InstrV {
    Nop,
    Assign(Target, AExpr),
    Branch { choices: Seq<(CG, InstrPtr)>, otherwise: Option<InstrPtr> },
    Goto(InstrPtr),
    Halt,
    Put(BufferSize, u32, Seq<AExpr>),
    Get(TupleSpaceType, u32, Seq<Field>),
    Query(TupleSpaceType, u32, Seq<Field>),
    Send(BufferSize, u32, AExpr),
    Receive(u32, Target),
    SyncSend { channel: ChannelName, expr: AExpr },
    SyncReceive { channel: ChannelName, target: Target },
    Broadcast { channel: ChannelName, k: Int, expr: AExpr },
    Gather { channel: ChannelName, k: Int, array: Array, target: Target },
}

impl View for Instr {
    type V = InstrV;

    open spec fn view(&self) -> InstrV {
        match self {
            Instr::Nop => InstrV::Nop,
            Instr::Assign(t, e) => InstrV::Assign(*t, *e),
            Instr::Branch { choices, otherwise } => InstrV::Branch { choices: choices@, otherwise: *otherwise },
            Instr::Goto(q) => InstrV::Goto(*q),
            Instr::Halt => InstrV::Halt,
            Instr::Put(b, i, args) => InstrV::Put(*b, *i, args@),
            Instr::Get(t, i, fields) => InstrV::Get(*t, *i, fields@),
            Instr::Query(t, i, fields) => InstrV::Query(*t, *i, fields@),
            Instr::Send(b, i, e) => InstrV::Send(*b, *i, *e),
            Instr::Receive(i, t) => InstrV::Receive(*i, *t),
            Instr::SyncSend { channel, expr } => InstrV::SyncSend { channel: *channel, expr: *expr },
            Instr::SyncReceive { channel, target } => InstrV::SyncReceive { channel: *channel, target: *target },
            Instr::Broadcast { channel, k, expr } => InstrV::Broadcast { channel: *channel, k: *k, expr: *expr },
            Instr::Gather { channel, k, array, target } => InstrV::Gather {
                channel: *channel,
                k: *k,
                array: *array,
                target: *target,
            },
        }
    }
}

/// Where a variable or an array lives in the data memory.
#[derive(Debug, PartialEq, Eq)]
pub struct TargetMeta {
    pub target: TargetDecl,
    pub base_index: u32,
    pub length: u32,
}

/// A tuple space of a compiled program.
#[derive(Debug, PartialEq, Eq)]
pub struct TupleSpaceMeta {
    pub name: TupleSpaceName,
    pub space_type: TupleSpaceType,
    pub size: BufferSize,
}

/// An asynchronous channel of a compiled program.
#[derive(Debug, PartialEq, Eq)]
pub struct ChannelMeta {
    pub name: ChannelName,
    pub size: BufferSize,
}

/// A compiled program: the memory layout, the tuple spaces and channels,
/// the instructions, one entry point per process, and the source span of
/// each instruction.
#[derive(Debug)]
pub struct Program {
    pub(crate) targets: Vec<TargetMeta>,
    pub(crate) tuple_spaces: Vec<TupleSpaceMeta>,
    pub(crate) channels: Vec<ChannelMeta>,
    pub(crate) instrs: Vec<Instr>,
    pub(crate) entry_points: Vec<InstrPtr>,
    pub(crate) source_map: Vec<Option<SourceSpan>>,
}

/// Whether the instruction at `i` keeps control flow well founded: a `Nop`
/// is never last, and a `Goto` jumps forward or onto a `Branch`.
pub open spec fn instr_flow_ok(instrs: Seq<Instr>, i: int) -> bool {
    match instrs[i] {
        Instr::Nop => i + 1 < instrs.len(),
        Instr::Goto(q) => q.0 < instrs.len() && (q.0 > i || instrs[q.0 as int] is Branch),
        _ => true,
    }
}

pub open spec fn flow_ok(instrs: Seq<Instr>) -> bool {
    &&& instrs.len() < u32::MAX
    &&& forall|i: int| 0 <= i < instrs.len() ==> #[trigger] instr_flow_ok(instrs, i)
}

impl Program {
    /// The data layout.
    pub open(crate) spec fn target_metas(&self) -> Seq<TargetMeta> {
        self.targets@
    }

    /// Where each process starts.
    pub open(crate) spec fn entry_ptrs(&self) -> Seq<u32> {
        ptrs_view(self.entry_points)
    }

    /// The source span of each instruction.
    pub open(crate) spec fn source_spans(&self) -> Seq<Option<SourceSpan>> {
        self.source_map@
    }

    /// The invariant of compiled programs.
    #[verifier::type_invariant]
    pub(crate) open spec fn inv(&self) -> bool {
        &&& flow_ok(self.instrs@)
        &&& self.source_map@.len() == self.instrs@.len()
    }
}

/// The memory of a state: the data cells, the contents of each tuple space,
/// and the contents of each asynchronous channel.
#[derive(Debug, PartialEq, Eq, Hash)]
pub struct Memory {
    pub(crate) data: Vec<i32>,
    pub(crate) tuple_spaces: Vec<Vec<Vec<Int>>>,
    pub(crate) channels: Vec<Vec<Int>>,
}

/// A state of a running program: one instruction pointer per process, and
/// the memory.
#[derive(Debug, PartialEq, Eq, Hash)]
pub struct State {
    pub(crate) ptrs: Vec<InstrPtr>,
    pub(crate) memory: Memory,
}

/// Why a process cannot take a step.
#[derive(Debug, Clone, Copy, PartialEq, Eq, Structural)]
pub enum StepError {
    DivisionByZero,
    NegativeFactorial,
    NegativeFibonacci,
    NegativePower,
    Stuck,
    Halt,
    HitOld,
    ArrayIndexNegative,
    ArrayIndexOutOfBounds,
    SameArrayGather,
}

/// The mathematical model of a memory.
#[verifier::ext_equal]
pub struct MemV {
    pub data: Seq<i32>,
    pub ts: Seq<Seq<Seq<i32>>>,
    pub ch: Seq<Seq<i32>>,
}

/// The mathematical model of a state.
#[verifier::ext_equal]
pub struct StateV {
    pub ptrs: Seq<u32>,
    pub mem: MemV,
}

pub open spec fn tuples_view(v: Vec<Vec<i32>>) -> Seq<Seq<i32>> {
    Seq::new(v@.len(), |i: int| v@[i]@)
}

pub open spec fn spaces_view(v: Vec<Vec<Vec<i32>>>) -> Seq<Seq<Seq<i32>>> {
    Seq::new(v@.len(), |i: int| tuples_view(v@[i]))
}

pub open spec fn ptrs_view(v: Vec<InstrPtr>) -> Seq<u32> {
    Seq::new(v@.len(), |i: int| v@[i].0)
}

pub open(crate) spec fn mems_view(v: Seq<Memory>) -> Seq<MemV> {
    v.map_values(|m: Memory| m@)
}

pub open(crate) spec fn outs_view(v: Seq<(Memory, InstrPtr)>) -> Seq<(MemV, u32)> {
    v.map_values(|x: (Memory, InstrPtr)| (x.0@, x.1.0))
}

pub open(crate) spec fn states_view(v: Seq<State>) -> Seq<StateV> {
    v.map_values(|x: State| x@)
}

impl View for Memory {
    type V = MemV;

    open(crate) spec fn view(&self) -> MemV {
        MemV {
            data: self.data@,
            ts: spaces_view(self.tuple_spaces),
            ch: tuples_view(self.channels),
        }
    }
}

impl View for State {
    type V = StateV;

    open(crate) spec fn view(&self) -> StateV {
        StateV { ptrs: ptrs_view(self.ptrs), mem: self.memory@ }
    }
}

/// A copy of a sequence of integers.
pub fn copy_ints(v: &Vec<i32>) -> (r: Vec<i32>)
    ensures
        r@ == v@,
{
    let mut r: Vec<i32> = Vec::new();
    let mut i: usize = 0;
    while i < v.len()
        invariant
            i <= v@.len(),
            r@ == v@.subrange(0, i as int),
        decreases v@.len() - i,
    {
        r.push(v[i]);
        i += 1;
        assert(r@ =~= v@.subrange(0, i as int));
    }
    assert(v@.subrange(0, v@.len() as int) =~= v@);
    r
}

/// A copy of a sequence of tuples.
pub fn copy_tuples(v: &Vec<Vec<i32>>) -> (r: Vec<Vec<i32>>)
    ensures
        tuples_view(r) == tuples_view(*v),
{
    let mut r: Vec<Vec<i32>> = Vec::new();
    let mut i: usize = 0;
    while i < v.len()
        invariant
            i <= v@.len(),
            r@.len() == i,
            forall|j: int| 0 <= j < i ==> #[trigger] r@[j]@ == v@[j]@,
        decreases v@.len() - i,
    {
        r.push(copy_ints(&v[i]));
        i += 1;
    }
    assert(tuples_view(r) =~= tuples_view(*v));
    r
}

/// A copy of the contents of all tuple spaces.
pub fn copy_spaces(v: &Vec<Vec<Vec<i32>>>) -> (r: Vec<Vec<Vec<i32>>>)
    ensures
        spaces_view(r) == spaces_view(*v),
{
    let mut r: Vec<Vec<Vec<i32>>> = Vec::new();
    let mut i: usize = 0;
    while i < v.len()
        invariant
            i <= v@.len(),
            r@.len() == i,
            forall|j: int| 0 <= j < i ==> #[trigger] tuples_view(r@[j]) == tuples_view(v@[j]),
        decreases v@.len() - i,
    {
        r.push(copy_tuples(&v[i]));
        i += 1;
    }
    assert(spaces_view(r) =~= spaces_view(*v));
    r
}

/// A copy of a sequence of instruction pointers.
pub fn copy_ptrs(v: &Vec<InstrPtr>) -> (r: Vec<InstrPtr>)
    ensures
        r@ == v@,
{
    let mut r: Vec<InstrPtr> = Vec::new();
    let mut i: usize = 0;
    while i < v.len()
        invariant
            i <= v@.len(),
            r@ == v@.subrange(0, i as int),
        decreases v@.len() - i,
    {
        r.push(v[i]);
        i += 1;
        assert(r@ =~= v@.subrange(0, i as int));
    }
    assert(v@.subrange(0, v@.len() as int) =~= v@);
    r
}

impl Clone for Memory {
    fn clone(&self) -> (r: Self)
        ensures
            r@ == self@,
    {
        Memory {
            data: copy_ints(&self.data),
            tuple_spaces: copy_spaces(&self.tuple_spaces),
            channels: copy_tuples(&self.channels),
        }
    }
}

impl Clone for State {
    fn clone(&self) -> (r: Self)
        ensures
            r@ == self@,
    {
        State { ptrs: copy_ptrs(&self.ptrs), memory: self.memory.clone() }
    }
}

} // verus!
