use vstd::prelude::*;

use crate::ast::{Array, Int, SourceSpan, TargetDecl, Variable};
use crate::program::{
    copy_ptrs, ptrs_view, spaces_view, tuples_view, Memory, Program, State, StateV, TargetMeta,
};

verus! {

// ---------------------------------------------------------------------------
// The initial state.

/// `s` cut or padded with zeros to length `n`.
pub open spec fn resized(s: Seq<i32>, n: nat) -> Seq<i32> {
    if s.len() >= n {
        s.take(n as int)
    } else {
        s + Seq::new((n - s.len()) as nat, |i: int| 0i32)
    }
}

/// The initial contents of one location: the variable's initial value, or
/// the array's initial values cut or padded to its length.
pub open spec fn chunk_ok<F: Fn(&Variable) -> i32, G: Fn(&Array) -> Vec<i32>>(
    meta: TargetMeta,
    chunk: Seq<i32>,
    var_init: F,
    arr_init: G,
) -> bool {
    match meta.target {
        TargetDecl::Variable(v) => exists|x: i32| #[trigger] var_init.ensures((&v,), x) && chunk == seq![x],
        TargetDecl::Array(a) => exists|vals: Vec<i32>|
            #[trigger] arr_init.ensures((&a,), vals) && chunk == resized(vals@, meta.length as nat),
    }
}

pub open spec fn flatten(chunks: Seq<Seq<i32>>) -> Seq<i32>
    decreases chunks.len(),
{
    if chunks.len() == 0 {
        seq![]
    } else {
        flatten(chunks.drop_last()) + chunks.last()
    }
}

/// `v` cut or padded with zeros to length `n`.
fn resize_values(v: Vec<i32>, n: u32) -> (r: Vec<i32>)
    ensures
        r@ == resized(v@, n as nat),
{
    let ghost orig = v@;
    let mut v = v;
    if v.len() >= n as usize {
        v.truncate(n as usize);
        assert(v@ =~= resized(orig, n as nat)) by {
            assert(v@ =~= orig.take(n as int));
        }
        return v;
    }
    let ghost start = v@;
    while v.len() < n as usize
        invariant
            start.len() <= v@.len() <= n,
            v@ == start + Seq::new((v@.len() - start.len()) as nat, |i: int| 0i32),
        decreases n - v@.len(),
    {
        let ghost before = v@;
        v.push(0);
        assert(v@ =~= start + Seq::new((v@.len() - start.len()) as nat, |i: int| 0i32));
    }
    v
}

impl Program {
    /// The state in which every process is at its entry point, the
    /// variables and arrays hold what `var_init` and `arr_init` give (an
    /// array's values cut or padded with zeros to its length), and the
    /// tuple spaces and channels hold the given contents.
    pub fn initial_state(
        &self,
        var_init: impl Fn(&Variable) -> i32,
        arr_init: impl Fn(&Array) -> Vec<i32>,
        tuple_space_memory: Vec<Vec<Vec<Int>>>,
        channel_memory: Vec<Vec<Int>>,
    ) -> (r: State)
        requires
            forall|v: &Variable| #[trigger] var_init.requires((v,)),
            forall|a: &Array| #[trigger] arr_init.requires((a,)),
        ensures
            r@.ptrs == self.entry_ptrs(),
            r@.mem.ts == spaces_view(tuple_space_memory),
            r@.mem.ch == tuples_view(channel_memory),
            exists|chunks: Seq<Seq<i32>>|
                {
                    &&& chunks.len() == self.target_metas().len()
                    &&& forall|i: int|
                        0 <= i < chunks.len() ==> chunk_ok(self.target_metas()[i], #[trigger] chunks[i], var_init, arr_init)
                    &&& r@.mem.data == flatten(chunks)
                },
    {
        let mut data: Vec<i32> = Vec::new();
        let ghost mut chunks: Seq<Seq<i32>> = seq![];
        let mut i: usize = 0;
        while i < self.targets.len()
            invariant
                i <= self.targets@.len(),
                chunks.len() == i,
                forall|j: int| 0 <= j < i ==> chunk_ok(self.targets@[j], #[trigger] chunks[j], var_init, arr_init),
                data@ == flatten(chunks),
                forall|v: &Variable| #[trigger] var_init.requires((v,)),
                forall|a: &Array| #[trigger] arr_init.requires((a,)),
            decreases self.targets@.len() - i,
        {
            let meta = &self.targets[i];
            let ghost before = chunks;
            match &meta.target {
                TargetDecl::Variable(v) => {
                    let x = var_init(v);
                    data.push(x);
                    proof {
                        chunks = chunks.push(seq![x]);
                    }
                },
                TargetDecl::Array(a) => {
                    let vals = arr_init(a);
                    let ghost got = vals;
                    let mut values = resize_values(vals, meta.length);
                    let ghost piece = values@;
                    data.append(&mut values);
                    proof {
                        chunks = chunks.push(piece);
                        assert(chunk_ok(self.targets@[i as int], piece, var_init, arr_init)) by {
                            assert(arr_init.ensures((a,), got));
                        }
                    }
                },
            }
            proof {
                assert(chunks.drop_last() =~= before);
                assert forall|j: int| 0 <= j < i + 1 implies chunk_ok(
                    self.targets@[j],
                    #[trigger] chunks[j],
                    var_init,
                    arr_init,
                ) by {
                    if j < i {
                        assert(chunks[j] == before[j]);
                    }
                }
            }
            i += 1;
        }
        let ptrs = copy_ptrs(&self.entry_points);
        assert(ptrs_view(ptrs) =~= ptrs_view(self.entry_points));
        State { ptrs, memory: Memory { data, tuple_spaces: tuple_space_memory, channels: channel_memory } }
    }
}

// ---------------------------------------------------------------------------
// What a program and a state hold.

/// The variables of a layout, in order.
pub open spec fn variables_of(ts: Seq<TargetMeta>) -> Seq<Variable>
    decreases ts.len(),
{
    if ts.len() == 0 {
        seq![]
    } else {
        match ts.last().target {
            TargetDecl::Variable(v) => variables_of(ts.drop_last()).push(v),
            TargetDecl::Array(_) => variables_of(ts.drop_last()),
        }
    }
}

/// The arrays of a layout, in order, with their base index and length.
pub open spec fn arrays_of(ts: Seq<TargetMeta>) -> Seq<(Array, u32, u32)>
    decreases ts.len(),
{
    if ts.len() == 0 {
        seq![]
    } else {
        match ts.last().target {
            TargetDecl::Variable(_) => arrays_of(ts.drop_last()),
            TargetDecl::Array(a) => arrays_of(ts.drop_last()).push((a, ts.last().base_index, ts.last().length)),
        }
    }
}

/// The span of each instruction pointer that has one, in order.
pub open spec fn spans_of(ptrs: Seq<u32>, source_map: Seq<Option<SourceSpan>>) -> Seq<SourceSpan>
    decreases ptrs.len(),
{
    if ptrs.len() == 0 {
        seq![]
    } else {
        match source_map[ptrs.last() as int] {
            Some(s) => spans_of(ptrs.drop_last(), source_map).push(s),
            None => spans_of(ptrs.drop_last(), source_map),
        }
    }
}

/// Every instruction pointer is inside the program.
pub open(crate) spec fn ptrs_in(s: StateV, p: Program) -> bool {
    forall|i: int| 0 <= i < s.ptrs.len() ==> #[trigger] s.ptrs[i] < p.source_spans().len()
}

impl Program {
    /// The variables of the program, in the order of the layout.
    pub fn variables(&self) -> (r: Vec<Variable>)
        ensures
            r@ == variables_of(self.target_metas()),
    {
        let mut r: Vec<Variable> = Vec::new();
        let mut i: usize = 0;
        assert(self.targets@.take(0) =~= Seq::<TargetMeta>::empty());
        while i < self.targets.len()
            invariant
                i <= self.targets@.len(),
                r@ == variables_of(self.targets@.take(i as int)),
            decreases self.targets@.len() - i,
        {
            assert(self.targets@.take(i + 1).drop_last() =~= self.targets@.take(i as int));
            assert(self.targets@.take(i + 1).last() == self.targets@[i as int]);
            match &self.targets[i].target {
                TargetDecl::Variable(v) => r.push(v.clone()),
                TargetDecl::Array(_) => {},
            }
            i += 1;
        }
        assert(self.targets@.take(self.targets@.len() as int) =~= self.targets@);
        r
    }

    /// The arrays of the program with their base index and length, in the
    /// order of the layout.
    pub fn arrays(&self) -> (r: Vec<(Array, u32, u32)>)
        ensures
            r@ == arrays_of(self.target_metas()),
    {
        let mut r: Vec<(Array, u32, u32)> = Vec::new();
        let mut i: usize = 0;
        assert(self.targets@.take(0) =~= Seq::<TargetMeta>::empty());
        while i < self.targets.len()
            invariant
                i <= self.targets@.len(),
                r@ == arrays_of(self.targets@.take(i as int)),
            decreases self.targets@.len() - i,
        {
            assert(self.targets@.take(i + 1).drop_last() =~= self.targets@.take(i as int));
            assert(self.targets@.take(i + 1).last() == self.targets@[i as int]);
            let meta = &self.targets[i];
            match &meta.target {
                TargetDecl::Variable(_) => {},
                TargetDecl::Array(a) => r.push((a.clone(), meta.base_index, meta.length)),
            }
            i += 1;
        }
        assert(self.targets@.take(self.targets@.len() as int) =~= self.targets@);
        r
    }
}

impl State {
    /// The source span of each process's current instruction, for those
    /// that have one.
    pub fn spans(&self, p: &Program) -> (r: Vec<SourceSpan>)
        requires
            ptrs_in(self@, *p),
        ensures
            r@ == spans_of(self@.ptrs, p.source_spans()),
    {
        let mut r: Vec<SourceSpan> = Vec::new();
        let mut i: usize = 0;
        let ghost ps = self@.ptrs;
        assert(ps.take(0) =~= Seq::<u32>::empty());
        while i < self.ptrs.len()
            invariant
                i <= self.ptrs@.len(),
                ps == self@.ptrs,
                ps.len() == self.ptrs@.len(),
                ptrs_in(self@, *p),
                r@ == spans_of(ps.take(i as int), p.source_map@),
            decreases self.ptrs@.len() - i,
        {
            assert(ps.take(i + 1).drop_last() =~= ps.take(i as int));
            assert(ps.take(i + 1).last() == ps[i as int]);
            assert(ps[i as int] == self.ptrs@[i as int].0);
            let at = self.ptrs[i].0 as usize;
            match p.source_map[at] {
                Some(s) => r.push(s),
                None => {},
            }
            i += 1;
        }
        assert(ps.take(ps.len() as int) =~= ps);
        r
    }

    /// Each variable of the program with the value in the data cell of the
    /// same position.
    pub fn variables(&self, p: &Program) -> (r: Vec<(Variable, i32)>)
        ensures
            r@.len() == if variables_of(p.target_metas()).len() <= self@.mem.data.len() {
                variables_of(p.target_metas()).len()
            } else {
                self@.mem.data.len()
            },
            forall|i: int| 0 <= i < r@.len() ==> #[trigger] r@[i] == (variables_of(p.target_metas())[i], self@.mem.data[i]),
    {
        let vars = p.variables();
        let mut r: Vec<(Variable, i32)> = Vec::new();
        let mut i: usize = 0;
        while i < vars.len() && i < self.memory.data.len()
            invariant
                i <= vars@.len(),
                i <= self.memory.data@.len(),
                vars@ == variables_of(p.targets@),
                r@.len() == i,
                forall|j: int| 0 <= j < i ==> #[trigger] r@[j] == (vars@[j], self.memory.data@[j]),
            decreases vars@.len() - i,
        {
            r.push((vars[i].clone(), self.memory.data[i]));
            i += 1;
        }
        r
    }
}

} // verus!
