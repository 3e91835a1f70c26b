use vstd::prelude::*;

use crate::ast::{AExpr, AOp, Command, CommandKind, Field, LTLFormula, TupleSpaceType};
use crate::codegen::{cmd_code, cmd_size, space_names, spaces_cmd};
use crate::ltl::{translate, LtlV, Tables};
use crate::program::{ChannelMeta, InstrV, MemV, Program, StateV, TupleSpaceMeta};
use crate::semantics::{
    aeval, find_tuple_p, match_space, random_matches, take_found, tuple_space_index, updated_mem,
};

verus! {

// ---------------------------------------------------------------------------
// Arithmetic: each operator computes what its name says, modulo 2^32.

/// `v` is `x` wrapped into an `i32`: they differ by a multiple of 2^32.
pub open spec fn wraps_to(x: int, v: i32) -> bool {
    (v as int - x) % 0x1_0000_0000 == 0
}

/// `a + b`, `a - b` and `a * b` take the value of the left side combined
/// with the value of the right side by the mathematical operation, wrapped
/// into an `i32`; so, for instance, `5 - 2` is `3`.
pub proof fn law_arithmetic_operators(p: Program, s: StateV, l: AExpr, op: AOp, r: AExpr, lv: i32, rv: i32)
    requires
        aeval(p, s, l) == Some(Ok::<i32, crate::program::StepError>(lv)),
        aeval(p, s, r) == Some(Ok::<i32, crate::program::StepError>(rv)),
        op == AOp::Plus || op == AOp::Minus || op == AOp::Times,
    ensures
        aeval(p, s, AExpr::Binary(Box::new(l), op, Box::new(r))) matches Some(Ok(v)) && wraps_to(
            if op == AOp::Plus {
                lv + rv
            } else if op == AOp::Minus {
                lv - rv
            } else {
                lv * rv
            },
            v,
        ),
{
}

// ---------------------------------------------------------------------------
// Tuple spaces: reading leaves them as they were, taking removes one tuple.

/// What a move that reads (`remove` false) or takes (`remove` true) a tuple
/// of space `ix` does to the memory: the channels stay; reading keeps every
/// tuple space; taking removes one tuple of space `ix` and nothing else.
pub open spec fn reads_or_takes(m: MemV, s: StateV, ix: u32, remove: bool) -> bool {
    &&& m.ch == s.mem.ch
    &&& m.data.len() == s.mem.data.len()
    &&& if remove {
        exists|pos: int|
            0 <= pos < s.mem.ts[ix as int].len() && m.ts == s.mem.ts.update(
                ix as int,
                #[trigger] s.mem.ts[ix as int].remove(pos),
            )
    } else {
        m.ts == s.mem.ts
    }
}

proof fn lemma_updated_reads_or_takes(
    p: Program,
    s: StateV,
    pos: int,
    fields: Seq<Field>,
    ix: u32,
    remove: bool,
    ptr: u32,
)
    ensures
        updated_mem(p, s, pos, fields, ix, remove, ptr) matches Some(Ok(x)) ==> reads_or_takes(x.0, s, ix, remove),
{
    let ts = s.mem.ts;
    if !(ix >= ts.len() || pos < 0 || pos >= ts[ix as int].len()) {
        crate::shape::lemma_updated_mem_alike(p, s, pos, fields, ix, remove, ptr);
    }
}

pub open spec fn all_read_or_take(v: Seq<(MemV, u32)>, s: StateV, ix: u32, remove: bool) -> bool {
    forall|k: int| 0 <= k < v.len() ==> reads_or_takes((#[trigger] v[k]).0, s, ix, remove)
}

proof fn lemma_random_reads_or_takes(
    p: Program,
    s: StateV,
    ix: u32,
    fields: Seq<Field>,
    ptr: u32,
    remove: bool,
    pos: int,
    acc: Seq<(MemV, u32)>,
)
    requires
        all_read_or_take(acc, s, ix, remove),
    ensures
        random_matches(p, s, ix, fields, ptr, remove, pos, acc) matches Some(Ok(v)) ==> all_read_or_take(
            v,
            s,
            ix,
            remove,
        ),
    decreases s.mem.ts[ix as int].len() - pos,
{
    let tuples = s.mem.ts[ix as int];
    if 0 <= pos < tuples.len() {
        match crate::semantics::tuple_matches(p, s, tuples[pos], fields) {
            Some(Ok(false)) => lemma_random_reads_or_takes(p, s, ix, fields, ptr, remove, pos + 1, acc),
            Some(Ok(true)) => {
                lemma_updated_reads_or_takes(p, s, pos, fields, ix, remove, ptr);
                if let Some(Ok(x)) = updated_mem(p, s, pos, fields, ix, remove, ptr) {
                    let acc2 = acc.push(x);
                    assert forall|k: int| 0 <= k < acc2.len() implies reads_or_takes((#[trigger] acc2[k]).0, s, ix, remove) by {
                        if k < acc.len() {
                            assert(acc2[k] == acc[k]);
                        }
                    }
                    lemma_random_reads_or_takes(p, s, ix, fields, ptr, remove, pos + 1, acc2);
                }
            },
            _ => {},
        }
    }
}

proof fn lemma_take_found_reads_or_takes(
    p: Program,
    s: StateV,
    found: Option<Result<Option<int>, crate::program::StepError>>,
    ix: u32,
    fields: Seq<Field>,
    ptr: u32,
    remove: bool,
)
    ensures
        take_found(p, s, found, ix, fields, ptr, remove) matches Some(Ok(v)) ==> all_read_or_take(v, s, ix, remove),
{
    if let Some(Ok(Some(pos))) = found {
        lemma_updated_reads_or_takes(p, s, pos, fields, ix, remove, ptr);
    }
}

/// Every move of a `query` (`remove` false) leaves all tuple spaces and
/// channels as they were; every move of a `get` (`remove` true) removes
/// exactly one tuple of the space it takes from, and changes nothing else
/// of the tuple spaces and channels. Either way the process moves on to the
/// next instruction.
pub proof fn law_query_reads_get_takes(
    p: Program,
    s: StateV,
    ty: TupleSpaceType,
    ix: u32,
    fields: Seq<Field>,
    ptr: u32,
    remove: bool,
)
    ensures
        match_space(p, s, ty, ix, fields, ptr, remove) matches Some(Ok(v)) ==> forall|k: int|
            0 <= k < v.len() ==> reads_or_takes((#[trigger] v[k]).0, s, ix, remove) && v[k].1 == (ptr + 1) as u32,
{
    if ix < s.mem.ts.len() {
        let tuples = s.mem.ts[ix as int];
        lemma_match_space_next(p, s, ty, ix, fields, ptr, remove);
        match ty {
            TupleSpaceType::Random => lemma_random_reads_or_takes(p, s, ix, fields, ptr, remove, 0, seq![]),
            TupleSpaceType::FIFO => lemma_take_found_reads_or_takes(
                p,
                s,
                crate::semantics::first_match(p, s, tuples, fields, 0),
                ix,
                fields,
                ptr,
                remove,
            ),
            TupleSpaceType::LIFO => lemma_take_found_reads_or_takes(
                p,
                s,
                crate::semantics::last_match(p, s, tuples, fields, tuples.len() as int),
                ix,
                fields,
                ptr,
                remove,
            ),
            TupleSpaceType::Queue => lemma_take_found_reads_or_takes(p, s, Some(Ok(Some(0))), ix, fields, ptr, remove),
            TupleSpaceType::Stack => lemma_take_found_reads_or_takes(
                p,
                s,
                Some(Ok(Some(tuples.len() - 1))),
                ix,
                fields,
                ptr,
                remove,
            ),
        }
    }
}

proof fn lemma_random_next(
    p: Program,
    s: StateV,
    ix: u32,
    fields: Seq<Field>,
    ptr: u32,
    remove: bool,
    pos: int,
    acc: Seq<(MemV, u32)>,
)
    requires
        forall|k: int| 0 <= k < acc.len() ==> (#[trigger] acc[k]).1 == (ptr + 1) as u32,
    ensures
        random_matches(p, s, ix, fields, ptr, remove, pos, acc) matches Some(Ok(v)) ==> forall|k: int|
            0 <= k < v.len() ==> (#[trigger] v[k]).1 == (ptr + 1) as u32,
    decreases s.mem.ts[ix as int].len() - pos,
{
    let tuples = s.mem.ts[ix as int];
    if 0 <= pos < tuples.len() {
        match crate::semantics::tuple_matches(p, s, tuples[pos], fields) {
            Some(Ok(false)) => lemma_random_next(p, s, ix, fields, ptr, remove, pos + 1, acc),
            Some(Ok(true)) => {
                if let Some(Ok(x)) = updated_mem(p, s, pos, fields, ix, remove, ptr) {
                    let acc2 = acc.push(x);
                    assert forall|k: int| 0 <= k < acc2.len() implies (#[trigger] acc2[k]).1 == (ptr + 1) as u32 by {
                        if k < acc.len() {
                            assert(acc2[k] == acc[k]);
                        }
                    }
                    lemma_random_next(p, s, ix, fields, ptr, remove, pos + 1, acc2);
                }
            },
            _ => {},
        }
    }
}

proof fn lemma_match_space_next(
    p: Program,
    s: StateV,
    ty: TupleSpaceType,
    ix: u32,
    fields: Seq<Field>,
    ptr: u32,
    remove: bool,
)
    ensures
        match_space(p, s, ty, ix, fields, ptr, remove) matches Some(Ok(v)) ==> forall|k: int|
            0 <= k < v.len() ==> (#[trigger] v[k]).1 == (ptr + 1) as u32,
{
    if ix < s.mem.ts.len() && ty is Random {
        lemma_random_next(p, s, ix, fields, ptr, remove, 0, seq![]);
    }
}

/// A `queryP` predicate leaves the tuple spaces and channels as they were
/// in every memory it leads to; a `getP` removes exactly one tuple.
pub proof fn law_query_predicate_reads(
    p: Program,
    s: StateV,
    name: Seq<char>,
    fields: Seq<Field>,
    remove: bool,
)
    ensures
        find_tuple_p(p, s, name, fields, remove) matches Some(ms) ==> forall|k: int|
            0 <= k < ms.len() ==> reads_or_takes(#[trigger] ms[k], s, tuple_space_index(p, name)->0, remove),
{
    if let Some(ix) = tuple_space_index(p, name) {
        if ix < p.tuple_spaces@.len() {
            let ty = p.tuple_spaces@[ix as int].space_type;
            law_query_reads_get_takes(p, s, ty, ix, fields, 0, remove);
            if let Some(Ok(v)) = match_space(p, s, ty, ix, fields, 0, remove) {
                let ms = v.map_values(|x: (MemV, u32)| x.0);
                assert forall|k: int| 0 <= k < ms.len() implies reads_or_takes(#[trigger] ms[k], s, ix, remove) by {
                    assert(ms[k] == v[k].0);
                }
            }
        }
    }
}

// ---------------------------------------------------------------------------
// Compiled conditionals: an `if` blocks when no guard holds, a `do` exits.

/// The head of a compiled `if` (plain, or with communication guards) and of
/// a `loop` is a `Branch` with one choice per guard and no alternative, so a
/// process there whose guards all fail cannot move; the head of a `do` has
/// one choice per guard and, as alternative, the end of the loop.
pub proof fn law_conditional_heads(c: Command, at: int, sp: Seq<TupleSpaceMeta>, ch: Seq<ChannelMeta>)
    requires
        0 <= at,
        at + cmd_size(c) < u32::MAX,
        spaces_cmd(c).subset_of(space_names(sp)),
    ensures
        c.kind matches CommandKind::If(gs) ==> cmd_code(c, at, sp, ch)[0].0 matches InstrV::Branch {
            choices,
            otherwise,
        } && otherwise is None && choices.len() == gs.len(),
        c.kind matches CommandKind::IfCG(gs) ==> cmd_code(c, at, sp, ch)[0].0 matches InstrV::Branch {
            choices,
            otherwise,
        } && otherwise is None && choices.len() == gs.len(),
        c.kind matches CommandKind::LoopCG(gs) ==> cmd_code(c, at, sp, ch)[0].0 matches InstrV::Branch {
            choices,
            otherwise,
        } && otherwise is None && choices.len() == gs.len(),
        c.kind matches CommandKind::Loop(gs) ==> cmd_code(c, at, sp, ch)[0].0 matches InstrV::Branch {
            choices,
            otherwise,
        } && otherwise == Some(crate::program::InstrPtr((at + cmd_code(c, at, sp, ch).len()) as u32))
            && choices.len() == gs.len(),
{
    crate::codegen::lemma_cmd_code_len(c, at, sp, ch);
    match c.kind {
        CommandKind::If(gs) => crate::code_laws::lemma_guard_choices_range(gs@, at + 1, sp, ch),
        CommandKind::Loop(gs) => {
            crate::code_laws::lemma_guard_choices_range(gs@, at + 1, sp, ch);
            crate::codegen::lemma_guard_bodies_len(gs@, at + 1, sp, ch);
        },
        CommandKind::IfCG(gs) => crate::code_laws::lemma_cguard_choices_range(gs@, at + 1, sp, ch),
        CommandKind::LoopCG(gs) => crate::code_laws::lemma_cguard_choices_range(gs@, at + 1, sp, ch),
        _ => {},
    }
}

// ---------------------------------------------------------------------------
// Translation keeps the shape of a formula.

/// `e` has the shape of `f`: the same connectives in the same places
/// (an implication as a disjunction with the negated premise), and a named
/// proposition for each predicate and locator.
pub open spec fn mirrors(f: LTLFormula, e: LtlV) -> bool
    decreases f,
{
    match f {
        LTLFormula::Bool(b) => if b {
            e is True
        } else {
            e is False
        },
        LTLFormula::Locator(_) => e is Literal,
        LTLFormula::Rel(_, _, _) => e is Literal,
        LTLFormula::OperationP(_) => e is Literal,
        LTLFormula::ChannelFormula(_) => e is Literal,
        LTLFormula::Not(x) => e matches LtlV::Not(a) && mirrors(*x, *a),
        LTLFormula::And(x, y) => e matches LtlV::And(a, b) && mirrors(*x, *a) && mirrors(*y, *b),
        LTLFormula::Or(x, y) => e matches LtlV::Or(a, b) && mirrors(*x, *a) && mirrors(*y, *b),
        LTLFormula::Implies(x, y) => e matches LtlV::Or(na, b) && *na matches LtlV::Not(a) && mirrors(*x, *a)
            && mirrors(*y, *b),
        LTLFormula::Until(x, y) => e matches LtlV::Until(a, b) && mirrors(*x, *a) && mirrors(*y, *b),
        LTLFormula::Next(x) => e matches LtlV::Next(a) && mirrors(*x, *a),
        LTLFormula::Globally(x) => e matches LtlV::Globally(a) && mirrors(*x, *a),
        LTLFormula::Finally(x) => e matches LtlV::Finally(a) && mirrors(*x, *a),
    }
}

/// Translating a formula keeps every connective where it is: "always"
/// stays "always", "eventually" stays "eventually", and so on, whatever the
/// tables.
pub proof fn law_translate_mirrors(f: LTLFormula, t: Tables)
    ensures
        mirrors(f, translate(f, t).0),
    decreases f,
{
    match f {
        LTLFormula::Not(x) | LTLFormula::Next(x) | LTLFormula::Globally(x) | LTLFormula::Finally(x) => {
            law_translate_mirrors(*x, t);
        },
        LTLFormula::And(x, y) | LTLFormula::Or(x, y) | LTLFormula::Implies(x, y) | LTLFormula::Until(x, y) => {
            law_translate_mirrors(*x, t);
            law_translate_mirrors(*y, translate(*x, t).1);
        },
        _ => {},
    }
}

} // verus!
