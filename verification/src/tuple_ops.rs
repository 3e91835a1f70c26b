use vstd::prelude::*;

use crate::ast::{AExpr, Field, TupleSpaceType};
use crate::program::{
    copy_ints, copy_spaces, copy_tuples, outs_view, spaces_view, tuples_view, InstrPtr, Memory,
    MemV, Program, State, StepError,
};
use crate::semantics::{
    assign_fields, target_index, fields_match_from, first_match, last_match, match_space, random_matches,
    take_found, tuple_matches, updated_mem, values_of, values_or_zero,
};

verus! {

impl State {
    /// Whether a tuple matches a pattern.
    pub(crate) fn tuple_matches(&self, t: &Vec<i32>, fields: &Vec<Field>, p: &Program) -> (r: Option<
        Result<bool, StepError>,
    >)
        ensures
            r == tuple_matches(*p, self@, t@, fields@),
    {
        if t.len() != fields.len() {
            return Some(Ok(false));
        }
        let n = fields.len();
        let mut i: usize = 0;
        while i < n
            invariant
                n == fields@.len(),
                t@.len() == n,
                i <= n,
                fields_match_from(*p, self@, t@, fields@, 0) == fields_match_from(
                    *p,
                    self@,
                    t@,
                    fields@,
                    i as int,
                ),
            decreases n - i,
        {
            match &fields[i] {
                Field::Expression(e) => {
                    match e.eval(p, self) {
                        None => return None,
                        Some(Err(err)) => return Some(Err(err)),
                        Some(Ok(v)) => {
                            if t[i] != v {
                                return Some(Ok(false));
                            }
                        },
                    }
                },
                _ => {},
            }
            i += 1;
        }
        Some(Ok(true))
    }

    /// Writes the tuple's values to the target fields of the pattern.
    pub(crate) fn assign_fields(
        &self,
        tuple: &Vec<i32>,
        fields: &Vec<Field>,
        data_in: Vec<i32>,
        p: &Program,
    ) -> (r: Option<Result<Vec<i32>, StepError>>)
        ensures
            match r {
                None => assign_fields(*p, self@, tuple@, fields@, 0, data_in@) is None,
                Some(Err(e)) => assign_fields(*p, self@, tuple@, fields@, 0, data_in@) == Some(
                    Err::<Seq<i32>, StepError>(e),
                ),
                Some(Ok(d)) => assign_fields(*p, self@, tuple@, fields@, 0, data_in@) == Some(
                    Ok::<Seq<i32>, StepError>(d@),
                ),
            },
    {
        let ghost data0 = data_in@;
        let mut data = data_in;
        let mut i: usize = 0;
        while i < tuple.len() && i < fields.len()
            invariant
                i <= tuple@.len(),
                i <= fields@.len(),
                data0 == data_in@,
                assign_fields(*p, self@, tuple@, fields@, 0, data0) == assign_fields(
                    *p,
                    self@,
                    tuple@,
                    fields@,
                    i as int,
                    data@,
                ),
            decreases fields@.len() - i,
        {
            match &fields[i] {
                Field::Target(t) => {
                    let r_ix = self.target_index(t, p);
                    assert(fields@[i as int] == Field::Target(*t));
                    let ix = match r_ix {
                        None => return None,
                        Some(Err(err)) => return Some(Err(err)),
                        Some(Ok(ix)) => ix,
                    };
                    if (ix as usize) < data.len() {
                        data.set(ix as usize, tuple[i]);
                    } else {
                        return None;
                    }
                },
                _ => {},
            }
            i += 1;
        }
        Some(Ok(data))
    }

    /// The memory after taking (or reading) the tuple at `pos`, and the next
    /// instruction.
    pub(crate) fn updated_mem(
        &self,
        pos: usize,
        fields: &Vec<Field>,
        ts_index: u32,
        remove: bool,
        ptr: u32,
        p: &Program,
    ) -> (r: Option<Result<(Memory, InstrPtr), StepError>>)
        requires
            ptr < u32::MAX,
        ensures
            match r {
                None => updated_mem(*p, self@, pos as int, fields@, ts_index, remove, ptr) is None,
                Some(Err(e)) => updated_mem(*p, self@, pos as int, fields@, ts_index, remove, ptr)
                    == Some(Err::<(MemV, u32), StepError>(e)),
                Some(Ok(x)) => updated_mem(*p, self@, pos as int, fields@, ts_index, remove, ptr)
                    == Some(Ok::<(MemV, u32), StepError>((x.0@, x.1.0))),
            },
    {
        let ti = ts_index as usize;
        if ti >= self.memory.tuple_spaces.len() || pos >= self.memory.tuple_spaces[ti].len() {
            return None;
        }
        let tuple = copy_ints(&self.memory.tuple_spaces[ti][pos]);
        let mut ts = copy_spaces(&self.memory.tuple_spaces);
        let ghost tsv = spaces_view(self.memory.tuple_spaces);
        assert(ts@.len() == spaces_view(ts).len());
        if remove {
            assert(spaces_view(ts)[ti as int] == tsv[ti as int]);
            assert(tuples_view(ts@[ti as int]).len() == ts@[ti as int]@.len());
            let mut inner: Vec<Vec<i32>> = Vec::new();
            ts.set_and_swap(ti, &mut inner);
            let ghost inner0 = inner;
            let _ = inner.remove(pos);
            assert(tuples_view(inner) =~= tuples_view(inner0).remove(pos as int));
            ts.set(ti, inner);
            assert(spaces_view(ts) =~= tsv.update(ti as int, tsv[ti as int].remove(pos as int)));
        }
        let data = copy_ints(&self.memory.data);
        match self.assign_fields(&tuple, fields, data, p) {
            None => None,
            Some(Err(e)) => Some(Err(e)),
            Some(Ok(d)) => {
                let m = Memory { data: d, tuple_spaces: ts, channels: copy_tuples(&self.memory.channels) };
                let r = (m, InstrPtr(ptr + 1));
                assert((r.0@, r.1.0) =~~= (
                    MemV {
                        data: d@,
                        ts: if remove {
                            tsv.update(ti as int, tsv[ti as int].remove(pos as int))
                        } else {
                            tsv
                        },
                        ch: self@.mem.ch,
                    },
                    (ptr + 1) as u32,
                ));
                Some(Ok(r))
            },
        }
    }
}

/// The result of a search for a matching tuple, and the memory it leads to.
pub(crate) open spec fn outs_result(r: Option<Result<Vec<(Memory, InstrPtr)>, StepError>>) -> Option<
    Result<Seq<(MemV, u32)>, StepError>,
> {
    match r {
        None => None,
        Some(Err(e)) => Some(Err(e)),
        Some(Ok(v)) => Some(Ok(outs_view(v@))),
    }
}

impl State {
    /// The first matching position at or after `from`.
    fn first_match(&self, tuples: &Vec<Vec<i32>>, fields: &Vec<Field>, p: &Program) -> (r: Option<
        Result<Option<usize>, StepError>,
    >)
        ensures
            match r {
                None => first_match(*p, self@, tuples_view(*tuples), fields@, 0) is None,
                Some(Err(e)) => first_match(*p, self@, tuples_view(*tuples), fields@, 0) == Some(
                    Err::<Option<int>, StepError>(e),
                ),
                Some(Ok(None)) => first_match(*p, self@, tuples_view(*tuples), fields@, 0) == Some(
                    Ok::<Option<int>, StepError>(None),
                ),
                Some(Ok(Some(k))) => first_match(*p, self@, tuples_view(*tuples), fields@, 0)
                    == Some(Ok::<Option<int>, StepError>(Some(k as int))),
            },
    {
        let ghost tv = tuples_view(*tuples);
        let n = tuples.len();
        let mut pos: usize = 0;
        while pos < n
            invariant
                n == tuples@.len(),
                tv == tuples_view(*tuples),
                pos <= n,
                first_match(*p, self@, tv, fields@, 0) == first_match(*p, self@, tv, fields@, pos as int),
            decreases n - pos,
        {
            match self.tuple_matches(&tuples[pos], fields, p) {
                None => return None,
                Some(Err(e)) => return Some(Err(e)),
                Some(Ok(true)) => return Some(Ok(Some(pos))),
                Some(Ok(false)) => {},
            }
            pos += 1;
        }
        Some(Ok(None))
    }

    /// The last matching position.
    fn last_match(&self, tuples: &Vec<Vec<i32>>, fields: &Vec<Field>, p: &Program) -> (r: Option<
        Result<Option<usize>, StepError>,
    >)
        ensures
            ({
                let spec_r = last_match(*p, self@, tuples_view(*tuples), fields@, tuples@.len() as int);
                match r {
                    None => spec_r is None,
                    Some(Err(e)) => spec_r == Some(Err::<Option<int>, StepError>(e)),
                    Some(Ok(None)) => spec_r == Some(Ok::<Option<int>, StepError>(None)),
                    Some(Ok(Some(k))) => spec_r == Some(Ok::<Option<int>, StepError>(Some(k as int))),
                }
            }),
    {
        let ghost tv = tuples_view(*tuples);
        let n = tuples.len();
        let mut k: usize = n;
        while k > 0
            invariant
                n == tuples@.len(),
                tv == tuples_view(*tuples),
                k <= n,
                last_match(*p, self@, tv, fields@, n as int) == last_match(*p, self@, tv, fields@, k as int),
            decreases k,
        {
            match self.tuple_matches(&tuples[k - 1], fields, p) {
                None => return None,
                Some(Err(e)) => return Some(Err(e)),
                Some(Ok(true)) => return Some(Ok(Some(k - 1))),
                Some(Ok(false)) => {},
            }
            k -= 1;
        }
        Some(Ok(None))
    }

    /// The single successor for a found position.
    fn take_found(
        &self,
        found: Option<Result<Option<usize>, StepError>>,
        ts_index: u32,
        fields: &Vec<Field>,
        ptr: u32,
        remove: bool,
        p: &Program,
    ) -> (r: Option<Result<Vec<(Memory, InstrPtr)>, StepError>>)
        requires
            ptr < u32::MAX,
        ensures
            outs_result(r) == take_found(
                *p,
                self@,
                match found {
                    None => None,
                    Some(Err(e)) => Some(Err(e)),
                    Some(Ok(None)) => Some(Ok(None)),
                    Some(Ok(Some(k))) => Some(Ok(Some(k as int))),
                },
                ts_index,
                fields@,
                ptr,
                remove,
            ),
    {
        match found {
            None => None,
            Some(Err(e)) => Some(Err(e)),
            Some(Ok(None)) => Some(Err(StepError::Stuck)),
            Some(Ok(Some(pos))) => match self.updated_mem(pos, fields, ts_index, remove, ptr, p) {
                None => None,
                Some(Err(e)) => Some(Err(e)),
                Some(Ok(x)) => {
                    let mut v: Vec<(Memory, InstrPtr)> = Vec::new();
                    v.push(x);
                    assert(outs_view(v@) =~= seq![(x.0@, x.1.0)]);
                    Some(Ok(v))
                },
            },
        }
    }

    /// Taking (`remove`) or reading a matching tuple, by the discipline of
    /// the tuple space.
    pub(crate) fn match_space(
        &self,
        ts_type: TupleSpaceType,
        ts_index: u32,
        fields: &Vec<Field>,
        p: &Program,
        ptr: u32,
        remove: bool,
    ) -> (r: Option<Result<Vec<(Memory, InstrPtr)>, StepError>>)
        requires
            ptr < u32::MAX,
        ensures
            outs_result(r) == match_space(*p, self@, ts_type, ts_index, fields@, ptr, remove),
    {
        let ti = ts_index as usize;
        if ti >= self.memory.tuple_spaces.len() {
            return None;
        }
        let tuples = &self.memory.tuple_spaces[ti];
        let ghost tv = tuples_view(*tuples);
        assert(tv == self@.mem.ts[ti as int]);
        match ts_type {
            TupleSpaceType::Random => {
                let mut results: Vec<(Memory, InstrPtr)> = Vec::new();
                let n = tuples.len();
                let mut pos: usize = 0;
                assert(outs_view(results@) =~= seq![]);
                while pos < n
                    invariant
                        match_space(*p, self@, ts_type, ts_index, fields@, ptr, remove)
                            == random_matches(*p, self@, ts_index, fields@, ptr, remove, 0, seq![]),
                        n == tuples@.len(),
                        tv == tuples_view(*tuples),
                        tv == self@.mem.ts[ti as int],
                        ti == ts_index,
                        ti < self@.mem.ts.len(),
                        ptr < u32::MAX,
                        pos <= n,
                        random_matches(*p, self@, ts_index, fields@, ptr, remove, 0, seq![])
                            == random_matches(
                            *p,
                            self@,
                            ts_index,
                            fields@,
                            ptr,
                            remove,
                            pos as int,
                            outs_view(results@),
                        ),
                    decreases n - pos,
                {
                    match self.tuple_matches(&tuples[pos], fields, p) {
                        None => return None,
                        Some(Err(e)) => return Some(Err(e)),
                        Some(Ok(false)) => {},
                        Some(Ok(true)) => {
                            match self.updated_mem(pos, fields, ts_index, remove, ptr, p) {
                                None => return None,
                                Some(Err(e)) => return Some(Err(e)),
                                Some(Ok(x)) => {
                                    let ghost before = outs_view(results@);
                                    results.push(x);
                                    assert(outs_view(results@) =~= before.push((x.0@, x.1.0)));
                                },
                            }
                        },
                    }
                    pos += 1;
                }
                if results.len() == 0 {
                    return Some(Err(StepError::Stuck));
                }
                Some(Ok(results))
            },
            TupleSpaceType::FIFO => {
                let found = self.first_match(tuples, fields, p);
                self.take_found(found, ts_index, fields, ptr, remove, p)
            },
            TupleSpaceType::LIFO => {
                let found = self.last_match(tuples, fields, p);
                self.take_found(found, ts_index, fields, ptr, remove, p)
            },
            TupleSpaceType::Queue => {
                if tuples.len() == 0 {
                    return Some(Err(StepError::Stuck));
                }
                match self.tuple_matches(&tuples[0], fields, p) {
                    None => None,
                    Some(Err(e)) => Some(Err(e)),
                    Some(Ok(false)) => Some(Err(StepError::Stuck)),
                    Some(Ok(true)) => self.take_found(Some(Ok(Some(0))), ts_index, fields, ptr, remove, p),
                }
            },
            TupleSpaceType::Stack => {
                if tuples.len() == 0 {
                    return Some(Err(StepError::Stuck));
                }
                let last = tuples.len() - 1;
                match self.tuple_matches(&tuples[last], fields, p) {
                    None => None,
                    Some(Err(e)) => Some(Err(e)),
                    Some(Ok(false)) => Some(Err(StepError::Stuck)),
                    Some(Ok(true)) => self.take_found(Some(Ok(Some(last))), ts_index, fields, ptr, remove, p),
                }
            },
        }
    }

    /// The values of the arguments, with `0` for one whose evaluation fails.
    pub(crate) fn values_or_zero(&self, args: &Vec<AExpr>, p: &Program) -> (r: Option<Vec<i32>>)
        ensures
            match r {
                None => values_or_zero(*p, self@, args@) is None,
                Some(v) => values_or_zero(*p, self@, args@) == Some(v@),
            },
    {
        let mut vs: Vec<i32> = Vec::new();
        let n = args.len();
        let mut i: usize = 0;
        while i < n
            invariant
                n == args@.len(),
                i <= n,
                values_or_zero(*p, self@, args@.take(i as int)) == Some(vs@),
            decreases n - i,
        {
            assert(args@.take(i + 1).drop_last() =~= args@.take(i as int));
            match args[i].eval(p, self) {
                None => {
                    assert(values_or_zero(*p, self@, args@.take(i + 1)) is None);
                    proof {
                        lemma_values_or_zero_none(*p, self@, args@, i + 1);
                    }
                    return None;
                },
                Some(Err(_)) => vs.push(0),
                Some(Ok(v)) => vs.push(v),
            }
            i += 1;
        }
        assert(args@.take(n as int) =~= args@);
        Some(vs)
    }

    /// The values of the arguments, or the first error.
    pub(crate) fn values_of(&self, args: &Vec<AExpr>, p: &Program) -> (r: Option<Result<Vec<i32>, StepError>>)
        ensures
            match r {
                None => values_of(*p, self@, args@) is None,
                Some(Err(e)) => values_of(*p, self@, args@) == Some(Err::<Seq<i32>, StepError>(e)),
                Some(Ok(v)) => values_of(*p, self@, args@) == Some(Ok::<Seq<i32>, StepError>(v@)),
            },
    {
        let mut vs: Vec<i32> = Vec::new();
        let n = args.len();
        let mut i: usize = 0;
        while i < n
            invariant
                n == args@.len(),
                i <= n,
                values_of(*p, self@, args@.take(i as int)) == Some(Ok::<Seq<i32>, StepError>(vs@)),
            decreases n - i,
        {
            assert(args@.take(i + 1).drop_last() =~= args@.take(i as int));
            match args[i].eval(p, self) {
                None => {
                    proof {
                        lemma_values_of_stops(*p, self@, args@, i + 1);
                    }
                    return None;
                },
                Some(Err(e)) => {
                    proof {
                        lemma_values_of_stops(*p, self@, args@, i + 1);
                    }
                    return Some(Err(e));
                },
                Some(Ok(v)) => vs.push(v),
            }
            i += 1;
        }
        assert(args@.take(n as int) =~= args@);
        Some(Ok(vs))
    }
}

/// Once an argument's evaluation panics, the whole evaluation does.
proof fn lemma_values_or_zero_none(p: Program, s: crate::program::StateV, args: Seq<AExpr>, k: int)
    requires
        0 <= k <= args.len(),
        values_or_zero(p, s, args.take(k)) is None,
    ensures
        values_or_zero(p, s, args) is None,
    decreases args.len() - k,
{
    if k < args.len() {
        assert(args.take(k + 1).drop_last() =~= args.take(k));
        lemma_values_or_zero_none(p, s, args, k + 1);
    } else {
        assert(args.take(k) =~= args);
    }
}

/// Once an argument fails, the evaluation of all of them stops there.
proof fn lemma_values_of_stops(p: Program, s: crate::program::StateV, args: Seq<AExpr>, k: int)
    requires
        0 <= k <= args.len(),
        !(values_of(p, s, args.take(k)) matches Some(Ok(_))),
    ensures
        values_of(p, s, args) == values_of(p, s, args.take(k)),
    decreases args.len() - k,
{
    if k < args.len() {
        assert(args.take(k + 1).drop_last() =~= args.take(k));
        lemma_values_of_stops(p, s, args, k + 1);
    } else {
        assert(args.take(k) =~= args);
    }
}

} // verus!
