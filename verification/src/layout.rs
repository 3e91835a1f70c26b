use vstd::prelude::*;

use indexmap::IndexMap;

use crate::ast::{Array, BufferSize, Channel, ChannelName, Commands, TargetDecl, TupleSpace, TupleSpaceName, TupleSpaceType};
use crate::collections::{
    array_size_entries, array_size_get, channel_entry_view, keys_distinct, lookup,
    tuple_space_entry_view,
};
use crate::free_vars::{acc_ok, acc_set, collect_cmds, fv_cmds};
use crate::order::{
    decls_view, elems, insert_sorted, lemma_name_lt_total, lemma_name_lt_transitive, name_less,
    name_lt, DeclV,
};
use crate::program::{ChannelMeta, TargetMeta, TupleSpaceMeta};
use crate::semantics::wrapping_add_u32;

verus! {

// ---------------------------------------------------------------------------
// Tuple spaces and channels, sorted by name.

pub open spec fn space_entry_proj(e: (Seq<char>, (TupleSpaceType, BufferSize, Seq<Seq<i32>>))) -> (
    Seq<char>,
    TupleSpaceType,
    BufferSize,
) {
    (e.0, e.1.0, e.1.1)
}

pub open spec fn space_meta_view(m: TupleSpaceMeta) -> (Seq<char>, TupleSpaceType, BufferSize) {
    (m.name.0@, m.space_type, m.size)
}

pub open spec fn spaces_sorted(s: Seq<TupleSpaceMeta>) -> bool {
    forall|i: int, j: int| 0 <= i < j < s.len() ==> name_lt(#[trigger] s[i].name.0@, #[trigger] s[j].name.0@)
}

pub open spec fn channel_entry_proj(e: (Seq<char>, (BufferSize, Seq<i32>))) -> (Seq<char>, BufferSize) {
    (e.0, e.1.0)
}

pub open spec fn channel_meta_view(m: ChannelMeta) -> (Seq<char>, BufferSize) {
    (m.name.0@, m.size)
}

pub open spec fn channels_sorted(s: Seq<ChannelMeta>) -> bool {
    forall|i: int, j: int| 0 <= i < j < s.len() ==> name_lt(#[trigger] s[i].name.0@, #[trigger] s[j].name.0@)
}

fn insert_space(acc: &mut Vec<TupleSpaceMeta>, m: TupleSpaceMeta)
    requires
        spaces_sorted(old(acc)@),
        forall|i: int| 0 <= i < old(acc)@.len() ==> (#[trigger] old(acc)@[i]).name.0@ != m.name.0@,
    ensures
        spaces_sorted(final(acc)@),
        final(acc)@.map_values(|x: TupleSpaceMeta| space_meta_view(x)).to_set() == old(
            acc,
        )@.map_values(|x: TupleSpaceMeta| space_meta_view(x)).to_set().insert(space_meta_view(m)),
{
    let ghost old_v = acc@;
    let mut k: usize = 0;
    while k < acc.len() && name_less(&acc[k].name.0, &m.name.0)
        invariant
            k <= acc@.len(),
            acc@ == old_v,
            forall|j: int| 0 <= j < k ==> name_lt(#[trigger] old_v[j].name.0@, m.name.0@),
        decreases acc@.len() - k,
    {
        k += 1;
    }
    let ghost mv = m;
    acc.insert(k, m);
    proof {
        let new_v = acc@;
        assert(new_v =~= old_v.insert(k as int, mv));
        if k < old_v.len() {
            lemma_name_lt_total(old_v[k as int].name.0@, mv.name.0@);
        }
        assert forall|i: int, j: int| 0 <= i < j < new_v.len() implies name_lt(
            #[trigger] new_v[i].name.0@,
            #[trigger] new_v[j].name.0@,
        ) by {
            if j < k {
                assert(name_lt(old_v[i].name.0@, old_v[j].name.0@));
            } else if j == k {
                assert(name_lt(old_v[i].name.0@, mv.name.0@));
            } else if i == k {
                if j - 1 > k {
                    assert(name_lt(old_v[k as int].name.0@, old_v[j - 1].name.0@));
                    lemma_name_lt_transitive(mv.name.0@, old_v[k as int].name.0@, old_v[j - 1].name.0@);
                }
            } else if i < k {
                assert(name_lt(old_v[i].name.0@, old_v[j - 1].name.0@));
            } else {
                assert(name_lt(old_v[i - 1].name.0@, old_v[j - 1].name.0@));
            }
        }
        let a = new_v.map_values(|x: TupleSpaceMeta| space_meta_view(x));
        let b = old_v.map_values(|x: TupleSpaceMeta| space_meta_view(x));
        assert forall|x| #[trigger] a.to_set().contains(x) == b.to_set().insert(space_meta_view(mv)).contains(x) by {
            if a.contains(x) {
                let i = choose|i: int| 0 <= i < a.len() && a[i] == x;
                if i < k {
                    assert(b[i] == x);
                } else if i > k {
                    assert(b[i - 1] == x);
                }
            }
            if b.contains(x) {
                let i = choose|i: int| 0 <= i < b.len() && b[i] == x;
                if i < k {
                    assert(a[i] == x);
                } else {
                    assert(a[i + 1] == x);
                }
            }
            if x == space_meta_view(mv) {
                assert(a[k as int] == x);
            }
        }
        assert(a.to_set() =~= b.to_set().insert(space_meta_view(mv)));
    }
}

/// The tuple spaces of a map, sorted by name.
pub(crate) fn sorted_spaces(entries: Vec<(TupleSpaceName, TupleSpace)>) -> (r: Vec<TupleSpaceMeta>)
    requires
        keys_distinct(entries@.map_values(|x: (TupleSpaceName, TupleSpace)| tuple_space_entry_view(x))),
    ensures
        spaces_sorted(r@),
        r@.map_values(|x: TupleSpaceMeta| space_meta_view(x)).to_set() == entries@.map_values(
            |x: (TupleSpaceName, TupleSpace)| space_entry_proj(tuple_space_entry_view(x)),
        ).to_set(),
{
    let ghost ev = entries@.map_values(|x: (TupleSpaceName, TupleSpace)| tuple_space_entry_view(x));
    let ghost pv = entries@.map_values(
        |x: (TupleSpaceName, TupleSpace)| space_entry_proj(tuple_space_entry_view(x)),
    );
    let ghost e0 = entries@;
    let ghost n = entries@.len();
    let mut rest = entries;
    let mut acc: Vec<TupleSpaceMeta> = Vec::new();
    let ghost mut k: int = 0;
    assert(acc@.map_values(|x: TupleSpaceMeta| space_meta_view(x)).to_set() =~= pv.take(0).to_set());
    while rest.len() > 0
        invariant
            0 <= k,
            k + rest@.len() == n,
            e0.len() == n,
            rest@ == e0.skip(k),
            ev == e0.map_values(|x: (TupleSpaceName, TupleSpace)| tuple_space_entry_view(x)),
            pv == e0.map_values(|x: (TupleSpaceName, TupleSpace)| space_entry_proj(tuple_space_entry_view(x))),
            keys_distinct(ev),
            spaces_sorted(acc@),
            acc@.map_values(|x: TupleSpaceMeta| space_meta_view(x)).to_set() == pv.take(k).to_set(),
        decreases rest@.len(),
    {
        let ghost rest_before = rest@;
        let (name, ts) = rest.remove(0);
        let m = TupleSpaceMeta { name, space_type: ts.space_type, size: ts.size };
        proof {
            assert(rest_before[0] == e0[k]);
            assert(rest@ =~= e0.skip(k + 1));
            assert(space_meta_view(m) == pv[k]);
            assert forall|i: int| 0 <= i < acc@.len() implies (#[trigger] acc@[i]).name.0@ != m.name.0@ by {
                let a = acc@.map_values(|x: TupleSpaceMeta| space_meta_view(x));
                assert(a[i] == space_meta_view(acc@[i]));
                assert(a.to_set().contains(a[i]));
                assert(pv.take(k).contains(a[i]));
                let j = choose|j: int| 0 <= j < k && pv.take(k)[j] == a[i];
                assert(pv[j].0 == ev[j].0);
                assert(pv[k].0 == ev[k].0);
                assert(ev[j].0 != ev[k].0);
            }
        }
        insert_space(&mut acc, m);
        proof {
            assert(pv.take(k + 1) =~= pv.take(k).push(pv[k]));
            pv.take(k).lemma_push_to_set_commute(pv[k]);
            k = k + 1;
        }
    }
    assert(pv.take(n as int) =~= pv);
    acc
}

fn insert_channel(acc: &mut Vec<ChannelMeta>, m: ChannelMeta)
    requires
        channels_sorted(old(acc)@),
        forall|i: int| 0 <= i < old(acc)@.len() ==> (#[trigger] old(acc)@[i]).name.0@ != m.name.0@,
    ensures
        channels_sorted(final(acc)@),
        final(acc)@.map_values(|x: ChannelMeta| channel_meta_view(x)).to_set() == old(
            acc,
        )@.map_values(|x: ChannelMeta| channel_meta_view(x)).to_set().insert(channel_meta_view(m)),
{
    let ghost old_v = acc@;
    let mut k: usize = 0;
    while k < acc.len() && name_less(&acc[k].name.0, &m.name.0)
        invariant
            k <= acc@.len(),
            acc@ == old_v,
            forall|j: int| 0 <= j < k ==> name_lt(#[trigger] old_v[j].name.0@, m.name.0@),
        decreases acc@.len() - k,
    {
        k += 1;
    }
    let ghost mv = m;
    acc.insert(k, m);
    proof {
        let new_v = acc@;
        assert(new_v =~= old_v.insert(k as int, mv));
        if k < old_v.len() {
            lemma_name_lt_total(old_v[k as int].name.0@, mv.name.0@);
        }
        assert forall|i: int, j: int| 0 <= i < j < new_v.len() implies name_lt(
            #[trigger] new_v[i].name.0@,
            #[trigger] new_v[j].name.0@,
        ) by {
            if j < k {
                assert(name_lt(old_v[i].name.0@, old_v[j].name.0@));
            } else if j == k {
                assert(name_lt(old_v[i].name.0@, mv.name.0@));
            } else if i == k {
                if j - 1 > k {
                    assert(name_lt(old_v[k as int].name.0@, old_v[j - 1].name.0@));
                    lemma_name_lt_transitive(mv.name.0@, old_v[k as int].name.0@, old_v[j - 1].name.0@);
                }
            } else if i < k {
                assert(name_lt(old_v[i].name.0@, old_v[j - 1].name.0@));
            } else {
                assert(name_lt(old_v[i - 1].name.0@, old_v[j - 1].name.0@));
            }
        }
        let a = new_v.map_values(|x: ChannelMeta| channel_meta_view(x));
        let b = old_v.map_values(|x: ChannelMeta| channel_meta_view(x));
        assert forall|x| #[trigger] a.to_set().contains(x) == b.to_set().insert(channel_meta_view(mv)).contains(x) by {
            if a.contains(x) {
                let i = choose|i: int| 0 <= i < a.len() && a[i] == x;
                if i < k {
                    assert(b[i] == x);
                } else if i > k {
                    assert(b[i - 1] == x);
                }
            }
            if b.contains(x) {
                let i = choose|i: int| 0 <= i < b.len() && b[i] == x;
                if i < k {
                    assert(a[i] == x);
                } else {
                    assert(a[i + 1] == x);
                }
            }
            if x == channel_meta_view(mv) {
                assert(a[k as int] == x);
            }
        }
        assert(a.to_set() =~= b.to_set().insert(channel_meta_view(mv)));
    }
}

/// The channels of a map, sorted by name.
pub(crate) fn sorted_channels(entries: Vec<(ChannelName, Channel)>) -> (r: Vec<ChannelMeta>)
    requires
        keys_distinct(entries@.map_values(|x: (ChannelName, Channel)| channel_entry_view(x))),
    ensures
        channels_sorted(r@),
        r@.map_values(|x: ChannelMeta| channel_meta_view(x)).to_set() == entries@.map_values(
            |x: (ChannelName, Channel)| channel_entry_proj(channel_entry_view(x)),
        ).to_set(),
{
    let ghost ev = entries@.map_values(|x: (ChannelName, Channel)| channel_entry_view(x));
    let ghost pv = entries@.map_values(|x: (ChannelName, Channel)| channel_entry_proj(channel_entry_view(x)));
    let ghost e0 = entries@;
    let ghost n = entries@.len();
    let mut rest = entries;
    let mut acc: Vec<ChannelMeta> = Vec::new();
    let ghost mut k: int = 0;
    assert(acc@.map_values(|x: ChannelMeta| channel_meta_view(x)).to_set() =~= pv.take(0).to_set());
    while rest.len() > 0
        invariant
            0 <= k,
            k + rest@.len() == n,
            e0.len() == n,
            rest@ == e0.skip(k),
            ev == e0.map_values(|x: (ChannelName, Channel)| channel_entry_view(x)),
            pv == e0.map_values(|x: (ChannelName, Channel)| channel_entry_proj(channel_entry_view(x))),
            keys_distinct(ev),
            channels_sorted(acc@),
            acc@.map_values(|x: ChannelMeta| channel_meta_view(x)).to_set() == pv.take(k).to_set(),
        decreases rest@.len(),
    {
        let ghost rest_before = rest@;
        let (name, c) = rest.remove(0);
        let m = ChannelMeta { name, size: c.size };
        proof {
            assert(rest_before[0] == e0[k]);
            assert(rest@ =~= e0.skip(k + 1));
            assert(channel_meta_view(m) == pv[k]);
            assert forall|i: int| 0 <= i < acc@.len() implies (#[trigger] acc@[i]).name.0@ != m.name.0@ by {
                let a = acc@.map_values(|x: ChannelMeta| channel_meta_view(x));
                assert(a[i] == channel_meta_view(acc@[i]));
                assert(a.to_set().contains(a[i]));
                assert(pv.take(k).contains(a[i]));
                let j = choose|j: int| 0 <= j < k && pv.take(k)[j] == a[i];
                assert(pv[j].0 == ev[j].0);
                assert(pv[k].0 == ev[k].0);
                assert(ev[j].0 != ev[k].0);
            }
        }
        insert_channel(&mut acc, m);
        proof {
            assert(pv.take(k + 1) =~= pv.take(k).push(pv[k]));
            pv.take(k).lemma_push_to_set_commute(pv[k]);
            k = k + 1;
        }
    }
    assert(pv.take(n as int) =~= pv);
    acc
}

// ---------------------------------------------------------------------------
// The data layout: the variables and arrays that the program mentions, in
// order, each at the sum of the lengths before it (wrapping), an array as
// long as its declared size, or 1.

pub open spec fn fv_program(ps: Seq<Commands>) -> Set<DeclV>
    decreases ps.len(),
{
    if ps.len() == 0 {
        Set::empty()
    } else {
        fv_program(ps.drop_last()).union(fv_cmds(ps.last().0@))
    }
}

pub open spec fn decl_length(d: DeclV, sizes: Seq<(Seq<char>, u32)>) -> u32 {
    match d {
        DeclV::Variable(_) => 1,
        DeclV::Array(a) => match lookup(sizes, a) {
            Some(n) => n,
            None => 1,
        },
    }
}

/// Where the data after the given locations starts.
pub open spec fn layout_end(ds: Seq<DeclV>, sizes: Seq<(Seq<char>, u32)>) -> u32
    decreases ds.len(),
{
    if ds.len() == 0 {
        0
    } else {
        wrapping_add_u32(layout_end(ds.drop_last(), sizes), decl_length(ds.last(), sizes))
    }
}

/// Each location with its base index and its length.
pub open spec fn layout(ds: Seq<DeclV>, sizes: Seq<(Seq<char>, u32)>) -> Seq<(DeclV, u32, u32)>
    decreases ds.len(),
{
    if ds.len() == 0 {
        seq![]
    } else {
        layout(ds.drop_last(), sizes).push(
            (ds.last(), layout_end(ds.drop_last(), sizes), decl_length(ds.last(), sizes)),
        )
    }
}

pub open spec fn meta_view(m: TargetMeta) -> (DeclV, u32, u32) {
    (m.target@, m.base_index, m.length)
}

/// The locations of all processes and the additional ones, strictly sorted.
pub(crate) fn collect_program(ps: &Vec<Commands>, extra: &Vec<TargetDecl>) -> (r: Vec<TargetDecl>)
    ensures
        acc_ok(r@),
        acc_set(r@) == fv_program(ps@).union(elems(decls_view(extra@))),
{
    let mut acc: Vec<TargetDecl> = Vec::new();
    assert(acc_set(acc@) =~= Set::<DeclV>::empty());
    let mut i: usize = 0;
    assert(ps@.take(0) =~= Seq::<Commands>::empty());
    while i < ps.len()
        invariant
            i <= ps@.len(),
            acc_ok(acc@),
            acc_set(acc@) == fv_program(ps@.take(i as int)),
        decreases ps@.len() - i,
    {
        collect_cmds(&ps[i].0, &mut acc);
        assert(ps@.take(i + 1).drop_last() =~= ps@.take(i as int));
        i += 1;
    }
    assert(ps@.take(ps@.len() as int) =~= ps@);
    let ghost base = acc_set(acc@);
    let mut j: usize = 0;
    assert(elems(decls_view(extra@.take(0))) =~= Set::<DeclV>::empty());
    assert(base.union(elems(decls_view(extra@.take(0)))) =~= base);
    while j < extra.len()
        invariant
            j <= extra@.len(),
            acc_ok(acc@),
            base == fv_program(ps@),
            acc_set(acc@) == base.union(elems(decls_view(extra@.take(j as int)))),
        decreases extra@.len() - j,
    {
        let d = extra[j].clone();
        insert_sorted(&mut acc, d);
        proof {
            let t0 = decls_view(extra@.take(j as int));
            let t1 = decls_view(extra@.take(j + 1));
            assert(t1 =~= t0.push(extra@[j as int]@));
            assert forall|x: DeclV| #[trigger] elems(t1).contains(x) == elems(t0).insert(extra@[j as int]@).contains(x) by {
                if t1.contains(x) {
                    let k = choose|k: int| 0 <= k < t1.len() && t1[k] == x;
                    if k < t0.len() {
                        assert(t0[k] == x);
                    }
                }
                if t0.contains(x) {
                    let k = choose|k: int| 0 <= k < t0.len() && t0[k] == x;
                    assert(t1[k] == x);
                }
                if x == extra@[j as int]@ {
                    assert(t1[j as int] == x);
                }
            }
            assert(acc_set(acc@) =~= base.union(elems(t1)));
        }
        j += 1;
    }
    assert(extra@.take(extra@.len() as int) =~= extra@);
    acc
}

/// The layout of the given locations.
pub(crate) fn build_metas(decls: Vec<TargetDecl>, sizes: &IndexMap<Array, u32>) -> (r: Vec<TargetMeta>)
    ensures
        r@.map_values(|m: TargetMeta| meta_view(m)) == layout(decls_view(decls@), array_size_entries(*sizes)),
{
    let ghost dv = decls_view(decls@);
    let ghost sz = array_size_entries(*sizes);
    let ghost n = decls@.len();
    let ghost d0 = decls@;
    let mut rest = decls;
    let mut metas: Vec<TargetMeta> = Vec::new();
    let mut base: u32 = 0;
    let ghost mut k: int = 0;
    assert(metas@.map_values(|m: TargetMeta| meta_view(m)) =~= layout(dv.take(0), sz));
    while rest.len() > 0
        invariant
            0 <= k,
            k + rest@.len() == n,
            d0.len() == n,
            dv == decls_view(d0),
            sz == array_size_entries(*sizes),
            rest@ == d0.skip(k),
            metas@.map_values(|m: TargetMeta| meta_view(m)) == layout(dv.take(k), sz),
            base == layout_end(dv.take(k), sz),
        decreases rest@.len(),
    {
        let ghost rest_before = rest@;
        let ghost metas_before = metas@;
        let d = rest.remove(0);
        proof {
            assert(rest_before[0] == d0[k]);
            assert(rest@ =~= d0.skip(k + 1));
            assert(dv.take(k + 1).drop_last() =~= dv.take(k));
            assert(dv.take(k + 1).last() == d@);
        }
        let length: u32 = match &d {
            TargetDecl::Variable(_) => 1,
            TargetDecl::Array(a) => match array_size_get(sizes, a) {
                Some(len) => len,
                None => 1,
            },
        };
        let meta = TargetMeta { target: d, base_index: base, length };
        metas.push(meta);
        base = base.wrapping_add(length);
        proof {
            assert(metas@.map_values(|m: TargetMeta| meta_view(m)) =~= metas_before.map_values(
                |m: TargetMeta| meta_view(m),
            ).push(meta_view(meta)));
            k = k + 1;
        }
    }
    assert(dv.take(n as int) =~= dv);
    metas
}

// ---------------------------------------------------------------------------
// Laws of the layout.

/// The number of data cells of the given locations.
pub open spec fn layout_total(ds: Seq<DeclV>, sizes: Seq<(Seq<char>, u32)>) -> int
    decreases ds.len(),
{
    if ds.len() == 0 {
        0
    } else {
        layout_total(ds.drop_last(), sizes) + decl_length(ds.last(), sizes)
    }
}

proof fn lemma_layout_end_exact(ds: Seq<DeclV>, sizes: Seq<(Seq<char>, u32)>)
    requires
        layout_total(ds, sizes) <= u32::MAX,
    ensures
        layout_end(ds, sizes) == layout_total(ds, sizes),
        layout_total(ds, sizes) >= 0,
    decreases ds.len(),
{
    if ds.len() > 0 {
        lemma_layout_end_exact(ds.drop_last(), sizes);
    }
}

/// When all cells fit in the data, the layout gives each location cells of
/// its own: each begins where the ones before it end, and ends within the
/// total.
pub proof fn law_layout_disjoint(ds: Seq<DeclV>, sizes: Seq<(Seq<char>, u32)>)
    requires
        layout_total(ds, sizes) <= u32::MAX,
    ensures
        layout(ds, sizes).len() == ds.len(),
        forall|i: int|
            0 <= i < ds.len() ==> (#[trigger] layout(ds, sizes)[i]).1 + layout(ds, sizes)[i].2 <= layout_total(
                ds,
                sizes,
            ),
        forall|i: int, j: int|
            0 <= i < j < ds.len() ==> (#[trigger] layout(ds, sizes)[i]).1 + layout(ds, sizes)[i].2 <= (
            #[trigger] layout(ds, sizes)[j]).1,
    decreases ds.len(),
{
    if ds.len() > 0 {
        let prev = ds.drop_last();
        law_layout_disjoint(prev, sizes);
        lemma_layout_end_exact(prev, sizes);
        let l = layout(ds, sizes);
        let lp = layout(prev, sizes);
        assert(l == lp.push((ds.last(), layout_end(prev, sizes), decl_length(ds.last(), sizes))));
        assert forall|i: int| 0 <= i < ds.len() implies (#[trigger] l[i]).1 + l[i].2 <= layout_total(ds, sizes) by {
            if i < prev.len() {
                assert(l[i] == lp[i]);
            }
        }
        assert forall|i: int, j: int| 0 <= i < j < ds.len() implies (#[trigger] l[i]).1 + l[i].2 <= (
        #[trigger] l[j]).1 by {
            assert(l[i] == lp[i]);
            if j < prev.len() {
                assert(l[j] == lp[j]);
            }
        }
    }
}

} // verus!
