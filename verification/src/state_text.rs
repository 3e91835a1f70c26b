use vstd::prelude::*;

use vstd::string::*;

use crate::inspect::arrays_of;
use crate::program::{ptrs_view, tuples_view, ChannelMeta, Program, State, StateV, TargetMeta, TupleSpaceMeta};
use crate::ast::TargetDecl;
use crate::text::{int_text, nat_text, push_int, push_nat, push_str};

verus! {

// ---------------------------------------------------------------------------
// Joining texts.

/// The parts with `sep` between each two.
pub open spec fn join(parts: Seq<Seq<char>>, sep: Seq<char>) -> Seq<char>
    decreases parts.len(),
{
    if parts.len() == 0 {
        seq![]
    } else if parts.len() == 1 {
        parts[0]
    } else {
        join(parts.drop_last(), sep) + sep + parts.last()
    }
}

pub open spec fn ints_text(v: Seq<i32>) -> Seq<Seq<char>> {
    v.map_values(|x: i32| int_text(x as int))
}

/// `s` followed by the integers `v[lo..hi]` in decimal, `sep` between each
/// two.
fn push_ints(s: String, v: &[i32], lo: usize, hi: usize, sep: &str) -> (r: String)
    requires
        lo <= hi <= v@.len(),
    ensures
        r@ == s@ + join(ints_text(v@.subrange(lo as int, hi as int)), sep@),
{
    let ghost start = s@;
    let ghost w = v@.subrange(lo as int, hi as int);
    let mut s = s;
    let mut i: usize = lo;
    assert(ints_text(w.take(0)) =~= Seq::<Seq<char>>::empty());
    while i < hi
        invariant
            lo <= i <= hi,
            hi <= v@.len(),
            w == v@.subrange(lo as int, hi as int),
            s@ == start + join(ints_text(w.take(i - lo)), sep@),
        decreases hi - i,
    {
        let ghost parts = ints_text(w.take(i - lo + 1));
        assert(parts.drop_last() =~= ints_text(w.take(i - lo)));
        assert(parts.last() == int_text(v@[i as int] as int));
        if i > lo {
            s = push_str(s, sep);
        }
        s = push_int(s, v[i]);
        proof {
            if i == lo {
                assert(parts.len() == 1);
                assert(join(ints_text(w.take(0)), sep@) =~= Seq::<char>::empty());
            }
        }
        assert(s@ =~= start + join(parts, sep@));
        i += 1;
    }
    assert(w.take(hi - lo) =~= w);
    s
}

/// The texts of the strings.
pub open spec fn strs_view(v: Seq<String>) -> Seq<Seq<char>> {
    v.map_values(|x: String| x@)
}

/// The strings with `sep` between each two.
fn join_strings(parts: &Vec<String>, sep: &str) -> (r: String)
    ensures
        r@ == join(strs_view(parts@), sep@),
{
    let ghost pv = strs_view(parts@);
    let mut s = String::new();
    let mut i: usize = 0;
    assert(pv.take(0) =~= Seq::<Seq<char>>::empty());
    while i < parts.len()
        invariant
            i <= parts@.len(),
            pv == strs_view(parts@),
            s@ == join(pv.take(i as int), sep@),
        decreases parts@.len() - i,
    {
        let ghost ps = pv.take(i + 1);
        assert(ps.drop_last() =~= pv.take(i as int));
        assert(ps.last() == parts@[i as int]@);
        if i > 0 {
            s = push_str(s, sep);
        }
        s = push_str(s, parts[i].as_str());
        proof {
            if i == 0 {
                assert(ps.len() == 1);
            }
        }
        assert(s@ =~= join(ps, sep@));
        i += 1;
    }
    assert(pv.take(pv.len() as int) =~= pv);
    s
}

// ---------------------------------------------------------------------------
// The identifier of a state.

/// The data cells in decimal separated by spaces, `@`, then the instruction
/// pointers separated by `X`.
pub open spec fn raw_id_text(s: StateV) -> Seq<char> {
    join(ints_text(s.mem.data), seq![' ']) + seq!['@'] + join(
        s.ptrs.map_values(|x: u32| nat_text(x as nat)),
        seq!['X'],
    )
}

impl State {
    /// A text that identifies the state: its data and its instruction
    /// pointers.
    pub fn raw_id(&self) -> (r: String)
        ensures
            r@ == raw_id_text(self@),
    {
        proof {
            reveal_strlit(" ");
            reveal_strlit("@");
            reveal_strlit("X");
        }
        let s0 = String::new();
        let sl = self.memory.data.as_slice();
        assert(sl@ == self@.mem.data);
        let s = push_ints(s0, sl, 0, self.memory.data.len(), " ");
        assert(self@.mem.data.subrange(0, self@.mem.data.len() as int) =~= self@.mem.data);
        assert(" "@ == seq![' ']);
        assert(s@ =~= join(ints_text(self@.mem.data), seq![' ']));
        let s = push_str(s, "@");
        let ghost start = s@;
        assert(start =~= join(ints_text(self@.mem.data), seq![' ']) + seq!['@']);
        let ghost ps = self@.ptrs;
        let mut s = s;
        let mut i: usize = 0;
        assert(ps.take(0).map_values(|x: u32| nat_text(x as nat)) =~= Seq::<Seq<char>>::empty());
        while i < self.ptrs.len()
            invariant
                i <= self.ptrs@.len(),
                ps == ptrs_view(self.ptrs),
                "X"@ == seq!['X'],
                s@ == start + join(ps.take(i as int).map_values(|x: u32| nat_text(x as nat)), seq!['X']),
            decreases self.ptrs@.len() - i,
        {
            let ghost parts = ps.take(i + 1).map_values(|x: u32| nat_text(x as nat));
            assert(parts.drop_last() =~= ps.take(i as int).map_values(|x: u32| nat_text(x as nat)));
            assert(parts.last() == nat_text(self.ptrs@[i as int].0 as nat));
            if i > 0 {
                s = push_str(s, "X");
            }
            s = push_nat(s, self.ptrs[i].0 as u64);
            proof {
                if i == 0 {
                    assert(parts.len() == 1);
                    assert(join(ps.take(0).map_values(|x: u32| nat_text(x as nat)), seq!['X']) =~= Seq::<char>::empty());
                }
            }
            assert(s@ =~= start + join(parts, seq!['X']));
            i += 1;
        }
        assert(ps.take(ps.len() as int) =~= ps);
        assert(s@ =~= raw_id_text(self@));
        s
    }

    /// The state shown with the names of the program.
    pub fn format<'a>(&'a self, p: &'a Program) -> (r: StateFormat<'a>)
        ensures
            r.state_of() == self,
            r.program_of() == p,
    {
        StateFormat { state: self, program: p }
    }
}

// ---------------------------------------------------------------------------
// A state shown with the names of its program.

/// A state together with its program, to be shown as text.
pub struct StateFormat<'a> {
    state: &'a State,
    program: &'a Program,
}

impl<'a> StateFormat<'a> {
    pub closed spec fn state_of(&self) -> &'a State {
        self.state
    }

    pub closed spec fn program_of(&self) -> &'a Program {
        self.program
    }
}

/// `name = value` for each variable, its value the data cell at the
/// variable's position in the layout.
pub open spec fn variable_parts(ts: Seq<TargetMeta>, data: Seq<i32>) -> Seq<Seq<char>>
    decreases ts.len(),
{
    if ts.len() == 0 {
        seq![]
    } else {
        match ts.last().target {
            TargetDecl::Variable(v) => variable_parts(ts.drop_last(), data).push(
                v.0@ + seq![' ', '=', ' '] + int_text(data[ts.len() - 1] as int),
            ),
            TargetDecl::Array(_) => variable_parts(ts.drop_last(), data),
        }
    }
}

/// `name = [values]` for each array, its values the cells from its base.
pub open spec fn array_parts(arrs: Seq<(crate::ast::Array, u32, u32)>, data: Seq<i32>) -> Seq<Seq<char>> {
    arrs.map_values(
        |a: (crate::ast::Array, u32, u32)|
            a.0.0@ + seq![' ', '=', ' ', '['] + join(
                ints_text(data.subrange(a.1 as int, a.1 + a.2)),
                seq![',', ' '],
            ) + seq![']'],
    )
}

/// `(values)` with the values separated by commas.
pub open spec fn tuple_text(t: Seq<i32>) -> Seq<char> {
    seq!['('] + join(ints_text(t), seq![',']) + seq![')']
}

/// `name = {tuples}` for each tuple space that has contents.
pub open spec fn space_parts(ms: Seq<TupleSpaceMeta>, ts: Seq<Seq<Seq<i32>>>) -> Seq<Seq<char>> {
    Seq::new(
        if ms.len() <= ts.len() { ms.len() } else { ts.len() },
        |i: int|
            ms[i].name.0@ + seq![' ', '=', ' ', '{'] + join(ts[i].map_values(|t: Seq<i32>| tuple_text(t)), seq![',', ' '])
                + seq!['}'],
    )
}

/// `name = (values)` for each channel that has contents.
pub open spec fn channel_parts(ms: Seq<ChannelMeta>, ch: Seq<Seq<i32>>) -> Seq<Seq<char>> {
    Seq::new(
        if ms.len() <= ch.len() { ms.len() } else { ch.len() },
        |i: int| ms[i].name.0@ + seq![' ', '=', ' ', '('] + join(ints_text(ch[i]), seq![',', ' ']) + seq![')'],
    )
}

pub open(crate) spec fn state_parts(p: Program, s: StateV) -> Seq<Seq<char>> {
    variable_parts(p.targets@, s.mem.data) + array_parts(arrays_of(p.targets@), s.mem.data) + space_parts(
        p.tuple_spaces@,
        s.mem.ts,
    ) + channel_parts(p.channels@, s.mem.ch)
}

/// The text of a state: its parts separated by commas.
pub open(crate) spec fn state_text(p: Program, s: StateV) -> Seq<char> {
    join(state_parts(p, s), seq![',', ' '])
}

/// The cells that showing a state reads exist: the cell of each variable at
/// its position in the layout, and the cells of each array.
pub open(crate) spec fn showable(p: Program, s: StateV) -> bool {
    forall|i: int|
        0 <= i < p.targets@.len() ==> match (#[trigger] p.targets@[i]).target {
            TargetDecl::Variable(_) => i < s.mem.data.len(),
            TargetDecl::Array(_) => p.targets@[i].base_index + p.targets@[i].length <= s.mem.data.len()
                && p.targets@[i].base_index + p.targets@[i].length <= u32::MAX,
        }
}

/// `s` followed by each tuple in parentheses, separated by `, `.
fn push_tuples(s: String, tuples: &Vec<Vec<i32>>) -> (r: String)
    ensures
        r@ == s@ + join(tuples_view(*tuples).map_values(|x: Seq<i32>| tuple_text(x)), seq![',', ' ']),
{
    proof {
        reveal_strlit(", ");
        reveal_strlit("(");
        reveal_strlit(")");
        reveal_strlit(",");
    }
    let ghost start = s@;
    let ghost tv = tuples_view(*tuples);
    let ghost texts = tv.map_values(|x: Seq<i32>| tuple_text(x));
    let mut t = s;
    let mut m: usize = 0;
    assert(texts.take(0) =~= Seq::<Seq<char>>::empty());
    while m < tuples.len()
        invariant
            m <= tuples@.len(),
            tv == tuples_view(*tuples),
            texts == tv.map_values(|x: Seq<i32>| tuple_text(x)),
            ", "@ == seq![',', ' '],
            "("@ == seq!['('],
            ")"@ == seq![')'],
            ","@ == seq![','],
            t@ == start + join(texts.take(m as int), seq![',', ' ']),
        decreases tuples@.len() - m,
    {
        let ghost ps = texts.take(m + 1);
        assert(ps.drop_last() =~= texts.take(m as int));
        if m > 0 {
            t = push_str(t, ", ");
        }
        t = push_str(t, "(");
        let tup = &tuples[m];
        t = push_ints(t, tup.as_slice(), 0, tup.len(), ",");
        t = push_str(t, ")");
        proof {
            assert(tup@.subrange(0, tup@.len() as int) =~= tup@);
            assert(ps.last() == tuple_text(tup@));
            if m == 0 {
                assert(ps.len() == 1);
                assert(join(texts.take(0), seq![',', ' ']) =~= Seq::<char>::empty());
            }
        }
        assert(t@ =~= start + join(ps, seq![',', ' ']));
        m += 1;
    }
    assert(texts.take(texts.len() as int) =~= texts);
    t
}

impl<'a> StateFormat<'a> {
    /// The state as text.
    pub fn to_string(&self) -> (r: String)
        requires
            showable(*self.program_of(), self.state_of()@),
        ensures
            r@ == state_text(*self.program_of(), self.state_of()@),
    {
        proof {
            reveal_strlit(", ");
            reveal_strlit(" = ");
            reveal_strlit(" = [");
            reveal_strlit("]");
            reveal_strlit(" = {");
            reveal_strlit("}");
            reveal_strlit(" = (");
            reveal_strlit(")");
            reveal_strlit("(");
            reveal_strlit(",");
        }
        let p = self.program;
        let st = self.state;
        let ghost data = st@.mem.data;
        let mut parts: Vec<String> = Vec::new();
        // The variables.
        let mut i: usize = 0;
        assert(variable_parts(p.targets@.take(0), data) =~= Seq::<Seq<char>>::empty());
        while i < p.targets.len()
            invariant
                i <= p.targets@.len(),
                data == st@.mem.data,
                showable(*p, st@),
                " = "@ == seq![' ', '=', ' '],
                strs_view(parts@) == variable_parts(p.targets@.take(i as int), data),
            decreases p.targets@.len() - i,
        {
            let ghost ts = p.targets@.take(i + 1);
            assert(ts.drop_last() =~= p.targets@.take(i as int));
            assert(ts.last() == p.targets@[i as int]);
            let ghost before = strs_view(parts@);
            match &p.targets[i].target {
                TargetDecl::Variable(v) => {
                    assert(i < data.len()) by {
                        assert(p.targets@[i as int].target is Variable);
                    }
                    let piece = push_int(push_str(String::from_str(v.0.as_str()), " = "), st.memory.data[i]);
                    parts.push(piece);
                    assert(strs_view(parts@) =~= before.push(
                        v.0@ + seq![' ', '=', ' '] + int_text(data[i as int] as int),
                    ));
                },
                TargetDecl::Array(_) => {},
            }
            i += 1;
        }
        assert(p.targets@.take(p.targets@.len() as int) =~= p.targets@);
        // The arrays.
        let ghost vars = strs_view(parts@);
        let arrs = p.arrays();
        let mut j: usize = 0;
        assert(array_parts(arrs@.take(0), data) =~= Seq::<Seq<char>>::empty());
        assert(vars + array_parts(arrs@.take(0), data) =~= vars);
        while j < arrs.len()
            invariant
                j <= arrs@.len(),
                arrs@ == arrays_of(p.targets@),
                data == st@.mem.data,
                showable(*p, st@),
                " = ["@ == seq![' ', '=', ' ', '['],
                "]"@ == seq![']'],
                ", "@ == seq![',', ' '],
                strs_view(parts@) == vars + array_parts(arrs@.take(j as int), data),
            decreases arrs@.len() - j,
        {
            let (name, base, len) = &arrs[j];
            proof {
                lemma_arrays_in_data(*p, st@, j as int);
            }
            let ghost before = strs_view(parts@);
            let t = push_str(String::from_str(name.0.as_str()), " = [");
            let t = push_ints(t, st.memory.data.as_slice(), *base as usize, (*base + *len) as usize, ", ");
            let t = push_str(t, "]");
            let ghost a = arrs@[j as int];
            assert(a == (*name, *base, *len));
            let ghost piece = a.0.0@ + seq![' ', '=', ' ', '['] + join(
                ints_text(data.subrange(a.1 as int, a.1 + a.2)),
                seq![',', ' '],
            ) + seq![']'];
            assert(t@ =~= piece);
            parts.push(t);
            assert(strs_view(parts@) =~= before.push(piece));
            assert(arrs@.take(j + 1) =~= arrs@.take(j as int).push(arrs@[j as int]));
            assert(array_parts(arrs@.take(j + 1), data) =~= array_parts(arrs@.take(j as int), data).push(piece));
            assert(strs_view(parts@) =~= vars + array_parts(arrs@.take(j + 1), data));
            j += 1;
        }
        assert(arrs@.take(arrs@.len() as int) =~= arrs@);
        // The tuple spaces.
        let ghost upto_arrays = strs_view(parts@);
        let n_spaces = if p.tuple_spaces.len() <= st.memory.tuple_spaces.len() {
            p.tuple_spaces.len()
        } else {
            st.memory.tuple_spaces.len()
        };
        let ghost sps = space_parts(p.tuple_spaces@, st@.mem.ts);
        let mut k: usize = 0;
        assert(upto_arrays + sps.take(0) =~= upto_arrays);
        while k < n_spaces
            invariant
                k <= n_spaces,
                n_spaces == sps.len(),
                n_spaces <= p.tuple_spaces@.len(),
                n_spaces <= st.memory.tuple_spaces@.len(),
                sps == space_parts(p.tuple_spaces@, st@.mem.ts),
                " = {"@ == seq![' ', '=', ' ', '{'],
                "}"@ == seq!['}'],
                ", "@ == seq![',', ' '],
                "("@ == seq!['('],
                ")"@ == seq![')'],
                ","@ == seq![','],
                strs_view(parts@) == upto_arrays + sps.take(k as int),
            decreases n_spaces - k,
        {
            let ghost before = strs_view(parts@);
            let tuples = &st.memory.tuple_spaces[k];
            let ghost tv = st@.mem.ts[k as int];
            assert(tv == tuples_view(*tuples));
            let t = push_str(String::from_str(p.tuple_spaces[k].name.0.as_str()), " = {");
            let t = push_tuples(t, tuples);
            let t = push_str(t, "}");
            assert(t@ =~= sps[k as int]);
            parts.push(t);
            assert(strs_view(parts@) =~= before.push(sps[k as int]));
            assert(sps.take(k + 1) =~= sps.take(k as int).push(sps[k as int]));
            assert(strs_view(parts@) =~= upto_arrays + sps.take(k + 1));
            k += 1;
        }
        assert(sps.take(sps.len() as int) =~= sps);
        // The channels.
        let ghost upto_spaces = strs_view(parts@);
        let n_chans = if p.channels.len() <= st.memory.channels.len() {
            p.channels.len()
        } else {
            st.memory.channels.len()
        };
        let ghost cps = channel_parts(p.channels@, st@.mem.ch);
        let mut c: usize = 0;
        assert(upto_spaces + cps.take(0) =~= upto_spaces);
        while c < n_chans
            invariant
                c <= n_chans,
                n_chans == cps.len(),
                n_chans <= p.channels@.len(),
                n_chans <= st.memory.channels@.len(),
                cps == channel_parts(p.channels@, st@.mem.ch),
                " = ("@ == seq![' ', '=', ' ', '('],
                ")"@ == seq![')'],
                ", "@ == seq![',', ' '],
                strs_view(parts@) == upto_spaces + cps.take(c as int),
            decreases n_chans - c,
        {
            let ghost before = strs_view(parts@);
            let vals = &st.memory.channels[c];
            let t = push_str(String::from_str(p.channels[c].name.0.as_str()), " = (");
            let t = push_ints(t, vals.as_slice(), 0, vals.len(), ", ");
            let t = push_str(t, ")");
            proof {
                assert(vals@.subrange(0, vals@.len() as int) =~= vals@);
                assert(st@.mem.ch[c as int] == vals@);
            }
            assert(t@ =~= cps[c as int]);
            parts.push(t);
            assert(strs_view(parts@) =~= before.push(cps[c as int]));
            assert(cps.take(c + 1) =~= cps.take(c as int).push(cps[c as int]));
            assert(strs_view(parts@) =~= upto_spaces + cps.take(c + 1));
            c += 1;
        }
        assert(cps.take(cps.len() as int) =~= cps);
        assert(strs_view(parts@) =~= state_parts(*p, st@));
        join_strings(&parts, ", ")
    }
}

/// The cells of each array of the layout lie within the data.
proof fn lemma_arrays_in_data(p: Program, s: StateV, j: int)
    requires
        showable(p, s),
        0 <= j < arrays_of(p.targets@).len(),
    ensures
        arrays_of(p.targets@)[j].1 + arrays_of(p.targets@)[j].2 <= s.mem.data.len(),
        arrays_of(p.targets@)[j].1 + arrays_of(p.targets@)[j].2 <= u32::MAX,
{
    lemma_arrays_of_from(p.targets@, s, j);
}

proof fn lemma_arrays_of_from(ts: Seq<TargetMeta>, s: StateV, j: int)
    requires
        forall|i: int|
            0 <= i < ts.len() ==> match (#[trigger] ts[i]).target {
                TargetDecl::Variable(_) => true,
                TargetDecl::Array(_) => ts[i].base_index + ts[i].length <= s.mem.data.len() && ts[i].base_index
                    + ts[i].length <= u32::MAX,
            },
        0 <= j < arrays_of(ts).len(),
    ensures
        arrays_of(ts)[j].1 + arrays_of(ts)[j].2 <= s.mem.data.len(),
        arrays_of(ts)[j].1 + arrays_of(ts)[j].2 <= u32::MAX,
    decreases ts.len(),
{
    if ts.len() > 0 {
        let last = ts.last();
        assert(ts[ts.len() - 1] == last);
        match last.target {
            TargetDecl::Variable(_) => lemma_arrays_of_from(ts.drop_last(), s, j),
            TargetDecl::Array(_) => {
                if j < arrays_of(ts.drop_last()).len() {
                    lemma_arrays_of_from(ts.drop_last(), s, j);
                }
            },
        }
    }
}

// ---------------------------------------------------------------------------
// The identifier of a state determines its data and its pointers.

pub open spec fn is_digit(c: char) -> bool {
    '0' <= c <= '9'
}

proof fn lemma_nat_text_digits(n: nat)
    ensures
        nat_text(n).len() >= 1,
        n >= 10 ==> nat_text(n).len() >= 2,
        forall|i: int| 0 <= i < nat_text(n).len() ==> is_digit(#[trigger] nat_text(n)[i]),
    decreases n,
{
    if n >= 10 {
        lemma_nat_text_digits(n / 10);
    }
}

proof fn lemma_digit_injective(d: nat, e: nat)
    requires
        d < 10,
        e < 10,
        crate::text::digit_char(d) == crate::text::digit_char(e),
    ensures
        d == e,
{
}

proof fn lemma_nat_text_injective(a: nat, b: nat)
    requires
        nat_text(a) == nat_text(b),
    ensures
        a == b,
    decreases a,
{
    lemma_nat_text_digits(a);
    lemma_nat_text_digits(b);
    if a >= 10 && b >= 10 {
        let ta = nat_text(a);
        assert(ta.drop_last() == nat_text(a / 10));
        assert(nat_text(b).drop_last() == nat_text(b / 10));
        assert(ta.last() == crate::text::digit_char(a % 10));
        assert(nat_text(b).last() == crate::text::digit_char(b % 10));
        lemma_digit_injective(a % 10, b % 10);
        lemma_nat_text_injective(a / 10, b / 10);
    } else if a < 10 && b < 10 {
        assert(nat_text(a)[0] == crate::text::digit_char(a));
        assert(nat_text(b)[0] == crate::text::digit_char(b));
        lemma_digit_injective(a, b);
    }
}

proof fn lemma_int_text_injective(a: int, b: int)
    requires
        int_text(a) == int_text(b),
    ensures
        a == b,
{
    if a < 0 && b < 0 {
        assert(int_text(a).drop_first() =~= nat_text((-a) as nat));
        assert(int_text(b).drop_first() =~= nat_text((-b) as nat));
        lemma_nat_text_injective((-a) as nat, (-b) as nat);
    } else if a < 0 {
        lemma_nat_text_digits(b as nat);
        assert(int_text(b)[0] == nat_text(b as nat)[0]);
    } else if b < 0 {
        lemma_nat_text_digits(a as nat);
        assert(int_text(a)[0] == nat_text(a as nat)[0]);
    } else {
        lemma_nat_text_injective(a as nat, b as nat);
    }
}

/// No part holds `c`, and every part is nonempty.
pub open spec fn parts_clear(ps: Seq<Seq<char>>, c: char) -> bool {
    forall|k: int| 0 <= k < ps.len() ==> (#[trigger] ps[k]).len() > 0 && !ps[k].contains(c)
}

proof fn lemma_join_without(ps: Seq<Seq<char>>, sep: char, c: char)
    requires
        sep != c,
        parts_clear(ps, c),
    ensures
        !join(ps, seq![sep]).contains(c),
    decreases ps.len(),
{
    if ps.len() >= 2 {
        lemma_join_without(ps.drop_last(), sep, c);
        assert(parts_clear(ps.drop_last(), c)) by {
            assert forall|k: int| 0 <= k < ps.drop_last().len() implies (#[trigger] ps.drop_last()[k]).len() > 0
                && !ps.drop_last()[k].contains(c) by {
                assert(ps.drop_last()[k] == ps[k]);
            }
        }
        let j = join(ps, seq![sep]);
        let a = join(ps.drop_last(), seq![sep]);
        assert(!ps.last().contains(c)) by {
            assert(ps[ps.len() - 1] == ps.last());
        }
        if j.contains(c) {
            let i = choose|i: int| 0 <= i < j.len() && j[i] == c;
            if i < a.len() {
                assert(j[i] == a[i]);
            } else if i > a.len() {
                assert(j[i] == ps.last()[i - a.len() - 1]);
            }
        }
    } else if ps.len() == 1 {
        assert(ps[0].len() > 0);
    }
}

proof fn lemma_join_nonempty(ps: Seq<Seq<char>>, sep: char, c: char)
    requires
        parts_clear(ps, c),
        ps.len() > 0,
    ensures
        join(ps, seq![sep]).len() > 0,
{
    if ps.len() >= 2 {
        assert(ps[ps.len() - 1].len() > 0);
    } else {
        assert(ps[0].len() > 0);
    }
}

/// Joining with a separator that no part holds loses nothing.
proof fn lemma_join_injective(ps: Seq<Seq<char>>, qs: Seq<Seq<char>>, c: char)
    requires
        parts_clear(ps, c),
        parts_clear(qs, c),
        join(ps, seq![c]) == join(qs, seq![c]),
    ensures
        ps == qs,
    decreases ps.len() + qs.len(),
{
    let j = join(ps, seq![c]);
    if ps.len() == 0 || qs.len() == 0 {
        if ps.len() > 0 {
            lemma_join_nonempty(ps, c, c);
        }
        if qs.len() > 0 {
            lemma_join_nonempty(qs, c, c);
        }
        assert(ps =~= qs);
    } else if ps.len() == 1 && qs.len() == 1 {
        assert(ps =~= seq![ps[0]]);
        assert(qs =~= seq![qs[0]]);
    } else if ps.len() == 1 || qs.len() == 1 {
        // One side holds a separator, the other none.
        let (one, many) = if ps.len() == 1 { (ps, qs) } else { (qs, ps) };
        assert(!one[0].contains(c));
        let a = join(many.drop_last(), seq![c]);
        assert(j[a.len() as int] == c);
        assert(j == one[0]);
        assert(one[0].contains(c));
    } else {
        let a = join(ps.drop_last(), seq![c]);
        let b = join(qs.drop_last(), seq![c]);
        let l = ps.last();
        let m = qs.last();
        assert(!l.contains(c)) by {
            assert(ps[ps.len() - 1] == l);
        }
        assert(!m.contains(c)) by {
            assert(qs[qs.len() - 1] == m);
        }
        assert(j == a + seq![c] + l);
        assert(j == b + seq![c] + m);
        if l.len() < m.len() {
            assert(j[j.len() - l.len() - 1] == c);
            assert(m[m.len() - l.len() - 1] == j[j.len() - l.len() - 1]);
        } else if m.len() < l.len() {
            assert(j[j.len() - m.len() - 1] == c);
            assert(l[l.len() - m.len() - 1] == j[j.len() - m.len() - 1]);
        }
        assert(l =~= m) by {
            assert forall|i: int| 0 <= i < l.len() implies l[i] == m[i] by {
                assert(l[i] == j[j.len() - l.len() + i]);
                assert(m[i] == j[j.len() - m.len() + i]);
            }
        }
        assert(a =~= b) by {
            assert forall|i: int| 0 <= i < a.len() implies a[i] == b[i] by {
                assert(a[i] == j[i]);
                assert(b[i] == j[i]);
            }
        }
        assert(parts_clear(ps.drop_last(), c)) by {
            assert forall|k: int| 0 <= k < ps.drop_last().len() implies (#[trigger] ps.drop_last()[k]).len() > 0
                && !ps.drop_last()[k].contains(c) by {
                assert(ps.drop_last()[k] == ps[k]);
            }
        }
        assert(parts_clear(qs.drop_last(), c)) by {
            assert forall|k: int| 0 <= k < qs.drop_last().len() implies (#[trigger] qs.drop_last()[k]).len() > 0
                && !qs.drop_last()[k].contains(c) by {
                assert(qs.drop_last()[k] == qs[k]);
            }
        }
        lemma_join_injective(ps.drop_last(), qs.drop_last(), c);
        assert(ps =~= ps.drop_last().push(l));
        assert(qs =~= qs.drop_last().push(m));
    }
}

proof fn lemma_ints_clear(v: Seq<i32>, c: char)
    requires
        !is_digit(c),
        c != '-',
    ensures
        parts_clear(ints_text(v), c),
{
    assert forall|k: int| 0 <= k < ints_text(v).len() implies (#[trigger] ints_text(v)[k]).len() > 0 && !ints_text(
        v,
    )[k].contains(c) by {
        let n = v[k] as int;
        if n < 0 {
            lemma_nat_text_digits((-n) as nat);
        } else {
            lemma_nat_text_digits(n as nat);
        }
        if ints_text(v)[k].contains(c) {
            let i = choose|i: int| 0 <= i < ints_text(v)[k].len() && ints_text(v)[k][i] == c;
            if n < 0 && i > 0 {
                assert(int_text(n)[i] == nat_text((-n) as nat)[i - 1]);
            }
        }
    }
}

proof fn lemma_nats_clear(v: Seq<u32>, c: char)
    requires
        !is_digit(c),
    ensures
        parts_clear(v.map_values(|x: u32| nat_text(x as nat)), c),
{
    let ps = v.map_values(|x: u32| nat_text(x as nat));
    assert forall|k: int| 0 <= k < ps.len() implies (#[trigger] ps[k]).len() > 0 && !ps[k].contains(c) by {
        lemma_nat_text_digits(v[k] as nat);
    }
}

/// Two states with the same identifier hold the same data and have their
/// processes at the same instructions.
pub proof fn law_raw_id_identifies(s: StateV, t: StateV)
    requires
        raw_id_text(s) == raw_id_text(t),
    ensures
        s.mem.data == t.mem.data,
        s.ptrs == t.ptrs,
{
    let ds = ints_text(s.mem.data);
    let dt = ints_text(t.mem.data);
    let ps = s.ptrs.map_values(|x: u32| nat_text(x as nat));
    let pt = t.ptrs.map_values(|x: u32| nat_text(x as nat));
    let a = join(ds, seq![' ']);
    let b = join(dt, seq![' ']);
    let x = join(ps, seq!['X']);
    let y = join(pt, seq!['X']);
    lemma_ints_clear(s.mem.data, '@');
    lemma_ints_clear(t.mem.data, '@');
    lemma_join_without(ds, ' ', '@');
    lemma_join_without(dt, ' ', '@');
    let r = raw_id_text(s);
    assert(r == a + seq!['@'] + x);
    assert(r == b + seq!['@'] + y);
    if a.len() < b.len() {
        assert(b[a.len() as int] == r[a.len() as int]);
    } else if b.len() < a.len() {
        assert(a[b.len() as int] == r[b.len() as int]);
    }
    assert(a =~= b) by {
        assert forall|i: int| 0 <= i < a.len() implies a[i] == b[i] by {
            assert(a[i] == r[i]);
            assert(b[i] == r[i]);
        }
    }
    assert(a.len() == b.len());
    assert(r.len() == a.len() + 1 + x.len());
    assert(r.len() == b.len() + 1 + y.len());
    assert(x.len() == y.len());
    assert(x =~= y) by {
        assert forall|i: int| 0 <= i < x.len() implies x[i] == y[i] by {
            assert(x[i] == r[a.len() + 1 + i]);
            assert(y[i] == r[b.len() + 1 + i]);
        }
    }
    lemma_ints_clear(s.mem.data, ' ');
    lemma_ints_clear(t.mem.data, ' ');
    lemma_join_injective(ds, dt, ' ');
    assert(s.mem.data =~= t.mem.data) by {
        assert forall|i: int| 0 <= i < s.mem.data.len() implies s.mem.data[i] == t.mem.data[i] by {
            assert(ds[i] == dt[i]);
            lemma_int_text_injective(s.mem.data[i] as int, t.mem.data[i] as int);
        }
    }
    lemma_nats_clear(s.ptrs, 'X');
    lemma_nats_clear(t.ptrs, 'X');
    lemma_join_injective(ps, pt, 'X');
    assert(s.ptrs =~= t.ptrs) by {
        assert forall|i: int| 0 <= i < s.ptrs.len() implies s.ptrs[i] == t.ptrs[i] by {
            assert(ps[i] == pt[i]);
            lemma_nat_text_injective(s.ptrs[i] as nat, t.ptrs[i] as nat);
        }
    }
}

/// The identifier of a state determines exactly its data and the
/// instructions its processes are at: two states have the same identifier
/// if and only if those agree, whatever their tuple spaces and channels.
pub proof fn law_raw_id_exact(s: StateV, t: StateV)
    ensures
        raw_id_text(s) == raw_id_text(t) <==> (s.mem.data == t.mem.data && s.ptrs == t.ptrs),
{
    if raw_id_text(s) == raw_id_text(t) {
        law_raw_id_identifies(s, t);
    }
}

} // verus!
