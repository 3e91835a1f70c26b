use vstd::prelude::*;

use crate::ast::{
    BufferSize, Channel, Command, CommandKind, Commands, CommunicationGuard, Guard, TupleSpace,
    TupleSpaceType, CG,
};
use crate::collections::{
    array_value_entries, array_value_list, channel_entries, channel_entry_view, channel_list,
    tuple_space_entries, tuple_space_entry_view, tuple_space_list, variable_value_entries,
    variable_value_list,
};
use crate::show::{
    aexpr_text, bexpr_text, cf_text, field_text, locator_text, ltl_text, operation_p_text,
    operation_text, string_of, target_text, write_aexpr, write_bexpr, write_cf, write_chars,
    write_field, write_int, write_locator, write_ltl, write_operation, write_operation_p,
    write_str, write_target, write_u32,
};
use crate::state_text::{ints_text, join, tuple_text};
use crate::text::{int_text, nat_text};
use crate::validate::LTLProgram;

verus! {

broadcast use vstd::string::axiom_spec_iter;

// ---------------------------------------------------------------------------
// Lines, as `str::lines` splits them: at each `\n`, a `\r` right before it
// dropped; a last line ending is optional.

pub open spec fn strip_cr(l: Seq<char>) -> Seq<char> {
    if l.len() > 0 && l.last() == '\r' {
        l.drop_last()
    } else {
        l
    }
}

pub open spec fn lines_from(s: Seq<char>, cur: Seq<char>, acc: Seq<Seq<char>>) -> Seq<Seq<char>>
    decreases s.len(),
{
    if s.len() == 0 {
        if cur.len() == 0 {
            acc
        } else {
            acc.push(cur)
        }
    } else if s[0] == '\n' {
        lines_from(s.drop_first(), seq![], acc.push(strip_cr(cur)))
    } else {
        lines_from(s.drop_first(), cur.push(s[0]), acc)
    }
}

pub open spec fn lines(s: Seq<char>) -> Seq<Seq<char>> {
    lines_from(s, seq![], seq![])
}

/// Each line indented by three spaces, the lines separated by `\n`.
pub open spec fn indent(s: Seq<char>) -> Seq<char> {
    join(lines(s).map_values(|l: Seq<char>| seq![' ', ' ', ' '] + l), seq!['\n'])
}

pub open spec fn lines_view(v: Seq<Vec<char>>) -> Seq<Seq<char>> {
    v.map_values(|l: Vec<char>| l@)
}

fn split_lines(text: &Vec<char>) -> (r: Vec<Vec<char>>)
    ensures
        lines_view(r@) == lines(text@),
{
    let ghost s = text@;
    let mut acc: Vec<Vec<char>> = Vec::new();
    let mut cur: Vec<char> = Vec::new();
    let mut i: usize = 0;
    assert(s.skip(0) =~= s);
    assert(lines_view(acc@) =~= Seq::<Seq<char>>::empty());
    while i < text.len()
        invariant
            i <= s.len(),
            s == text@,
            lines(s) == lines_from(s.skip(i as int), cur@, lines_view(acc@)),
        decreases s.len() - i,
    {
        let ghost rest = s.skip(i as int);
        assert(rest[0] == s[i as int]);
        assert(rest.drop_first() =~= s.skip(i + 1));
        if text[i] == '\n' {
            let ghost cur_v = cur@;
            let n = cur.len();
            if n > 0 && cur[n - 1] == '\r' {
                cur.pop();
                assert(cur@ =~= strip_cr(cur_v));
            }
            let ghost acc_v = lines_view(acc@);
            let line = cur;
            acc.push(line);
            assert(lines_view(acc@) =~= acc_v.push(strip_cr(cur_v)));
            cur = Vec::new();
            assert(cur@ =~= Seq::<char>::empty());
        } else {
            cur.push(text[i]);
        }
        i += 1;
    }
    assert(s.skip(i as int) =~= Seq::<char>::empty());
    if cur.len() > 0 {
        let ghost acc_v = lines_view(acc@);
        let ghost cur_v = cur@;
        acc.push(cur);
        assert(lines_view(acc@) =~= acc_v.push(cur_v));
    }
    acc
}

fn write_indented(out: &mut Vec<char>, text: &Vec<char>)
    ensures
        final(out)@ == old(out)@ + indent(text@),
{
    let ls = split_lines(text);
    let ghost start = out@;
    let ghost parts = lines(text@).map_values(|l: Seq<char>| seq![' ', ' ', ' '] + l);
    let mut i: usize = 0;
    assert(parts.take(0) =~= Seq::<Seq<char>>::empty());
    while i < ls.len()
        invariant
            i <= ls@.len(),
            lines_view(ls@) == lines(text@),
            parts == lines(text@).map_values(|l: Seq<char>| seq![' ', ' ', ' '] + l),
            out@ == start + join(parts.take(i as int), seq!['\n']),
        decreases ls@.len() - i,
    {
        let ghost ps = parts.take(i + 1);
        assert(ps.drop_last() =~= parts.take(i as int));
        assert(ps.last() == seq![' ', ' ', ' '] + ls@[i as int]@);
        if i > 0 {
            out.push('\n');
        }
        write_chars(out, &[' ', ' ', ' ']);
        write_chars(out, ls[i].as_slice());
        proof {
            if i == 0 {
                assert(ps.len() == 1);
                assert(join(parts.take(0), seq!['\n']) =~= Seq::<char>::empty());
            }
        }
        assert(out@ =~= start + join(ps, seq!['\n']));
        i += 1;
    }
    assert(parts.take(parts.len() as int) =~= parts);
}

// ---------------------------------------------------------------------------
// Commands.

pub open spec fn cg_text(g: CG) -> Seq<char> {
    match g {
        CG::BoolExpression(b) => bexpr_text(b),
        CG::Send(ch, a) => ch.0@ + seq!['!'] + aexpr_text(a),
        CG::Receive(ch, t) => ch.0@ + seq!['?'] + target_text(t),
    }
}

pub open spec fn cmd_text(c: Command) -> Seq<char>
    decreases c,
{
    match c.kind {
        CommandKind::Assignment(t, e) => target_text(t) + seq![' ', ':', '=', ' '] + aexpr_text(e),
        CommandKind::Skip => seq!['s', 'k', 'i', 'p'],
        CommandKind::Placeholder => seq!['p', 'l', 'a', 'c', 'e', 'h', 'o', 'l', 'd', 'e', 'r'],
        CommandKind::If(gs) => seq!['i', 'f', ' '] + guards_text(gs@) + seq!['\n', 'f', 'i'],
        CommandKind::IfCG(gs) => seq!['i', 'f', ' '] + cguards_text(gs@) + seq!['\n', 'f', 'i'],
        CommandKind::Loop(gs) => seq!['d', 'o', ' '] + guards_text(gs@) + seq!['\n', 'o', 'd'],
        CommandKind::LoopCG(gs) => seq!['l', 'o', 'o', 'p', ' '] + cguards_text(gs@) + seq!['\n', 'p', 'o', 'o', 'l'],
        CommandKind::O(op) => operation_text(op),
        CommandKind::Send(ch, e) => ch.0@ + seq!['!'] + aexpr_text(e),
        CommandKind::Receive(ch, t) => ch.0@ + seq!['?'] + target_text(t),
        CommandKind::Broadcast(ch, n, e) => ch.0@ + seq!['!', '!'] + int_text(n as int) + seq![' '] + aexpr_text(e),
        CommandKind::Gather(ch, n, a, x) => ch.0@ + seq!['?', '?'] + int_text(n as int) + seq![' '] + a.0@ + seq![' ']
            + target_text(x),
    }
}

/// The commands separated by ` ;` and a line break.
pub open spec fn cmds_text(cs: Seq<Command>) -> Seq<char>
    decreases cs,
{
    if cs.len() == 0 {
        seq![]
    } else if cs.len() == 1 {
        cmd_text(cs[0])
    } else {
        cmds_text(cs.drop_last()) + seq![' ', ';', '\n'] + cmd_text(cs.last())
    }
}

/// The guarded commands separated by a line break and `[] `.
pub open spec fn guards_text(gs: Seq<Guard>) -> Seq<char>
    decreases gs,
{
    if gs.len() == 0 {
        seq![]
    } else {
        let g = gs.last();
        let one = bexpr_text(g.guard) + seq![' ', '-', '>', '\n'] + indent(cmds_text(g.cmds.0@));
        if gs.len() == 1 {
            one
        } else {
            guards_text(gs.drop_last()) + seq!['\n', '[', ']', ' '] + one
        }
    }
}

pub open spec fn cguards_text(gs: Seq<CommunicationGuard>) -> Seq<char>
    decreases gs,
{
    if gs.len() == 0 {
        seq![]
    } else {
        let g = gs.last();
        let one = cg_text(g.guard) + seq![' ', '-', '>', '\n'] + indent(cmds_text(g.cmds.0@));
        if gs.len() == 1 {
            one
        } else {
            cguards_text(gs.drop_last()) + seq!['\n', '[', ']', ' '] + one
        }
    }
}

fn write_cg(out: &mut Vec<char>, g: &CG)
    ensures
        final(out)@ == old(out)@ + cg_text(*g),
{
    let ghost start = out@;
    match g {
        CG::BoolExpression(b) => write_bexpr(out, b),
        CG::Send(ch, a) => {
            write_str(out, ch.0.as_str());
            out.push('!');
            write_aexpr(out, a);
        },
        CG::Receive(ch, t) => {
            write_str(out, ch.0.as_str());
            out.push('?');
            write_target(out, t);
        },
    }
    assert(out@ =~= start + cg_text(*g));
}

fn write_cmd(out: &mut Vec<char>, c: &Command)
    ensures
        final(out)@ == old(out)@ + cmd_text(*c),
    decreases c, 0int,
{
    let ghost start = out@;
    match &c.kind {
        CommandKind::Assignment(t, e) => {
            write_target(out, t);
            write_chars(out, &[' ', ':', '=', ' ']);
            write_aexpr(out, e);
        },
        CommandKind::Skip => write_chars(out, &['s', 'k', 'i', 'p']),
        CommandKind::Placeholder => write_chars(out, &['p', 'l', 'a', 'c', 'e', 'h', 'o', 'l', 'd', 'e', 'r']),
        CommandKind::If(gs) => {
            write_chars(out, &['i', 'f', ' ']);
            write_guards(out, gs);
            write_chars(out, &['\n', 'f', 'i']);
        },
        CommandKind::IfCG(gs) => {
            write_chars(out, &['i', 'f', ' ']);
            write_cguards(out, gs);
            write_chars(out, &['\n', 'f', 'i']);
        },
        CommandKind::Loop(gs) => {
            write_chars(out, &['d', 'o', ' ']);
            write_guards(out, gs);
            write_chars(out, &['\n', 'o', 'd']);
        },
        CommandKind::LoopCG(gs) => {
            write_chars(out, &['l', 'o', 'o', 'p', ' ']);
            write_cguards(out, gs);
            write_chars(out, &['\n', 'p', 'o', 'o', 'l']);
        },
        CommandKind::O(op) => write_operation(out, op),
        CommandKind::Send(ch, e) => {
            write_str(out, ch.0.as_str());
            out.push('!');
            write_aexpr(out, e);
        },
        CommandKind::Receive(ch, t) => {
            write_str(out, ch.0.as_str());
            out.push('?');
            write_target(out, t);
        },
        CommandKind::Broadcast(ch, n, e) => {
            write_str(out, ch.0.as_str());
            write_chars(out, &['!', '!']);
            write_int(out, *n);
            out.push(' ');
            write_aexpr(out, e);
        },
        CommandKind::Gather(ch, n, a, x) => {
            write_str(out, ch.0.as_str());
            write_chars(out, &['?', '?']);
            write_int(out, *n);
            out.push(' ');
            write_str(out, a.0.as_str());
            out.push(' ');
            write_target(out, x);
        },
    }
    assert(out@ =~= start + cmd_text(*c));
}

fn write_cmds(out: &mut Vec<char>, cs: &Vec<Command>)
    ensures
        final(out)@ == old(out)@ + cmds_text(cs@),
    decreases cs@, 1int,
{
    let ghost start = out@;
    let mut i: usize = 0;
    assert(cs@.take(0) =~= Seq::<Command>::empty());
    while i < cs.len()
        invariant
            i <= cs@.len(),
            out@ == start + cmds_text(cs@.take(i as int)),
        decreases cs@.len() - i,
    {
        let ghost pre = cs@.take(i + 1);
        assert(pre.drop_last() =~= cs@.take(i as int));
        assert(pre.last() == cs@[i as int]);
        if i > 0 {
            write_chars(out, &[' ', ';', '\n']);
        }
        write_cmd(out, &cs[i]);
        proof {
            if i == 0 {
                assert(pre.len() == 1);
                assert(pre[0] == cs@[0]);
                assert(cmds_text(cs@.take(0)) =~= Seq::<char>::empty());
            }
        }
        assert(out@ =~= start + cmds_text(pre));
        i += 1;
    }
    assert(cs@.take(cs@.len() as int) =~= cs@);
}

fn write_guards(out: &mut Vec<char>, gs: &Vec<Guard>)
    ensures
        final(out)@ == old(out)@ + guards_text(gs@),
    decreases gs@, 1int,
{
    let ghost start = out@;
    let mut i: usize = 0;
    assert(gs@.take(0) =~= Seq::<Guard>::empty());
    while i < gs.len()
        invariant
            i <= gs@.len(),
            out@ == start + guards_text(gs@.take(i as int)),
        decreases gs@.len() - i,
    {
        let ghost pre = gs@.take(i + 1);
        assert(pre.drop_last() =~= gs@.take(i as int));
        assert(pre.last() == gs@[i as int]);
        if i > 0 {
            write_chars(out, &['\n', '[', ']', ' ']);
        }
        let g = &gs[i];
        write_bexpr(out, &g.guard);
        write_chars(out, &[' ', '-', '>', '\n']);
        let mut inner: Vec<char> = Vec::new();
        write_cmds(&mut inner, &g.cmds.0);
        assert(inner@ =~= cmds_text(g.cmds.0@));
        write_indented(out, &inner);
        proof {
            if i == 0 {
                assert(guards_text(gs@.take(0)) =~= Seq::<char>::empty());
            }
        }
        assert(out@ =~= start + guards_text(pre));
        i += 1;
    }
    assert(gs@.take(gs@.len() as int) =~= gs@);
}

fn write_cguards(out: &mut Vec<char>, gs: &Vec<CommunicationGuard>)
    ensures
        final(out)@ == old(out)@ + cguards_text(gs@),
    decreases gs@, 1int,
{
    let ghost start = out@;
    let mut i: usize = 0;
    assert(gs@.take(0) =~= Seq::<CommunicationGuard>::empty());
    while i < gs.len()
        invariant
            i <= gs@.len(),
            out@ == start + cguards_text(gs@.take(i as int)),
        decreases gs@.len() - i,
    {
        let ghost pre = gs@.take(i + 1);
        assert(pre.drop_last() =~= gs@.take(i as int));
        assert(pre.last() == gs@[i as int]);
        if i > 0 {
            write_chars(out, &['\n', '[', ']', ' ']);
        }
        let g = &gs[i];
        write_cg(out, &g.guard);
        write_chars(out, &[' ', '-', '>', '\n']);
        let mut inner: Vec<char> = Vec::new();
        write_cmds(&mut inner, &g.cmds.0);
        assert(inner@ =~= cmds_text(g.cmds.0@));
        write_indented(out, &inner);
        proof {
            if i == 0 {
                assert(cguards_text(gs@.take(0)) =~= Seq::<char>::empty());
            }
        }
        assert(out@ =~= start + cguards_text(pre));
        i += 1;
    }
    assert(gs@.take(gs@.len() as int) =~= gs@);
}

impl Command {
    /// The command as text.
    pub fn to_string(&self) -> (r: String)
        ensures
            r@ == cmd_text(*self),
    {
        let mut out: Vec<char> = Vec::new();
        write_cmd(&mut out, self);
        assert(out@ =~= cmd_text(*self));
        string_of(&out)
    }
}

impl Commands {
    /// The commands as text, separated by ` ;` and a line break.
    pub fn to_string(&self) -> (r: String)
        ensures
            r@ == cmds_text(self.0@),
    {
        let mut out: Vec<char> = Vec::new();
        write_cmds(&mut out, &self.0);
        assert(out@ =~= cmds_text(self.0@));
        string_of(&out)
    }
}

// ---------------------------------------------------------------------------
// Declarations and whole programs.

pub open spec fn size_text(b: BufferSize) -> Seq<char> {
    match b {
        BufferSize::Finite(n) => nat_text(n as nat),
        BufferSize::Infinite => seq!['I', 'N', 'F'],
    }
}

pub open spec fn space_type_text(t: TupleSpaceType) -> Seq<char> {
    match t {
        TupleSpaceType::Random => seq!['R'],
        TupleSpaceType::Queue => seq!['Q'],
        TupleSpaceType::Stack => seq!['S'],
        TupleSpaceType::LIFO => seq!['L'],
        TupleSpaceType::FIFO => seq!['F'],
    }
}

/// `(discipline, capacity, {tuples})`.
pub open spec fn tuple_space_text(t: TupleSpaceType, size: BufferSize, tuples: Seq<Seq<i32>>) -> Seq<char> {
    seq!['('] + space_type_text(t) + seq![',', ' '] + size_text(size) + seq![',', ' ', '{'] + join(
        tuples.map_values(|x: Seq<i32>| tuple_text(x)),
        seq![',', ' '],
    ) + seq!['}', ')']
}

/// `(capacity, (values))`.
pub open spec fn channel_text(size: BufferSize, vals: Seq<i32>) -> Seq<char> {
    seq!['('] + size_text(size) + seq![',', ' ', '('] + join(ints_text(vals), seq![',', ' ']) + seq![')', ')']
}

/// The parts of the declarations line: the variables, the arrays, the tuple
/// spaces and the asynchronous channels, each present only if declared.
pub open spec fn init_parts(p: LTLProgram) -> Seq<Seq<char>> {
    (if variable_value_entries(p.initial.variables).len() > 0 {
        seq![variables_text(p.initial.variables)]
    } else {
        seq![]
    }) + (if array_value_entries(p.initial.arrays).len() > 0 {
        seq![arrays_text(p.initial.arrays)]
    } else {
        seq![]
    }) + (if tuple_space_entries(p.initial.tuple_spaces).len() > 0 {
        seq![spaces_text(p.initial.tuple_spaces)]
    } else {
        seq![]
    }) + (if channel_entries(p.initial.async_channels).len() > 0 {
        seq![channels_text(p.initial.async_channels)]
    } else {
        seq![]
    })
}

/// `check` and the property, on a line of its own, for each property.
pub open spec fn properties_text(ps: Seq<(crate::ast::SourceSpan, crate::ast::LTLFormula)>) -> Seq<char>
    decreases ps.len(),
{
    if ps.len() == 0 {
        seq![]
    } else {
        properties_text(ps.drop_last()) + seq!['c', 'h', 'e', 'c', 'k', ' '] + ltl_text(ps.last().1) + seq!['\n']
    }
}

/// The text of a program: `> ` and the declarations; the commands of the
/// single process, or of each process between `par` and `rap`, separated
/// by `[]` lines; then the properties.
pub open spec fn program_text(p: LTLProgram) -> Seq<char> {
    let head = seq!['>', ' '] + join(init_parts(p), seq![',', ' ']) + seq!['\n'];
    let body = if p.commands@.len() == 1 {
        cmds_text(p.commands@[0].0@) + seq!['\n']
    } else {
        seq!['p', 'a', 'r', '\n'] + join(
            p.commands@.map_values(|c: Commands| cmds_text(c.0@)),
            seq!['\n', '[', ']', '\n'],
        ) + seq!['\n', 'r', 'a', 'p', '\n']
    };
    head + body + properties_text(p.properties@)
}

pub open spec fn bufs_view(v: Seq<Vec<char>>) -> Seq<Seq<char>> {
    v.map_values(|b: Vec<char>| b@)
}

/// Appends the parts with `sep` between each two.
fn write_join(out: &mut Vec<char>, parts: &Vec<Vec<char>>, sep: &[char])
    ensures
        final(out)@ == old(out)@ + join(bufs_view(parts@), sep@),
{
    let ghost start = out@;
    let ghost pv = bufs_view(parts@);
    let mut i: usize = 0;
    assert(pv.take(0) =~= Seq::<Seq<char>>::empty());
    while i < parts.len()
        invariant
            i <= parts@.len(),
            pv == bufs_view(parts@),
            out@ == start + join(pv.take(i as int), sep@),
        decreases parts@.len() - i,
    {
        let ghost ps = pv.take(i + 1);
        assert(ps.drop_last() =~= pv.take(i as int));
        assert(ps.last() == parts@[i as int]@);
        if i > 0 {
            write_chars(out, sep);
        }
        write_chars(out, parts[i].as_slice());
        proof {
            if i == 0 {
                assert(ps.len() == 1);
            }
        }
        assert(out@ =~= start + join(ps, sep@));
        i += 1;
    }
    assert(pv.take(pv.len() as int) =~= pv);
}

fn write_ints(out: &mut Vec<char>, v: &Vec<i32>, sep: &[char])
    ensures
        final(out)@ == old(out)@ + join(ints_text(v@), sep@),
{
    let ghost start = out@;
    let ghost texts = ints_text(v@);
    let mut i: usize = 0;
    assert(texts.take(0) =~= Seq::<Seq<char>>::empty());
    while i < v.len()
        invariant
            i <= v@.len(),
            texts == ints_text(v@),
            out@ == start + join(texts.take(i as int), sep@),
        decreases v@.len() - i,
    {
        let ghost ps = texts.take(i + 1);
        assert(ps.drop_last() =~= texts.take(i as int));
        assert(ps.last() == int_text(v@[i as int] as int));
        if i > 0 {
            write_chars(out, sep);
        }
        write_int(out, v[i]);
        proof {
            if i == 0 {
                assert(ps.len() == 1);
                assert(join(texts.take(0), sep@) =~= Seq::<char>::empty());
            }
        }
        assert(out@ =~= start + join(ps, sep@));
        i += 1;
    }
    assert(texts.take(texts.len() as int) =~= texts);
}

fn write_size(out: &mut Vec<char>, b: BufferSize)
    ensures
        final(out)@ == old(out)@ + size_text(b),
{
    match b {
        BufferSize::Finite(n) => write_u32(out, n),
        BufferSize::Infinite => write_chars(out, &['I', 'N', 'F']),
    }
}

fn write_tuple_space(out: &mut Vec<char>, ts: &TupleSpace)
    ensures
        final(out)@ == old(out)@ + tuple_space_text(
            ts.space_type,
            ts.size,
            crate::program::tuples_view(ts.space),
        ),
{
    let ghost start = out@;
    out.push('(');
    let c = match ts.space_type {
        TupleSpaceType::Random => 'R',
        TupleSpaceType::Queue => 'Q',
        TupleSpaceType::Stack => 'S',
        TupleSpaceType::LIFO => 'L',
        TupleSpaceType::FIFO => 'F',
    };
    out.push(c);
    assert(seq![c] == space_type_text(ts.space_type));
    write_chars(out, &[',', ' ']);
    write_size(out, ts.size);
    write_chars(out, &[',', ' ', '{']);
    let mut parts: Vec<Vec<char>> = Vec::new();
    let ghost tv = crate::program::tuples_view(ts.space);
    let mut i: usize = 0;
    while i < ts.space.len()
        invariant
            i <= ts.space@.len(),
            tv == crate::program::tuples_view(ts.space),
            bufs_view(parts@) == tv.map_values(|x: Seq<i32>| tuple_text(x)).take(i as int),
        decreases ts.space@.len() - i,
    {
        let mut b: Vec<char> = Vec::new();
        b.push('(');
        let comma: &[char] = &[','];
        assert(comma@ =~= seq![',']);
        write_ints(&mut b, &ts.space[i], comma);
        b.push(')');
        assert(tv[i as int] == ts.space@[i as int]@);
        assert(b@ =~= tuple_text(tv[i as int]));
        let ghost before = bufs_view(parts@);
        let ghost texts = tv.map_values(|x: Seq<i32>| tuple_text(x));
        parts.push(b);
        assert(bufs_view(parts@) =~= before.push(texts[i as int]));
        assert(texts.take(i + 1) =~= texts.take(i as int).push(texts[i as int]));
        i += 1;
    }
    assert(tv.map_values(|x: Seq<i32>| tuple_text(x)).take(tv.len() as int) =~= tv.map_values(
        |x: Seq<i32>| tuple_text(x),
    ));
    write_join(out, &parts, &[',', ' ']);
    write_chars(out, &['}', ')']);
    assert(out@ =~= start + tuple_space_text(ts.space_type, ts.size, tv));
}

fn write_channel(out: &mut Vec<char>, c: &Channel)
    ensures
        final(out)@ == old(out)@ + channel_text(c.size, c.channel@),
{
    let ghost start = out@;
    out.push('(');
    write_size(out, c.size);
    write_chars(out, &[',', ' ', '(']);
    write_ints(out, &c.channel, &[',', ' ']);
    write_chars(out, &[')', ')']);
    assert(out@ =~= start + channel_text(c.size, c.channel@));
}

pub open spec fn variables_text(m: indexmap::IndexMap<crate::ast::Variable, i32>) -> Seq<char> {
    join(
        variable_value_entries(m).map_values(|e: (Seq<char>, i32)| e.0 + seq![' ', '=', ' '] + int_text(e.1 as int)),
        seq![',', ' '],
    )
}

pub open spec fn arrays_text(m: indexmap::IndexMap<crate::ast::Array, Vec<i32>>) -> Seq<char> {
    join(
        array_value_entries(m).map_values(
            |e: (Seq<char>, Seq<i32>)| e.0 + seq![' ', '=', ' ', '['] + join(ints_text(e.1), seq![',', ' ']) + seq![']'],
        ),
        seq![',', ' '],
    )
}

pub open spec fn spaces_text(m: indexmap::IndexMap<crate::ast::TupleSpaceName, TupleSpace>) -> Seq<char> {
    join(
        tuple_space_entries(m).map_values(
            |e: (Seq<char>, (TupleSpaceType, BufferSize, Seq<Seq<i32>>))|
                e.0 + seq![' ', '=', ' '] + tuple_space_text(e.1.0, e.1.1, e.1.2),
        ),
        seq![',', ' '],
    )
}

pub open spec fn channels_text(m: indexmap::IndexMap<crate::ast::ChannelName, Channel>) -> Seq<char> {
    join(
        channel_entries(m).map_values(
            |e: (Seq<char>, (BufferSize, Seq<i32>))| e.0 + seq![' ', '=', ' '] + channel_text(e.1.0, e.1.1),
        ),
        seq![',', ' '],
    )
}

fn variables_section(m: &indexmap::IndexMap<crate::ast::Variable, i32>) -> (r: Option<Vec<char>>)
    ensures
        r is None <==> variable_value_entries(*m).len() == 0,
        r matches Some(b) ==> b@ == variables_text(*m),
{
    let vars = variable_value_list(m);
    if vars.len() == 0 {
        return None;
    }
    let ghost ev = variable_value_entries(*m);
    let ghost texts = ev.map_values(|e: (Seq<char>, i32)| e.0 + seq![' ', '=', ' '] + int_text(e.1 as int));
    let mut parts: Vec<Vec<char>> = Vec::new();
    let mut i: usize = 0;
    assert(texts.take(0) =~= Seq::<Seq<char>>::empty());
    while i < vars.len()
        invariant
            i <= vars@.len(),
            vars@.map_values(|x: (crate::ast::Variable, i32)| (x.0.0@, x.1)) == ev,
            texts == ev.map_values(|e: (Seq<char>, i32)| e.0 + seq![' ', '=', ' '] + int_text(e.1 as int)),
            bufs_view(parts@) == texts.take(i as int),
        decreases vars@.len() - i,
    {
        let mut b: Vec<char> = Vec::new();
        write_str(&mut b, vars[i].0.0.as_str());
        write_chars(&mut b, &[' ', '=', ' ']);
        write_int(&mut b, vars[i].1);
        assert(ev[i as int] == (vars@[i as int].0.0@, vars@[i as int].1));
        assert(b@ =~= texts[i as int]);
        let ghost before = bufs_view(parts@);
        parts.push(b);
        assert(bufs_view(parts@) =~= before.push(texts[i as int]));
        assert(texts.take(i + 1) =~= texts.take(i as int).push(texts[i as int]));
        i += 1;
    }
    assert(texts.take(texts.len() as int) =~= texts);
    let mut b: Vec<char> = Vec::new();
    write_join(&mut b, &parts, &[',', ' ']);
    assert(b@ =~= variables_text(*m));
    Some(b)
}

fn arrays_section(m: &indexmap::IndexMap<crate::ast::Array, Vec<i32>>) -> (r: Option<Vec<char>>)
    ensures
        r is None <==> array_value_entries(*m).len() == 0,
        r matches Some(b) ==> b@ == arrays_text(*m),
{
    let arrs = array_value_list(m);
    if arrs.len() == 0 {
        return None;
    }
    let ghost ev = array_value_entries(*m);
    let ghost texts = ev.map_values(
        |e: (Seq<char>, Seq<i32>)| e.0 + seq![' ', '=', ' ', '['] + join(ints_text(e.1), seq![',', ' ']) + seq![']'],
    );
    let mut parts: Vec<Vec<char>> = Vec::new();
    let mut i: usize = 0;
    assert(texts.take(0) =~= Seq::<Seq<char>>::empty());
    while i < arrs.len()
        invariant
            i <= arrs@.len(),
            arrs@.map_values(|x: (crate::ast::Array, Vec<i32>)| (x.0.0@, x.1@)) == ev,
            texts == ev.map_values(
                |e: (Seq<char>, Seq<i32>)| e.0 + seq![' ', '=', ' ', '['] + join(ints_text(e.1), seq![',', ' '])
                    + seq![']'],
            ),
            bufs_view(parts@) == texts.take(i as int),
        decreases arrs@.len() - i,
    {
        let mut b: Vec<char> = Vec::new();
        write_str(&mut b, arrs[i].0.0.as_str());
        write_chars(&mut b, &[' ', '=', ' ', '[']);
        write_ints(&mut b, &arrs[i].1, &[',', ' ']);
        b.push(']');
        assert(ev[i as int] == (arrs@[i as int].0.0@, arrs@[i as int].1@));
        assert(b@ =~= texts[i as int]);
        let ghost before = bufs_view(parts@);
        parts.push(b);
        assert(bufs_view(parts@) =~= before.push(texts[i as int]));
        assert(texts.take(i + 1) =~= texts.take(i as int).push(texts[i as int]));
        i += 1;
    }
    assert(texts.take(texts.len() as int) =~= texts);
    let mut b: Vec<char> = Vec::new();
    write_join(&mut b, &parts, &[',', ' ']);
    assert(b@ =~= arrays_text(*m));
    Some(b)
}

fn spaces_section(m: &indexmap::IndexMap<crate::ast::TupleSpaceName, TupleSpace>) -> (r: Option<Vec<char>>)
    ensures
        r is None <==> tuple_space_entries(*m).len() == 0,
        r matches Some(b) ==> b@ == spaces_text(*m),
{
    let sps = tuple_space_list(m);
    if sps.len() == 0 {
        return None;
    }
    let ghost ev = tuple_space_entries(*m);
    let ghost texts = ev.map_values(
        |e: (Seq<char>, (TupleSpaceType, BufferSize, Seq<Seq<i32>>))|
            e.0 + seq![' ', '=', ' '] + tuple_space_text(e.1.0, e.1.1, e.1.2),
    );
    let mut parts: Vec<Vec<char>> = Vec::new();
    let mut i: usize = 0;
    assert(texts.take(0) =~= Seq::<Seq<char>>::empty());
    while i < sps.len()
        invariant
            i <= sps@.len(),
            sps@.map_values(|x: (crate::ast::TupleSpaceName, TupleSpace)| tuple_space_entry_view(x)) == ev,
            texts == ev.map_values(
                |e: (Seq<char>, (TupleSpaceType, BufferSize, Seq<Seq<i32>>))|
                    e.0 + seq![' ', '=', ' '] + tuple_space_text(e.1.0, e.1.1, e.1.2),
            ),
            bufs_view(parts@) == texts.take(i as int),
        decreases sps@.len() - i,
    {
        let mut b: Vec<char> = Vec::new();
        write_str(&mut b, sps[i].0.0.as_str());
        write_chars(&mut b, &[' ', '=', ' ']);
        write_tuple_space(&mut b, &sps[i].1);
        assert(ev[i as int] == tuple_space_entry_view(sps@[i as int]));
        assert(crate::program::tuples_view(sps@[i as int].1.space) =~= ev[i as int].1.2);
        assert(b@ =~= texts[i as int]);
        let ghost before = bufs_view(parts@);
        parts.push(b);
        assert(bufs_view(parts@) =~= before.push(texts[i as int]));
        assert(texts.take(i + 1) =~= texts.take(i as int).push(texts[i as int]));
        i += 1;
    }
    assert(texts.take(texts.len() as int) =~= texts);
    let mut b: Vec<char> = Vec::new();
    write_join(&mut b, &parts, &[',', ' ']);
    assert(b@ =~= spaces_text(*m));
    Some(b)
}

fn channels_section(m: &indexmap::IndexMap<crate::ast::ChannelName, Channel>) -> (r: Option<Vec<char>>)
    ensures
        r is None <==> channel_entries(*m).len() == 0,
        r matches Some(b) ==> b@ == channels_text(*m),
{
    let chs = channel_list(m);
    if chs.len() == 0 {
        return None;
    }
    let ghost ev = channel_entries(*m);
    let ghost texts = ev.map_values(
        |e: (Seq<char>, (BufferSize, Seq<i32>))| e.0 + seq![' ', '=', ' '] + channel_text(e.1.0, e.1.1),
    );
    let mut parts: Vec<Vec<char>> = Vec::new();
    let mut i: usize = 0;
    assert(texts.take(0) =~= Seq::<Seq<char>>::empty());
    while i < chs.len()
        invariant
            i <= chs@.len(),
            chs@.map_values(|x: (crate::ast::ChannelName, Channel)| channel_entry_view(x)) == ev,
            texts == ev.map_values(
                |e: (Seq<char>, (BufferSize, Seq<i32>))| e.0 + seq![' ', '=', ' '] + channel_text(e.1.0, e.1.1),
            ),
            bufs_view(parts@) == texts.take(i as int),
        decreases chs@.len() - i,
    {
        let mut b: Vec<char> = Vec::new();
        write_str(&mut b, chs[i].0.0.as_str());
        write_chars(&mut b, &[' ', '=', ' ']);
        write_channel(&mut b, &chs[i].1);
        assert(ev[i as int] == channel_entry_view(chs@[i as int]));
        assert(b@ =~= texts[i as int]);
        let ghost before = bufs_view(parts@);
        parts.push(b);
        assert(bufs_view(parts@) =~= before.push(texts[i as int]));
        assert(texts.take(i + 1) =~= texts.take(i as int).push(texts[i as int]));
        i += 1;
    }
    assert(texts.take(texts.len() as int) =~= texts);
    let mut b: Vec<char> = Vec::new();
    write_join(&mut b, &parts, &[',', ' ']);
    assert(b@ =~= channels_text(*m));
    Some(b)
}

/// Adds a section, if there is one.
fn push_section(parts: &mut Vec<Vec<char>>, section: Option<Vec<char>>)
    ensures
        bufs_view(final(parts)@) == match section {
            Some(b) => bufs_view(old(parts)@).push(b@),
            None => bufs_view(old(parts)@),
        },
{
    let ghost before = bufs_view(parts@);
    if let Some(b) = section {
        let ghost bv = b@;
        parts.push(b);
        assert(bufs_view(parts@) =~= before.push(bv));
    }
}

fn write_processes(out: &mut Vec<char>, commands: &Vec<Commands>)
    ensures
        final(out)@ == old(out)@ + if commands@.len() == 1 {
            cmds_text(commands@[0].0@) + seq!['\n']
        } else {
            seq!['p', 'a', 'r', '\n'] + join(
                commands@.map_values(|c: Commands| cmds_text(c.0@)),
                seq!['\n', '[', ']', '\n'],
            ) + seq!['\n', 'r', 'a', 'p', '\n']
        },
{
    let ghost start = out@;
    if commands.len() == 1 {
        write_cmds(out, &commands[0].0);
        out.push('\n');
    } else {
        write_chars(out, &['p', 'a', 'r', '\n']);
        let mut parts: Vec<Vec<char>> = Vec::new();
        let ghost texts = commands@.map_values(|c: Commands| cmds_text(c.0@));
        let mut i: usize = 0;
        assert(texts.take(0) =~= Seq::<Seq<char>>::empty());
        while i < commands.len()
            invariant
                i <= commands@.len(),
                texts == commands@.map_values(|c: Commands| cmds_text(c.0@)),
                bufs_view(parts@) == texts.take(i as int),
            decreases commands@.len() - i,
        {
            let mut b: Vec<char> = Vec::new();
            write_cmds(&mut b, &commands[i].0);
            assert(b@ =~= texts[i as int]);
            let ghost before = bufs_view(parts@);
            parts.push(b);
            assert(bufs_view(parts@) =~= before.push(texts[i as int]));
            assert(texts.take(i + 1) =~= texts.take(i as int).push(texts[i as int]));
            i += 1;
        }
        assert(texts.take(texts.len() as int) =~= texts);
        write_join(out, &parts, &['\n', '[', ']', '\n']);
        write_chars(out, &['\n', 'r', 'a', 'p', '\n']);
    }
    assert(out@ =~= start + if commands@.len() == 1 {
        cmds_text(commands@[0].0@) + seq!['\n']
    } else {
        seq!['p', 'a', 'r', '\n'] + join(
            commands@.map_values(|c: Commands| cmds_text(c.0@)),
            seq!['\n', '[', ']', '\n'],
        ) + seq!['\n', 'r', 'a', 'p', '\n']
    });
}

fn write_properties(out: &mut Vec<char>, ps: &Vec<(crate::ast::SourceSpan, crate::ast::LTLFormula)>)
    ensures
        final(out)@ == old(out)@ + properties_text(ps@),
{
    let ghost upto = out@;
    let mut k: usize = 0;
    assert(ps@.take(0) =~= Seq::<(crate::ast::SourceSpan, crate::ast::LTLFormula)>::empty());
    while k < ps.len()
        invariant
            k <= ps@.len(),
            out@ == upto + properties_text(ps@.take(k as int)),
        decreases ps@.len() - k,
    {
        let ghost pre = ps@.take(k + 1);
        assert(pre.drop_last() =~= ps@.take(k as int));
        assert(pre.last() == ps@[k as int]);
        write_chars(out, &['c', 'h', 'e', 'c', 'k', ' ']);
        write_ltl(out, &ps[k].1);
        out.push('\n');
        assert(out@ =~= upto + properties_text(pre));
        k += 1;
    }
    assert(ps@.take(ps@.len() as int) =~= ps@);
}

impl LTLProgram {
    /// The program as text.
    pub fn to_string(&self) -> (r: String)
        ensures
            r@ == program_text(*self),
    {
        let mut init: Vec<Vec<char>> = Vec::new();
        push_section(&mut init, variables_section(&self.initial.variables));
        push_section(&mut init, arrays_section(&self.initial.arrays));
        push_section(&mut init, spaces_section(&self.initial.tuple_spaces));
        push_section(&mut init, channels_section(&self.initial.async_channels));
        assert(bufs_view(init@) =~= init_parts(*self));
        let mut out: Vec<char> = Vec::new();
        write_chars(&mut out, &['>', ' ']);
        write_join(&mut out, &init, &[',', ' ']);
        out.push('\n');
        write_processes(&mut out, &self.commands);
        write_properties(&mut out, &self.properties);
        assert(out@ =~= program_text(*self));
        string_of(&out)
    }
}

impl TupleSpace {
    /// The tuple space as text: `(discipline, capacity, {tuples})`.
    pub fn to_string(&self) -> (r: String)
        ensures
            r@ == tuple_space_text(self.space_type, self.size, crate::program::tuples_view(self.space)),
    {
        let mut out: Vec<char> = Vec::new();
        write_tuple_space(&mut out, self);
        assert(out@ =~= tuple_space_text(self.space_type, self.size, crate::program::tuples_view(self.space)));
        string_of(&out)
    }
}

impl Channel {
    /// The channel as text: `(capacity, (values))`.
    pub fn to_string(&self) -> (r: String)
        ensures
            r@ == channel_text(self.size, self.channel@),
    {
        let mut out: Vec<char> = Vec::new();
        write_channel(&mut out, self);
        assert(out@ =~= channel_text(self.size, self.channel@));
        string_of(&out)
    }
}

impl Guard {
    /// The guarded command as text: the guard, `->`, then the commands
    /// indented.
    pub fn to_string(&self) -> (r: String)
        ensures
            r@ == guards_text(seq![*self]),
    {
        let mut out: Vec<char> = Vec::new();
        write_bexpr(&mut out, &self.guard);
        write_chars(&mut out, &[' ', '-', '>', '\n']);
        let mut inner: Vec<char> = Vec::new();
        write_cmds(&mut inner, &self.cmds.0);
        write_indented(&mut out, &inner);
        assert(seq![*self].drop_last() =~= Seq::<Guard>::empty());
        assert(out@ =~= guards_text(seq![*self]));
        string_of(&out)
    }
}

impl CommunicationGuard {
    /// The guarded command as text: the guard, `->`, then the commands
    /// indented.
    pub fn to_string(&self) -> (r: String)
        ensures
            r@ == cguards_text(seq![*self]),
    {
        let mut out: Vec<char> = Vec::new();
        write_cg(&mut out, &self.guard);
        write_chars(&mut out, &[' ', '-', '>', '\n']);
        let mut inner: Vec<char> = Vec::new();
        write_cmds(&mut inner, &self.cmds.0);
        write_indented(&mut out, &inner);
        assert(seq![*self].drop_last() =~= Seq::<CommunicationGuard>::empty());
        assert(out@ =~= cguards_text(seq![*self]));
        string_of(&out)
    }
}

impl crate::ast::Field {
    /// The field as text.
    pub fn to_string(&self) -> (r: String)
        ensures
            r@ == field_text(*self),
    {
        let mut out: Vec<char> = Vec::new();
        write_field(&mut out, self);
        assert(out@ =~= field_text(*self));
        string_of(&out)
    }
}

impl crate::ast::OperationP {
    /// The operation as text.
    pub fn to_string(&self) -> (r: String)
        ensures
            r@ == operation_p_text(*self),
    {
        let mut out: Vec<char> = Vec::new();
        write_operation_p(&mut out, self);
        assert(out@ =~= operation_p_text(*self));
        string_of(&out)
    }
}

impl crate::ast::ChannelFormula {
    /// The predicate as text.
    pub fn to_string(&self) -> (r: String)
        ensures
            r@ == cf_text(*self),
    {
        let mut out: Vec<char> = Vec::new();
        write_cf(&mut out, self);
        assert(out@ =~= cf_text(*self));
        string_of(&out)
    }
}

impl crate::ast::Locator {
    /// The locator as text.
    pub fn to_string(&self) -> (r: String)
        ensures
            r@ == locator_text(*self),
    {
        let mut out: Vec<char> = Vec::new();
        write_locator(&mut out, *self);
        assert(out@ =~= locator_text(*self));
        string_of(&out)
    }
}

} // verus!
