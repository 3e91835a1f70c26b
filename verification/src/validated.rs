use vstd::prelude::*;

use crate::ast::{Command, CommandKind, Commands, CommunicationGuard, Guard};
use crate::codegen::{program_spaces, spaces_cguards, spaces_cmd, spaces_cmds, spaces_guards};
use crate::collections::{has_key, tuple_space_entries};
use crate::compile::entry_names;
use crate::validate::{
    cguards_error, cmd_error, cmds_error, guards_error,
    processes_error, program_error, Initial, LTLProperty, Names,
};

verus! {

// ---------------------------------------------------------------------------
// What validation guarantees of the tuple spaces a program uses.

/// The tuple spaces named by operations inside the bodies of a plain `if`
/// (at any depth): validation does not look there.
pub open spec fn unchecked_spaces_cmd(c: Command) -> Set<Seq<char>>
    decreases c,
{
    match c.kind {
        CommandKind::If(gs) => spaces_guards(gs@),
        CommandKind::IfCG(gs) => unchecked_spaces_cguards(gs@),
        CommandKind::Loop(gs) => unchecked_spaces_guards(gs@),
        CommandKind::LoopCG(gs) => unchecked_spaces_cguards(gs@),
        _ => Set::empty(),
    }
}

pub open spec fn unchecked_spaces_cmds(cs: Seq<Command>) -> Set<Seq<char>>
    decreases cs,
{
    if cs.len() == 0 {
        Set::empty()
    } else {
        unchecked_spaces_cmds(cs.drop_last()).union(unchecked_spaces_cmd(cs.last()))
    }
}

pub open spec fn unchecked_spaces_guards(gs: Seq<Guard>) -> Set<Seq<char>>
    decreases gs,
{
    if gs.len() == 0 {
        Set::empty()
    } else {
        unchecked_spaces_guards(gs.drop_last()).union(unchecked_spaces_cmds(gs.last().cmds.0@))
    }
}

pub open spec fn unchecked_spaces_cguards(gs: Seq<CommunicationGuard>) -> Set<Seq<char>>
    decreases gs,
{
    if gs.len() == 0 {
        Set::empty()
    } else {
        unchecked_spaces_cguards(gs.drop_last()).union(unchecked_spaces_cmds(gs.last().cmds.0@))
    }
}

/// The tuple spaces named inside the bodies of the plain `if`s of a program.
pub open spec fn unchecked_spaces(ps: Seq<Commands>) -> Set<Seq<char>>
    decreases ps.len(),
{
    if ps.len() == 0 {
        Set::empty()
    } else {
        unchecked_spaces(ps.drop_last()).union(unchecked_spaces_cmds(ps.last().0@))
    }
}

pub open spec fn declared(n: Names) -> Set<Seq<char>> {
    entry_names(n.spaces)
}

proof fn lemma_cmds_error_none(cs: Seq<Command>, n: Names, i: int)
    requires
        cmds_error(cs, n) is None,
        0 <= i < cs.len(),
    ensures
        cmd_error(cs[i], n) is None,
    decreases cs.len(),
{
    if i > 0 {
        lemma_cmds_error_none(cs.drop_first(), n, i - 1);
        assert(cs.drop_first()[i - 1] == cs[i]);
    }
}

proof fn lemma_guards_error_none(gs: Seq<Guard>, span: crate::ast::SourceSpan, n: Names, i: int)
    requires
        guards_error(gs, span, n) is None,
        0 <= i < gs.len(),
    ensures
        cmds_error(gs[i].cmds.0@, n) is None,
    decreases gs.len(),
{
    if i > 0 {
        lemma_guards_error_none(gs.drop_first(), span, n, i - 1);
        assert(gs.drop_first()[i - 1] == gs[i]);
    }
}

proof fn lemma_cguards_error_none(gs: Seq<CommunicationGuard>, span: crate::ast::SourceSpan, n: Names, i: int)
    requires
        cguards_error(gs, span, n) is None,
        0 <= i < gs.len(),
    ensures
        cmds_error(gs[i].cmds.0@, n) is None,
    decreases gs.len(),
{
    if i > 0 {
        lemma_cguards_error_none(gs.drop_first(), span, n, i - 1);
        assert(gs.drop_first()[i - 1] == gs[i]);
    }
}

proof fn lemma_processes_error_none(ps: Seq<Commands>, n: Names, i: int)
    requires
        processes_error(ps, n) is None,
        0 <= i < ps.len(),
    ensures
        cmds_error(ps[i].0@, n) is None,
    decreases ps.len(),
{
    if i > 0 {
        lemma_processes_error_none(ps.drop_first(), n, i - 1);
        assert(ps.drop_first()[i - 1] == ps[i]);
    }
}

proof fn lemma_cmd_spaces(c: Command, n: Names)
    requires
        cmd_error(c, n) is None,
    ensures
        spaces_cmd(c).subset_of(declared(n).union(unchecked_spaces_cmd(c))),
    decreases c, 0int,
{
    match c.kind {
        CommandKind::O(op) => {
            assert(has_key(n.spaces, crate::codegen::op_space(op)));
        },
        CommandKind::Loop(gs) => lemma_guards_spaces(gs@, c.span, n),
        CommandKind::IfCG(gs) => lemma_cguards_spaces(gs@, c.span, n),
        CommandKind::LoopCG(gs) => lemma_cguards_spaces(gs@, c.span, n),
        _ => {},
    }
}

proof fn lemma_cmds_spaces(cs: Seq<Command>, n: Names)
    requires
        forall|i: int| 0 <= i < cs.len() ==> (#[trigger] cmd_error(cs[i], n)) is None,
    ensures
        spaces_cmds(cs).subset_of(declared(n).union(unchecked_spaces_cmds(cs))),
    decreases cs, 0int,
{
    if cs.len() > 0 {
        let last = cs[cs.len() - 1];
        assert(cmd_error(last, n) is None);
        lemma_cmd_spaces(last, n);
        assert forall|i: int| 0 <= i < cs.drop_last().len() implies (#[trigger] cmd_error(cs.drop_last()[i], n)) is None by {
            assert(cs.drop_last()[i] == cs[i]);
            assert(cmd_error(cs[i], n) is None);
        }
        lemma_cmds_spaces(cs.drop_last(), n);
    }
}

proof fn lemma_body_spaces(cs: Seq<Command>, n: Names)
    requires
        cmds_error(cs, n) is None,
    ensures
        spaces_cmds(cs).subset_of(declared(n).union(unchecked_spaces_cmds(cs))),
    decreases cs, 1int,
{
    assert forall|i: int| 0 <= i < cs.len() implies (#[trigger] cmd_error(cs[i], n)) is None by {
        lemma_cmds_error_none(cs, n, i);
    }
    lemma_cmds_spaces(cs, n);
}

proof fn lemma_guards_spaces(gs: Seq<Guard>, span: crate::ast::SourceSpan, n: Names)
    requires
        guards_error(gs, span, n) is None,
    ensures
        spaces_guards(gs).subset_of(declared(n).union(unchecked_spaces_guards(gs))),
    decreases gs, 1int,
{
    assert forall|i: int| 0 <= i < gs.len() implies (#[trigger] cmds_error(gs[i].cmds.0@, n)) is None by {
        lemma_guards_error_none(gs, span, n, i);
    }
    lemma_guards_spaces_prefix(gs, n);
}

proof fn lemma_guards_spaces_prefix(ks: Seq<Guard>, n: Names)
    requires
        forall|i: int| 0 <= i < ks.len() ==> (#[trigger] cmds_error(ks[i].cmds.0@, n)) is None,
    ensures
        spaces_guards(ks).subset_of(declared(n).union(unchecked_spaces_guards(ks))),
    decreases ks, 0int,
{
    if ks.len() > 0 {
        let last = ks[ks.len() - 1];
        assert(cmds_error(last.cmds.0@, n) is None);
        lemma_body_spaces(last.cmds.0@, n);
        assert forall|i: int| 0 <= i < ks.drop_last().len() implies (#[trigger] cmds_error(
            ks.drop_last()[i].cmds.0@,
            n,
        )) is None by {
            assert(ks.drop_last()[i] == ks[i]);
        }
        lemma_guards_spaces_prefix(ks.drop_last(), n);
    }
}

proof fn lemma_cguards_spaces(gs: Seq<CommunicationGuard>, span: crate::ast::SourceSpan, n: Names)
    requires
        cguards_error(gs, span, n) is None,
    ensures
        spaces_cguards(gs).subset_of(declared(n).union(unchecked_spaces_cguards(gs))),
    decreases gs, 1int,
{
    assert forall|i: int| 0 <= i < gs.len() implies (#[trigger] cmds_error(gs[i].cmds.0@, n)) is None by {
        lemma_cguards_error_none(gs, span, n, i);
    }
    lemma_cguards_spaces_prefix(gs, n);
}

proof fn lemma_cguards_spaces_prefix(ks: Seq<CommunicationGuard>, n: Names)
    requires
        forall|i: int| 0 <= i < ks.len() ==> (#[trigger] cmds_error(ks[i].cmds.0@, n)) is None,
    ensures
        spaces_cguards(ks).subset_of(declared(n).union(unchecked_spaces_cguards(ks))),
    decreases ks, 0int,
{
    if ks.len() > 0 {
        let last = ks[ks.len() - 1];
        assert(cmds_error(last.cmds.0@, n) is None);
        lemma_body_spaces(last.cmds.0@, n);
        assert forall|i: int| 0 <= i < ks.drop_last().len() implies (#[trigger] cmds_error(
            ks.drop_last()[i].cmds.0@,
            n,
        )) is None by {
            assert(ks.drop_last()[i] == ks[i]);
        }
        lemma_cguards_spaces_prefix(ks.drop_last(), n);
    }
}

proof fn lemma_processes_spaces(ps: Seq<Commands>, n: Names)
    requires
        forall|i: int| 0 <= i < ps.len() ==> (#[trigger] cmds_error(ps[i].0@, n)) is None,
    ensures
        program_spaces(ps).subset_of(declared(n).union(unchecked_spaces(ps))),
    decreases ps.len(),
{
    if ps.len() > 0 {
        let last = ps[ps.len() - 1];
        assert(cmds_error(last.0@, n) is None);
        lemma_body_spaces(last.0@, n);
        assert forall|i: int| 0 <= i < ps.drop_last().len() implies (#[trigger] cmds_error(ps.drop_last()[i].0@, n)) is None by {
            assert(ps.drop_last()[i] == ps[i]);
        }
        lemma_processes_spaces(ps.drop_last(), n);
    }
}

/// Every tuple space that the operations of a validated program name is
/// declared, except those named inside the bodies of a plain `if`, which
/// validation does not look into. So where those are declared too, the
/// program's tuple spaces are all among the declared ones, as compiling it
/// with the declared tuple spaces asks.
pub proof fn law_validated_spaces_declared(init: Initial, cmdss: Seq<Commands>, props: Seq<LTLProperty>)
    requires
        program_error(init, cmdss, props) is None,
    ensures
        program_spaces(cmdss).subset_of(
            entry_names(tuple_space_entries(init.tuple_spaces)).union(unchecked_spaces(cmdss)),
        ),
        unchecked_spaces(cmdss).subset_of(entry_names(tuple_space_entries(init.tuple_spaces)))
            ==> program_spaces(cmdss).subset_of(entry_names(tuple_space_entries(init.tuple_spaces))),
{
    let n = Names {
        spaces: tuple_space_entries(init.tuple_spaces),
        chans: crate::collections::channel_entries(init.async_channels),
        sync: init.sync_channels@,
    };
    assert(processes_error(cmdss, n) is None);
    assert forall|i: int| 0 <= i < cmdss.len() implies (#[trigger] cmds_error(cmdss[i].0@, n)) is None by {
        lemma_processes_error_none(cmdss, n, i);
    }
    lemma_processes_spaces(cmdss, n);
}

} // verus!
