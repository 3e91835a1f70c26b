use vstd::prelude::*;

use indexmap::IndexMap;

use crate::ast::{
    Array, BExpr, BufferSize, Channel, ChannelFormula, ChannelName, Command, CommandKind,
    Commands, CommunicationGuard, Guard, Int, LTLFormula, Operation, OperationP, SourceSpan,
    TupleSpace, TupleSpaceName, TupleSpaceType, Variable, CG,
};
use crate::collections::{
    channel_entries, channel_map_contains, has_key, tuple_space_entries, tuple_space_map_contains,
};

verus! {

/// The declarations of a program: initial values of variables and arrays,
/// tuple spaces, asynchronous channels (with their contents) and
/// synchronous channels.
pub struct Initial {
    pub variables: IndexMap<Variable, Int>,
    pub arrays: IndexMap<Array, Vec<Int>>,
    pub tuple_spaces: IndexMap<TupleSpaceName, TupleSpace>,
    pub async_channels: IndexMap<ChannelName, Channel>,
    pub sync_channels: Vec<ChannelName>,
}

/// A property to check, with its place in the source.
pub type LTLProperty = (SourceSpan, LTLFormula);

/// A program: its declarations, the commands of each process, and the
/// properties to check.
pub struct LTLProgram {
    pub initial: Initial,
    pub commands: Vec<Commands>,
    pub properties: Vec<LTLProperty>,
}

/// Why a program is refused: a name that nothing declares, with the source
/// range `from..to` that reports it.
#[derive(Debug)]
pub enum ValidationError {
    Undefined { name: String, from: usize, to: usize },
}

/// The declared names that validation consults.
pub struct Names {
    pub spaces: Seq<(Seq<char>, (TupleSpaceType, BufferSize, Seq<Seq<i32>>))>,
    pub chans: Seq<(Seq<char>, (BufferSize, Seq<i32>))>,
    pub sync: Seq<ChannelName>,
}

pub open spec fn is_sync(n: Names, c: Seq<char>) -> bool {
    exists|i: int| 0 <= i < n.sync.len() && #[trigger] n.sync[i].0@ == c
}

/// The error for `name` used in `span`: it starts where the span starts and
/// is as long as the name's UTF-8 encoding (the end wraps around).
pub open spec fn undefined(name: Seq<char>, span: SourceSpan) -> Option<(Seq<char>, usize, usize)> {
    Some(
        (
            name,
            span.offset,
            vstd::wrapping::usize_specs::wrapping_add(span.offset, vstd::utf8::encode_utf8(name).len() as usize),
        ),
    )
}

pub open spec fn either(a: Option<(Seq<char>, usize, usize)>, b: Option<(Seq<char>, usize, usize)>) -> Option<
    (Seq<char>, usize, usize),
> {
    match a {
        Some(e) => Some(e),
        None => b,
    }
}

pub open spec fn operation_name(op: Operation) -> Seq<char> {
    match op {
        Operation::Put(n, _) => n.0@,
        Operation::Get(n, _) => n.0@,
        Operation::Query(n, _) => n.0@,
    }
}

pub open spec fn operation_p_name(op: OperationP) -> Seq<char> {
    match op {
        OperationP::PutP(n, _) => n.0@,
        OperationP::GetP(n, _) => n.0@,
        OperationP::QueryP(n, _) => n.0@,
    }
}

/// The first tuple space that a guard's operations name and nothing declares.
pub open spec fn guard_ops_error(b: BExpr, span: SourceSpan, n: Names) -> Option<(Seq<char>, usize, usize)>
    decreases b,
{
    match b {
        BExpr::OP(op) => if has_key(n.spaces, operation_p_name(op)) {
            None
        } else {
            undefined(operation_p_name(op), span)
        },
        BExpr::Logic(l, _, r) => either(guard_ops_error(*l, span, n), guard_ops_error(*r, span, n)),
        BExpr::Not(x) => guard_ops_error(*x, span, n),
        _ => None,
    }
}

pub open spec fn channel_error(c: Seq<char>, span: SourceSpan, n: Names) -> Option<(Seq<char>, usize, usize)> {
    if has_key(n.chans, c) || is_sync(n, c) {
        None
    } else {
        undefined(c, span)
    }
}

pub open spec fn cg_error(g: CG, span: SourceSpan, n: Names) -> Option<(Seq<char>, usize, usize)> {
    match g {
        CG::BoolExpression(b) => guard_ops_error(b, span, n),
        CG::Send(c, _) => channel_error(c.0@, span, n),
        CG::Receive(c, _) => channel_error(c.0@, span, n),
    }
}

/// The first undeclared name in a command. Guards of `do`, `if` with
/// communication and `loop` are checked with their bodies; the bodies of
/// a plain `if` are not looked into.
pub open spec fn cmd_error(c: Command, n: Names) -> Option<(Seq<char>, usize, usize)>
    decreases c,
{
    match c.kind {
        CommandKind::O(op) => if has_key(n.spaces, operation_name(op)) {
            None
        } else {
            undefined(operation_name(op), c.span)
        },
        CommandKind::Send(ch, _) => channel_error(ch.0@, c.span, n),
        CommandKind::Receive(ch, _) => channel_error(ch.0@, c.span, n),
        CommandKind::Broadcast(ch, _, _) => if is_sync(n, ch.0@) {
            None
        } else {
            undefined(ch.0@, c.span)
        },
        CommandKind::Gather(ch, _, _, _) => if is_sync(n, ch.0@) {
            None
        } else {
            undefined(ch.0@, c.span)
        },
        CommandKind::Loop(gs) => guards_error(gs@, c.span, n),
        CommandKind::IfCG(gs) => cguards_error(gs@, c.span, n),
        CommandKind::LoopCG(gs) => cguards_error(gs@, c.span, n),
        _ => None,
    }
}

pub open spec fn cmds_error(cs: Seq<Command>, n: Names) -> Option<(Seq<char>, usize, usize)>
    decreases cs,
{
    if cs.len() == 0 {
        None
    } else {
        either(cmd_error(cs[0], n), cmds_error(cs.drop_first(), n))
    }
}

pub open spec fn guards_error(gs: Seq<Guard>, span: SourceSpan, n: Names) -> Option<(Seq<char>, usize, usize)>
    decreases gs,
{
    if gs.len() == 0 {
        None
    } else {
        either(
            either(guard_ops_error(gs[0].guard, span, n), cmds_error(gs[0].cmds.0@, n)),
            guards_error(gs.drop_first(), span, n),
        )
    }
}

pub open spec fn cguards_error(gs: Seq<CommunicationGuard>, span: SourceSpan, n: Names) -> Option<
    (Seq<char>, usize, usize),
>
    decreases gs,
{
    if gs.len() == 0 {
        None
    } else {
        either(
            either(cg_error(gs[0].guard, span, n), cmds_error(gs[0].cmds.0@, n)),
            cguards_error(gs.drop_first(), span, n),
        )
    }
}

pub open spec fn processes_error(ps: Seq<Commands>, n: Names) -> Option<(Seq<char>, usize, usize)>
    decreases ps.len(),
{
    if ps.len() == 0 {
        None
    } else {
        either(cmds_error(ps[0].0@, n), processes_error(ps.drop_first(), n))
    }
}

/// The first undeclared tuple space or channel that a property names.
pub open spec fn property_error(f: LTLFormula, span: SourceSpan, n: Names) -> Option<(Seq<char>, usize, usize)>
    decreases f,
{
    match f {
        LTLFormula::OperationP(op) => if has_key(n.spaces, operation_p_name(op)) {
            None
        } else {
            undefined(operation_p_name(op), span)
        },
        LTLFormula::ChannelFormula(cf) => {
            let c = match cf {
                ChannelFormula::ChannelHead(c, _) => c.0@,
                ChannelFormula::ChannelContains(c, _) => c.0@,
            };
            if has_key(n.chans, c) {
                None
            } else {
                undefined(c, span)
            }
        },
        LTLFormula::Not(x) => property_error(*x, span, n),
        LTLFormula::Next(x) => property_error(*x, span, n),
        LTLFormula::Globally(x) => property_error(*x, span, n),
        LTLFormula::Finally(x) => property_error(*x, span, n),
        LTLFormula::And(a, b) => either(property_error(*a, span, n), property_error(*b, span, n)),
        LTLFormula::Or(a, b) => either(property_error(*a, span, n), property_error(*b, span, n)),
        LTLFormula::Implies(a, b) => either(property_error(*a, span, n), property_error(*b, span, n)),
        LTLFormula::Until(a, b) => either(property_error(*a, span, n), property_error(*b, span, n)),
        _ => None,
    }
}

pub open spec fn properties_error(ps: Seq<LTLProperty>, n: Names) -> Option<(Seq<char>, usize, usize)>
    decreases ps.len(),
{
    if ps.len() == 0 {
        None
    } else {
        either(property_error(ps[0].1, ps[0].0, n), properties_error(ps.drop_first(), n))
    }
}

/// The error of a whole program: the first in its commands, then the first
/// in its properties.
pub open spec fn program_error(init: Initial, cmdss: Seq<Commands>, props: Seq<LTLProperty>) -> Option<
    (Seq<char>, usize, usize),
> {
    let n = Names {
        spaces: tuple_space_entries(init.tuple_spaces),
        chans: channel_entries(init.async_channels),
        sync: init.sync_channels@,
    };
    either(processes_error(cmdss, n), properties_error(props, n))
}

pub open spec fn error_view(e: ValidationError) -> (Seq<char>, usize, usize) {
    match e {
        ValidationError::Undefined { name, from, to } => (name@, from, to),
    }
}

// ---------------------------------------------------------------------------
// The checks.

/// The declarations as they are consulted.
struct Decls<'a> {
    spaces: &'a IndexMap<TupleSpaceName, TupleSpace>,
    chans: &'a IndexMap<ChannelName, Channel>,
    sync: &'a Vec<ChannelName>,
}

impl<'a> Decls<'a> {
    spec fn names(&self) -> Names {
        Names {
            spaces: tuple_space_entries(*self.spaces),
            chans: channel_entries(*self.chans),
            sync: self.sync@,
        }
    }
}

fn undefined_error(name: &String, span: &SourceSpan) -> (r: ValidationError)
    ensures
        Some(error_view(r)) == undefined(name@, *span),
{
    let from = span.offset();
    let len = name.as_str().len();
    ValidationError::Undefined { name: name.clone(), from, to: from.wrapping_add(len) }
}

fn is_sync_channel(d: &Decls, c: &ChannelName) -> (r: bool)
    ensures
        r == is_sync(d.names(), c.0@),
{
    let mut i: usize = 0;
    while i < d.sync.len()
        invariant
            i <= d.sync@.len(),
            forall|j: int| 0 <= j < i ==> d.sync@[j].0@ != c.0@,
        decreases d.sync@.len() - i,
    {
        if d.sync[i].0 == c.0 {
            assert(d.names().sync[i as int].0@ == c.0@);
            return true;
        }
        i += 1;
    }
    false
}

fn check_guard_ops(b: &BExpr, span: &SourceSpan, d: &Decls) -> (r: Result<(), ValidationError>)
    ensures
        match r {
            Ok(()) => guard_ops_error(*b, *span, d.names()) is None,
            Err(e) => guard_ops_error(*b, *span, d.names()) == Some(error_view(e)),
        },
    decreases b,
{
    match b {
        BExpr::OP(op) => {
            let name = match op {
                OperationP::PutP(n, _) => n,
                OperationP::GetP(n, _) => n,
                OperationP::QueryP(n, _) => n,
            };
            if !tuple_space_map_contains(d.spaces, name) {
                return Err(undefined_error(&name.0, span));
            }
            Ok(())
        },
        BExpr::Logic(l, _, r) => {
            match check_guard_ops(l, span, d) {
                Ok(()) => {},
                Err(e) => return Err(e),
            }
            check_guard_ops(r, span, d)
        },
        BExpr::Not(x) => check_guard_ops(x, span, d),
        _ => Ok(()),
    }
}

fn check_channel(c: &ChannelName, span: &SourceSpan, d: &Decls) -> (r: Result<(), ValidationError>)
    ensures
        match r {
            Ok(()) => channel_error(c.0@, *span, d.names()) is None,
            Err(e) => channel_error(c.0@, *span, d.names()) == Some(error_view(e)),
        },
{
    if !channel_map_contains(d.chans, c) && !is_sync_channel(d, c) {
        return Err(undefined_error(&c.0, span));
    }
    Ok(())
}

fn check_cg(g: &CG, span: &SourceSpan, d: &Decls) -> (r: Result<(), ValidationError>)
    ensures
        match r {
            Ok(()) => cg_error(*g, *span, d.names()) is None,
            Err(e) => cg_error(*g, *span, d.names()) == Some(error_view(e)),
        },
{
    match g {
        CG::BoolExpression(b) => check_guard_ops(b, span, d),
        CG::Send(c, _) => check_channel(c, span, d),
        CG::Receive(c, _) => check_channel(c, span, d),
    }
}

fn check_cmd(c: &Command, d: &Decls) -> (r: Result<(), ValidationError>)
    ensures
        match r {
            Ok(()) => cmd_error(*c, d.names()) is None,
            Err(e) => cmd_error(*c, d.names()) == Some(error_view(e)),
        },
    decreases c, 0int,
{
    match &c.kind {
        CommandKind::O(op) => {
            let name = match op {
                Operation::Put(n, _) => n,
                Operation::Get(n, _) => n,
                Operation::Query(n, _) => n,
            };
            if !tuple_space_map_contains(d.spaces, name) {
                return Err(undefined_error(&name.0, &c.span));
            }
            Ok(())
        },
        CommandKind::Send(ch, _) => check_channel(ch, &c.span, d),
        CommandKind::Receive(ch, _) => check_channel(ch, &c.span, d),
        CommandKind::Broadcast(ch, _, _) => {
            if !is_sync_channel(d, ch) {
                return Err(undefined_error(&ch.0, &c.span));
            }
            Ok(())
        },
        CommandKind::Gather(ch, _, _, _) => {
            if !is_sync_channel(d, ch) {
                return Err(undefined_error(&ch.0, &c.span));
            }
            Ok(())
        },
        CommandKind::Loop(gs) => check_guards(gs, &c.span, d),
        CommandKind::IfCG(gs) => check_cguards(gs, &c.span, d),
        CommandKind::LoopCG(gs) => check_cguards(gs, &c.span, d),
        _ => Ok(()),
    }
}

fn check_cmds(cs: &Vec<Command>, d: &Decls) -> (r: Result<(), ValidationError>)
    ensures
        match r {
            Ok(()) => cmds_error(cs@, d.names()) is None,
            Err(e) => cmds_error(cs@, d.names()) == Some(error_view(e)),
        },
    decreases cs@, 1int,
{
    let mut i: usize = 0;
    assert(cs@.skip(0) =~= cs@);
    while i < cs.len()
        invariant
            i <= cs@.len(),
            cmds_error(cs@, d.names()) == cmds_error(cs@.skip(i as int), d.names()),
        decreases cs@.len() - i,
    {
        assert(cs@.skip(i as int)[0] == cs@[i as int]);
        assert(cs@.skip(i as int).drop_first() =~= cs@.skip(i + 1));
        match check_cmd(&cs[i], d) {
            Ok(()) => {},
            Err(e) => return Err(e),
        }
        i += 1;
    }
    Ok(())
}

fn check_guards(gs: &Vec<Guard>, span: &SourceSpan, d: &Decls) -> (r: Result<(), ValidationError>)
    ensures
        match r {
            Ok(()) => guards_error(gs@, *span, d.names()) is None,
            Err(e) => guards_error(gs@, *span, d.names()) == Some(error_view(e)),
        },
    decreases gs@, 1int,
{
    let mut i: usize = 0;
    assert(gs@.skip(0) =~= gs@);
    while i < gs.len()
        invariant
            i <= gs@.len(),
            guards_error(gs@, *span, d.names()) == guards_error(gs@.skip(i as int), *span, d.names()),
        decreases gs@.len() - i,
    {
        assert(gs@.skip(i as int)[0] == gs@[i as int]);
        assert(gs@.skip(i as int).drop_first() =~= gs@.skip(i + 1));
        match check_guard_ops(&gs[i].guard, span, d) {
            Ok(()) => {},
            Err(e) => return Err(e),
        }
        match check_cmds(&gs[i].cmds.0, d) {
            Ok(()) => {},
            Err(e) => return Err(e),
        }
        i += 1;
    }
    Ok(())
}

fn check_cguards(gs: &Vec<CommunicationGuard>, span: &SourceSpan, d: &Decls) -> (r: Result<(), ValidationError>)
    ensures
        match r {
            Ok(()) => cguards_error(gs@, *span, d.names()) is None,
            Err(e) => cguards_error(gs@, *span, d.names()) == Some(error_view(e)),
        },
    decreases gs@, 1int,
{
    let mut i: usize = 0;
    assert(gs@.skip(0) =~= gs@);
    while i < gs.len()
        invariant
            i <= gs@.len(),
            cguards_error(gs@, *span, d.names()) == cguards_error(gs@.skip(i as int), *span, d.names()),
        decreases gs@.len() - i,
    {
        assert(gs@.skip(i as int)[0] == gs@[i as int]);
        assert(gs@.skip(i as int).drop_first() =~= gs@.skip(i + 1));
        match check_cg(&gs[i].guard, span, d) {
            Ok(()) => {},
            Err(e) => return Err(e),
        }
        match check_cmds(&gs[i].cmds.0, d) {
            Ok(()) => {},
            Err(e) => return Err(e),
        }
        i += 1;
    }
    Ok(())
}

fn check_property(f: &LTLFormula, span: &SourceSpan, d: &Decls) -> (r: Result<(), ValidationError>)
    ensures
        match r {
            Ok(()) => property_error(*f, *span, d.names()) is None,
            Err(e) => property_error(*f, *span, d.names()) == Some(error_view(e)),
        },
    decreases f,
{
    match f {
        LTLFormula::OperationP(op) => {
            let name = match op {
                OperationP::PutP(n, _) => n,
                OperationP::GetP(n, _) => n,
                OperationP::QueryP(n, _) => n,
            };
            if !tuple_space_map_contains(d.spaces, name) {
                return Err(undefined_error(&name.0, span));
            }
            Ok(())
        },
        LTLFormula::ChannelFormula(cf) => {
            let name = match cf {
                ChannelFormula::ChannelHead(c, _) => c,
                ChannelFormula::ChannelContains(c, _) => c,
            };
            if !channel_map_contains(d.chans, name) {
                return Err(undefined_error(&name.0, span));
            }
            Ok(())
        },
        LTLFormula::Not(x) => check_property(x, span, d),
        LTLFormula::Next(x) => check_property(x, span, d),
        LTLFormula::Globally(x) => check_property(x, span, d),
        LTLFormula::Finally(x) => check_property(x, span, d),
        LTLFormula::And(a, b) | LTLFormula::Or(a, b) | LTLFormula::Implies(a, b) | LTLFormula::Until(a, b) => {
            match check_property(a, span, d) {
                Ok(()) => {},
                Err(e) => return Err(e),
            }
            check_property(b, span, d)
        },
        _ => Ok(()),
    }
}

/// Checks that every tuple space and channel that the commands and the
/// properties name is declared, and gives back the program; or the first
/// undeclared name, in the order of the commands, then of the properties.
pub fn validate_ltl_program(
    assignments: Initial,
    commands: Vec<Commands>,
    properties: Vec<LTLProperty>,
) -> (r: Result<LTLProgram, ValidationError>)
    ensures
        match r {
            Ok(p) => {
                &&& program_error(assignments, commands@, properties@) is None
                &&& p.initial == assignments
                &&& p.commands == commands
                &&& p.properties == properties
            },
            Err(e) => program_error(assignments, commands@, properties@) == Some(error_view(e)),
        },
{
    let initial = assignments;
    let ghost n = Names {
        spaces: tuple_space_entries(initial.tuple_spaces),
        chans: channel_entries(initial.async_channels),
        sync: initial.sync_channels@,
    };
    {
        let d = Decls { spaces: &initial.tuple_spaces, chans: &initial.async_channels, sync: &initial.sync_channels };
        assert(d.names() == n);
        let mut i: usize = 0;
        assert(commands@.skip(0) =~= commands@);
        while i < commands.len()
            invariant
                i <= commands@.len(),
                d.names() == n,
                program_error(assignments, commands@, properties@) == either(
                    processes_error(commands@, n),
                    properties_error(properties@, n),
                ),
                processes_error(commands@, n) == processes_error(commands@.skip(i as int), n),
            decreases commands@.len() - i,
        {
            assert(commands@.skip(i as int)[0] == commands@[i as int]);
            assert(commands@.skip(i as int).drop_first() =~= commands@.skip(i + 1));
            match check_cmds(&commands[i].0, &d) {
                Ok(()) => {},
                Err(e) => return Err(e),
            }
            i += 1;
        }
        assert(processes_error(commands@.skip(i as int), n) is None);
        let mut j: usize = 0;
        assert(properties@.skip(0) =~= properties@);
        while j < properties.len()
            invariant
                j <= properties@.len(),
                d.names() == n,
                program_error(assignments, commands@, properties@) == either(
                    processes_error(commands@, n),
                    properties_error(properties@, n),
                ),
                processes_error(commands@, n) is None,
                properties_error(properties@, n) == properties_error(properties@.skip(j as int), n),
            decreases properties@.len() - j,
        {
            assert(properties@.skip(j as int)[0] == properties@[j as int]);
            assert(properties@.skip(j as int).drop_first() =~= properties@.skip(j + 1));
            let (span, property) = &properties[j];
            match check_property(property, span, &d) {
                Ok(()) => {},
                Err(e) => return Err(e),
            }
            j += 1;
        }
    }
    Ok(LTLProgram { initial, commands, properties })
}

} // verus!
