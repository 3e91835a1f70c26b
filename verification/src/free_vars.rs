use vstd::prelude::*;

use crate::ast::{
    AExpr, BExpr, Command, CommandKind, CommunicationGuard, Field, Function, Guard, Operation,
    OperationP, Target, TargetDecl, Variable, CG,
};
use crate::order::{decls_view, elems, insert_sorted, strictly_sorted, DeclV};

verus! {

// ---------------------------------------------------------------------------
// The locations a piece of syntax mentions. A quantifier binds its variable
// in its body.

pub open spec fn fv_target(t: Target) -> Set<DeclV>
    decreases t,
{
    match t {
        Target::Variable(v) => set![DeclV::Variable(v.0@)],
        Target::Array(a, idx) => set![DeclV::Array(a.0@)].union(fv_aexpr(*idx)),
    }
}

pub open spec fn fv_aexpr(e: AExpr) -> Set<DeclV>
    decreases e,
{
    match e {
        AExpr::Number(_) => Set::empty(),
        AExpr::Reference(t) => fv_target(t),
        AExpr::Binary(l, _, r) => fv_aexpr(*l).union(fv_aexpr(*r)),
        AExpr::Minus(m) => fv_aexpr(*m),
        AExpr::Function(f) => fv_function(f),
        AExpr::Old(t) => fv_target(t),
    }
}

pub open spec fn fv_function(f: Function) -> Set<DeclV>
    decreases f,
{
    match f {
        Function::Division(a, b) => fv_aexpr(*a).union(fv_aexpr(*b)),
        Function::Min(a, b) => fv_aexpr(*a).union(fv_aexpr(*b)),
        Function::Max(a, b) => fv_aexpr(*a).union(fv_aexpr(*b)),
        Function::Fac(a) => fv_aexpr(*a),
        Function::Fib(a) => fv_aexpr(*a),
        Function::Exp(a, b) => fv_aexpr(*a).union(fv_aexpr(*b)),
    }
}

pub open spec fn fv_aexprs(s: Seq<AExpr>) -> Set<DeclV>
    decreases s.len(),
{
    if s.len() == 0 {
        Set::empty()
    } else {
        fv_aexprs(s.drop_last()).union(fv_aexpr(s.last()))
    }
}

pub open spec fn fv_field(f: Field) -> Set<DeclV> {
    match f {
        Field::Expression(e) => fv_aexpr(e),
        Field::Any => Set::empty(),
        Field::Target(t) => fv_target(t),
    }
}

pub open spec fn fv_fields(s: Seq<Field>) -> Set<DeclV>
    decreases s.len(),
{
    if s.len() == 0 {
        Set::empty()
    } else {
        fv_fields(s.drop_last()).union(fv_field(s.last()))
    }
}

pub open spec fn fv_operation_p(op: OperationP) -> Set<DeclV> {
    match op {
        OperationP::PutP(_, args) => fv_aexprs(args@),
        OperationP::GetP(_, fields) => fv_fields(fields@),
        OperationP::QueryP(_, fields) => fv_fields(fields@),
    }
}

pub open spec fn fv_bexpr(b: BExpr) -> Set<DeclV>
    decreases b,
{
    match b {
        BExpr::Bool(_) => Set::empty(),
        BExpr::Rel(l, _, r) => fv_aexpr(l).union(fv_aexpr(r)),
        BExpr::Logic(l, _, r) => fv_bexpr(*l).union(fv_bexpr(*r)),
        BExpr::Not(x) => fv_bexpr(*x),
        BExpr::Quantified(_, v, body) => fv_bexpr(*body).remove(DeclV::Variable(v.0@)),
        BExpr::OP(op) => fv_operation_p(op),
    }
}

pub open spec fn fv_cg(g: CG) -> Set<DeclV> {
    match g {
        CG::BoolExpression(b) => fv_bexpr(b),
        CG::Send(_, e) => fv_aexpr(e),
        CG::Receive(_, t) => fv_target(t),
    }
}

pub open spec fn fv_operation(op: Operation) -> Set<DeclV> {
    match op {
        Operation::Put(_, args) => fv_aexprs(args@),
        Operation::Get(_, fields) => fv_fields(fields@),
        Operation::Query(_, fields) => fv_fields(fields@),
    }
}

pub open spec fn fv_cmd(c: Command) -> Set<DeclV>
    decreases c,
{
    match c.kind {
        CommandKind::Assignment(t, e) => fv_target(t).union(fv_aexpr(e)),
        CommandKind::Skip => Set::empty(),
        CommandKind::Placeholder => Set::empty(),
        CommandKind::If(gs) => fv_guards(gs@),
        CommandKind::IfCG(gs) => fv_cguards(gs@),
        CommandKind::Loop(gs) => fv_guards(gs@),
        CommandKind::LoopCG(gs) => fv_cguards(gs@),
        CommandKind::O(op) => fv_operation(op),
        CommandKind::Send(_, e) => fv_aexpr(e),
        CommandKind::Receive(_, t) => fv_target(t),
        CommandKind::Broadcast(_, _, e) => fv_aexpr(e),
        CommandKind::Gather(_, _, a, t) => set![DeclV::Array(a.0@)].union(fv_target(t)),
    }
}

pub open spec fn fv_cmds(cs: Seq<Command>) -> Set<DeclV>
    decreases cs,
{
    if cs.len() == 0 {
        Set::empty()
    } else {
        fv_cmds(cs.drop_last()).union(fv_cmd(cs.last()))
    }
}

pub open spec fn fv_guards(gs: Seq<Guard>) -> Set<DeclV>
    decreases gs,
{
    if gs.len() == 0 {
        Set::empty()
    } else {
        fv_guards(gs.drop_last()).union(fv_bexpr(gs.last().guard)).union(fv_cmds(gs.last().cmds.0@))
    }
}

pub open spec fn fv_cguards(gs: Seq<CommunicationGuard>) -> Set<DeclV>
    decreases gs,
{
    if gs.len() == 0 {
        Set::empty()
    } else {
        fv_cguards(gs.drop_last()).union(fv_cg(gs.last().guard)).union(fv_cmds(gs.last().cmds.0@))
    }
}

// ---------------------------------------------------------------------------
// Collecting the locations into a strictly sorted list.

/// The set a strictly sorted list stands for.
pub open spec fn acc_set(acc: Seq<TargetDecl>) -> Set<DeclV> {
    elems(decls_view(acc))
}

pub open spec fn acc_ok(acc: Seq<TargetDecl>) -> bool {
    strictly_sorted(decls_view(acc))
}

pub fn collect_target(t: &Target, acc: &mut Vec<TargetDecl>)
    requires
        acc_ok(old(acc)@),
    ensures
        acc_ok(final(acc)@),
        acc_set(final(acc)@) == acc_set(old(acc)@).union(fv_target(*t)),
    decreases t,
{
    let ghost a0 = acc_set(acc@);
    match t {
        Target::Variable(v) => {
            insert_sorted(acc, TargetDecl::Variable(v.clone()));
            assert(acc_set(acc@) =~= a0.union(fv_target(*t)));
        },
        Target::Array(a, idx) => {
            insert_sorted(acc, TargetDecl::Array(a.clone()));
            collect_aexpr(idx, acc);
            assert(acc_set(acc@) =~= a0.union(fv_target(*t)));
        },
    }
}

pub fn collect_aexpr(e: &AExpr, acc: &mut Vec<TargetDecl>)
    requires
        acc_ok(old(acc)@),
    ensures
        acc_ok(final(acc)@),
        acc_set(final(acc)@) == acc_set(old(acc)@).union(fv_aexpr(*e)),
    decreases e,
{
    let ghost a0 = acc_set(acc@);
    match e {
        AExpr::Number(_) => {
            assert(acc_set(acc@) =~= a0.union(fv_aexpr(*e)));
        },
        AExpr::Reference(t) => collect_target(t, acc),
        AExpr::Binary(l, _, r) => {
            collect_aexpr(l, acc);
            collect_aexpr(r, acc);
            assert(acc_set(acc@) =~= a0.union(fv_aexpr(*e)));
        },
        AExpr::Minus(m) => collect_aexpr(m, acc),
        AExpr::Function(f) => collect_function(f, acc),
        AExpr::Old(t) => collect_target(t, acc),
    }
}

pub fn collect_function(f: &Function, acc: &mut Vec<TargetDecl>)
    requires
        acc_ok(old(acc)@),
    ensures
        acc_ok(final(acc)@),
        acc_set(final(acc)@) == acc_set(old(acc)@).union(fv_function(*f)),
    decreases f,
{
    let ghost a0 = acc_set(acc@);
    match f {
        Function::Division(a, b) | Function::Min(a, b) | Function::Max(a, b) | Function::Exp(a, b) => {
            collect_aexpr(a, acc);
            collect_aexpr(b, acc);
            assert(acc_set(acc@) =~= a0.union(fv_function(*f)));
        },
        Function::Fac(a) | Function::Fib(a) => collect_aexpr(a, acc),
    }
}

pub fn collect_aexprs(s: &Vec<AExpr>, acc: &mut Vec<TargetDecl>)
    requires
        acc_ok(old(acc)@),
    ensures
        acc_ok(final(acc)@),
        acc_set(final(acc)@) == acc_set(old(acc)@).union(fv_aexprs(s@)),
{
    let ghost a0 = acc_set(acc@);
    let mut i: usize = 0;
    assert(s@.take(0) =~= Seq::<AExpr>::empty());
    assert(a0.union(fv_aexprs(s@.take(0))) =~= a0);
    while i < s.len()
        invariant
            i <= s@.len(),
            acc_ok(acc@),
            acc_set(acc@) == a0.union(fv_aexprs(s@.take(i as int))),
        decreases s@.len() - i,
    {
        collect_aexpr(&s[i], acc);
        assert(s@.take(i + 1).drop_last() =~= s@.take(i as int));
        i += 1;
        assert(acc_set(acc@) =~= a0.union(fv_aexprs(s@.take(i as int))));
    }
    assert(s@.take(s@.len() as int) =~= s@);
}

pub fn collect_field(f: &Field, acc: &mut Vec<TargetDecl>)
    requires
        acc_ok(old(acc)@),
    ensures
        acc_ok(final(acc)@),
        acc_set(final(acc)@) == acc_set(old(acc)@).union(fv_field(*f)),
{
    match f {
        Field::Expression(e) => collect_aexpr(e, acc),
        Field::Any => {
            assert(acc_set(acc@) =~= acc_set(acc@).union(fv_field(*f)));
        },
        Field::Target(t) => collect_target(t, acc),
    }
}

pub fn collect_fields(s: &Vec<Field>, acc: &mut Vec<TargetDecl>)
    requires
        acc_ok(old(acc)@),
    ensures
        acc_ok(final(acc)@),
        acc_set(final(acc)@) == acc_set(old(acc)@).union(fv_fields(s@)),
{
    let ghost a0 = acc_set(acc@);
    let mut i: usize = 0;
    assert(s@.take(0) =~= Seq::<Field>::empty());
    assert(a0.union(fv_fields(s@.take(0))) =~= a0);
    while i < s.len()
        invariant
            i <= s@.len(),
            acc_ok(acc@),
            acc_set(acc@) == a0.union(fv_fields(s@.take(i as int))),
        decreases s@.len() - i,
    {
        collect_field(&s[i], acc);
        assert(s@.take(i + 1).drop_last() =~= s@.take(i as int));
        i += 1;
        assert(acc_set(acc@) =~= a0.union(fv_fields(s@.take(i as int))));
    }
    assert(s@.take(s@.len() as int) =~= s@);
}

pub fn collect_operation_p(op: &OperationP, acc: &mut Vec<TargetDecl>)
    requires
        acc_ok(old(acc)@),
    ensures
        acc_ok(final(acc)@),
        acc_set(final(acc)@) == acc_set(old(acc)@).union(fv_operation_p(*op)),
{
    match op {
        OperationP::PutP(_, args) => collect_aexprs(args, acc),
        OperationP::GetP(_, fields) => collect_fields(fields, acc),
        OperationP::QueryP(_, fields) => collect_fields(fields, acc),
    }
}

pub fn collect_operation(op: &Operation, acc: &mut Vec<TargetDecl>)
    requires
        acc_ok(old(acc)@),
    ensures
        acc_ok(final(acc)@),
        acc_set(final(acc)@) == acc_set(old(acc)@).union(fv_operation(*op)),
{
    match op {
        Operation::Put(_, args) => collect_aexprs(args, acc),
        Operation::Get(_, fields) => collect_fields(fields, acc),
        Operation::Query(_, fields) => collect_fields(fields, acc),
    }
}

/// Adds the elements of `src` other than the variable `v`.
fn merge_without(src: &Vec<TargetDecl>, v: &Variable, acc: &mut Vec<TargetDecl>)
    requires
        acc_ok(old(acc)@),
    ensures
        acc_ok(final(acc)@),
        acc_set(final(acc)@) == acc_set(old(acc)@).union(acc_set(src@).remove(DeclV::Variable(v.0@))),
{
    let ghost a0 = acc_set(acc@);
    let ghost bound = DeclV::Variable(v.0@);
    let mut i: usize = 0;
    while i < src.len()
        invariant
            i <= src@.len(),
            acc_ok(acc@),
            acc_set(acc@) == a0.union(acc_set(src@.take(i as int)).remove(bound)),
            bound == DeclV::Variable(v.0@),
        decreases src@.len() - i,
    {
        let ghost before = acc_set(acc@);
        let skip = match &src[i] {
            TargetDecl::Variable(w) => w.0 == v.0,
            TargetDecl::Array(_) => false,
        };
        assert(skip == (src@[i as int]@ == bound));
        if !skip {
            let d = src[i].clone();
            insert_sorted(acc, d);
            assert(acc_set(acc@) == before.insert(src@[i as int]@));
        } else {
            assert(acc_set(acc@) == before);
        }
        proof {
            let t0 = decls_view(src@.take(i as int));
            let t1 = decls_view(src@.take(i + 1));
            assert(t1 =~= t0.push(src@[i as int]@));
            assert forall|x: DeclV| #[trigger] elems(t1).contains(x) == (elems(t0).contains(x) || x == src@[i as int]@) by {
                if t1.contains(x) {
                    let k = choose|k: int| 0 <= k < t1.len() && t1[k] == x;
                    if k < t0.len() {
                        assert(t0[k] == x);
                    }
                }
                if t0.contains(x) {
                    let k = choose|k: int| 0 <= k < t0.len() && t0[k] == x;
                    assert(t1[k] == x);
                }
                if x == src@[i as int]@ {
                    assert(t1[i as int] == x);
                }
            }
            assert(acc_set(acc@) =~= a0.union(acc_set(src@.take(i + 1)).remove(bound)));
        }
        i += 1;
    }
    assert(src@.take(src@.len() as int) =~= src@);
}

pub fn collect_bexpr(b: &BExpr, acc: &mut Vec<TargetDecl>)
    requires
        acc_ok(old(acc)@),
    ensures
        acc_ok(final(acc)@),
        acc_set(final(acc)@) == acc_set(old(acc)@).union(fv_bexpr(*b)),
    decreases b,
{
    let ghost a0 = acc_set(acc@);
    match b {
        BExpr::Bool(_) => {
            assert(acc_set(acc@) =~= a0.union(fv_bexpr(*b)));
        },
        BExpr::Rel(l, _, r) => {
            collect_aexpr(l, acc);
            collect_aexpr(r, acc);
            assert(acc_set(acc@) =~= a0.union(fv_bexpr(*b)));
        },
        BExpr::Logic(l, _, r) => {
            collect_bexpr(l, acc);
            collect_bexpr(r, acc);
            assert(acc_set(acc@) =~= a0.union(fv_bexpr(*b)));
        },
        BExpr::Not(x) => collect_bexpr(x, acc),
        BExpr::Quantified(_, v, body) => {
            let mut inner: Vec<TargetDecl> = Vec::new();
            assert(acc_set(inner@) =~= Set::<DeclV>::empty());
            collect_bexpr(body, &mut inner);
            assert(acc_set(inner@) =~= fv_bexpr(**body));
            merge_without(&inner, v, acc);
        },
        BExpr::OP(op) => collect_operation_p(op, acc),
    }
}

pub fn collect_cg(g: &CG, acc: &mut Vec<TargetDecl>)
    requires
        acc_ok(old(acc)@),
    ensures
        acc_ok(final(acc)@),
        acc_set(final(acc)@) == acc_set(old(acc)@).union(fv_cg(*g)),
{
    match g {
        CG::BoolExpression(b) => collect_bexpr(b, acc),
        CG::Send(_, e) => collect_aexpr(e, acc),
        CG::Receive(_, t) => collect_target(t, acc),
    }
}

pub fn collect_cmd(c: &Command, acc: &mut Vec<TargetDecl>)
    requires
        acc_ok(old(acc)@),
    ensures
        acc_ok(final(acc)@),
        acc_set(final(acc)@) == acc_set(old(acc)@).union(fv_cmd(*c)),
    decreases c, 0int,
{
    let ghost a0 = acc_set(acc@);
    match &c.kind {
        CommandKind::Assignment(t, e) => {
            collect_target(t, acc);
            collect_aexpr(e, acc);
            assert(acc_set(acc@) =~= a0.union(fv_cmd(*c)));
        },
        CommandKind::Skip | CommandKind::Placeholder => {
            assert(acc_set(acc@) =~= a0.union(fv_cmd(*c)));
        },
        CommandKind::If(gs) | CommandKind::Loop(gs) => collect_guards(gs, acc),
        CommandKind::IfCG(gs) | CommandKind::LoopCG(gs) => collect_cguards(gs, acc),
        CommandKind::O(op) => collect_operation(op, acc),
        CommandKind::Send(_, e) => collect_aexpr(e, acc),
        CommandKind::Receive(_, t) => collect_target(t, acc),
        CommandKind::Broadcast(_, _, e) => collect_aexpr(e, acc),
        CommandKind::Gather(_, _, a, t) => {
            insert_sorted(acc, TargetDecl::Array(a.clone()));
            collect_target(t, acc);
            assert(acc_set(acc@) =~= a0.union(fv_cmd(*c)));
        },
    }
}

pub fn collect_cmds(cs: &Vec<Command>, acc: &mut Vec<TargetDecl>)
    requires
        acc_ok(old(acc)@),
    ensures
        acc_ok(final(acc)@),
        acc_set(final(acc)@) == acc_set(old(acc)@).union(fv_cmds(cs@)),
    decreases cs@, 1int,
{
    let ghost a0 = acc_set(acc@);
    let mut i: usize = 0;
    assert(cs@.take(0) =~= Seq::<Command>::empty());
    assert(a0.union(fv_cmds(cs@.take(0))) =~= a0);
    while i < cs.len()
        invariant
            i <= cs@.len(),
            acc_ok(acc@),
            acc_set(acc@) == a0.union(fv_cmds(cs@.take(i as int))),
        decreases cs@.len() - i,
    {
        collect_cmd(&cs[i], acc);
        assert(cs@.take(i + 1).drop_last() =~= cs@.take(i as int));
        i += 1;
        assert(acc_set(acc@) =~= a0.union(fv_cmds(cs@.take(i as int))));
    }
    assert(cs@.take(cs@.len() as int) =~= cs@);
}

pub fn collect_guards(gs: &Vec<Guard>, acc: &mut Vec<TargetDecl>)
    requires
        acc_ok(old(acc)@),
    ensures
        acc_ok(final(acc)@),
        acc_set(final(acc)@) == acc_set(old(acc)@).union(fv_guards(gs@)),
    decreases gs@, 1int,
{
    let ghost a0 = acc_set(acc@);
    let mut i: usize = 0;
    assert(gs@.take(0) =~= Seq::<Guard>::empty());
    assert(a0.union(fv_guards(gs@.take(0))) =~= a0);
    while i < gs.len()
        invariant
            i <= gs@.len(),
            acc_ok(acc@),
            acc_set(acc@) == a0.union(fv_guards(gs@.take(i as int))),
        decreases gs@.len() - i,
    {
        collect_bexpr(&gs[i].guard, acc);
        collect_cmds(&gs[i].cmds.0, acc);
        assert(gs@.take(i + 1).drop_last() =~= gs@.take(i as int));
        i += 1;
        assert(acc_set(acc@) =~= a0.union(fv_guards(gs@.take(i as int))));
    }
    assert(gs@.take(gs@.len() as int) =~= gs@);
}

pub fn collect_cguards(gs: &Vec<CommunicationGuard>, acc: &mut Vec<TargetDecl>)
    requires
        acc_ok(old(acc)@),
    ensures
        acc_ok(final(acc)@),
        acc_set(final(acc)@) == acc_set(old(acc)@).union(fv_cguards(gs@)),
    decreases gs@, 1int,
{
    let ghost a0 = acc_set(acc@);
    let mut i: usize = 0;
    assert(gs@.take(0) =~= Seq::<CommunicationGuard>::empty());
    assert(a0.union(fv_cguards(gs@.take(0))) =~= a0);
    while i < gs.len()
        invariant
            i <= gs@.len(),
            acc_ok(acc@),
            acc_set(acc@) == a0.union(fv_cguards(gs@.take(i as int))),
        decreases gs@.len() - i,
    {
        collect_cg(&gs[i].guard, acc);
        collect_cmds(&gs[i].cmds.0, acc);
        assert(gs@.take(i + 1).drop_last() =~= gs@.take(i as int));
        i += 1;
        assert(acc_set(acc@) =~= a0.union(fv_cguards(gs@.take(i as int))));
    }
    assert(gs@.take(gs@.len() as int) =~= gs@);
}

} // verus!
