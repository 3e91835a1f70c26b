use vstd::prelude::*;

use vstd::string::*;

use crate::ast::{
    clone_aexpr, AExpr, ChannelFormula, Field, Function, LTLFormula, Locator, OperationP, RelOp,
    Target,
};
use crate::semantics::{
    first_index, is_first, lemma_first_index_found, lemma_first_index_none, lemma_first_index_some,
};
use crate::text::{nat_text, push_nat};

verus! {

// ---------------------------------------------------------------------------
// Formulas of linear temporal logic over named propositions, as a model
// checker takes them.

/// A formula over named propositions.
pub enum LtlExpr {
    True,
    False,
    Literal(String),
    Not(Box<LtlExpr>),
    And(Box<LtlExpr>, Box<LtlExpr>),
    Or(Box<LtlExpr>, Box<LtlExpr>),
    Until(Box<LtlExpr>, Box<LtlExpr>),
    Next(Box<LtlExpr>),
    Globally(Box<LtlExpr>),
    Finally(Box<LtlExpr>),
}

/// A formula over named propositions, as a plain value.
pub enum LtlV {
    True,
    False,
    Literal(Seq<char>),
    Not(Box<LtlV>),
    And(Box<LtlV>, Box<LtlV>),
    Or(Box<LtlV>, Box<LtlV>),
    Until(Box<LtlV>, Box<LtlV>),
    Next(Box<LtlV>),
    Globally(Box<LtlV>),
    Finally(Box<LtlV>),
}

pub open spec fn ltl_view(e: LtlExpr) -> LtlV
    decreases e,
{
    match e {
        LtlExpr::True => LtlV::True,
        LtlExpr::False => LtlV::False,
        LtlExpr::Literal(s) => LtlV::Literal(s@),
        LtlExpr::Not(x) => LtlV::Not(Box::new(ltl_view(*x))),
        LtlExpr::And(x, y) => LtlV::And(Box::new(ltl_view(*x)), Box::new(ltl_view(*y))),
        LtlExpr::Or(x, y) => LtlV::Or(Box::new(ltl_view(*x)), Box::new(ltl_view(*y))),
        LtlExpr::Until(x, y) => LtlV::Until(Box::new(ltl_view(*x)), Box::new(ltl_view(*y))),
        LtlExpr::Next(x) => LtlV::Next(Box::new(ltl_view(*x))),
        LtlExpr::Globally(x) => LtlV::Globally(Box::new(ltl_view(*x))),
        LtlExpr::Finally(x) => LtlV::Finally(Box::new(ltl_view(*x))),
    }
}

// ---------------------------------------------------------------------------
// Structural equality, names compared by their text.

pub open spec fn target_eqv(a: Target, b: Target) -> bool
    decreases a,
{
    match (a, b) {
        (Target::Variable(x), Target::Variable(y)) => x.0@ == y.0@,
        (Target::Array(x, i), Target::Array(y, j)) => x.0@ == y.0@ && aexpr_eqv(*i, *j),
        _ => false,
    }
}

pub open spec fn aexpr_eqv(a: AExpr, b: AExpr) -> bool
    decreases a,
{
    match (a, b) {
        (AExpr::Number(x), AExpr::Number(y)) => x == y,
        (AExpr::Reference(x), AExpr::Reference(y)) => target_eqv(x, y),
        (AExpr::Binary(l1, o1, r1), AExpr::Binary(l2, o2, r2)) => aexpr_eqv(*l1, *l2) && o1 == o2
            && aexpr_eqv(*r1, *r2),
        (AExpr::Minus(x), AExpr::Minus(y)) => aexpr_eqv(*x, *y),
        (AExpr::Function(f), AExpr::Function(g)) => function_eqv(f, g),
        (AExpr::Old(x), AExpr::Old(y)) => target_eqv(x, y),
        _ => false,
    }
}

pub open spec fn function_eqv(f: Function, g: Function) -> bool
    decreases f,
{
    match (f, g) {
        (Function::Division(a1, b1), Function::Division(a2, b2)) => aexpr_eqv(*a1, *a2) && aexpr_eqv(*b1, *b2),
        (Function::Min(a1, b1), Function::Min(a2, b2)) => aexpr_eqv(*a1, *a2) && aexpr_eqv(*b1, *b2),
        (Function::Max(a1, b1), Function::Max(a2, b2)) => aexpr_eqv(*a1, *a2) && aexpr_eqv(*b1, *b2),
        (Function::Fac(a1), Function::Fac(a2)) => aexpr_eqv(*a1, *a2),
        (Function::Fib(a1), Function::Fib(a2)) => aexpr_eqv(*a1, *a2),
        (Function::Exp(a1, b1), Function::Exp(a2, b2)) => aexpr_eqv(*a1, *a2) && aexpr_eqv(*b1, *b2),
        _ => false,
    }
}

pub open spec fn field_eqv(a: Field, b: Field) -> bool {
    match (a, b) {
        (Field::Expression(x), Field::Expression(y)) => aexpr_eqv(x, y),
        (Field::Any, Field::Any) => true,
        (Field::Target(x), Field::Target(y)) => target_eqv(x, y),
        _ => false,
    }
}

pub open spec fn aexprs_eqv(s: Seq<AExpr>, t: Seq<AExpr>) -> bool {
    s.len() == t.len() && forall|i: int| 0 <= i < s.len() ==> #[trigger] aexpr_eqv(s[i], t[i])
}

pub open spec fn fields_eqv(s: Seq<Field>, t: Seq<Field>) -> bool {
    s.len() == t.len() && forall|i: int| 0 <= i < s.len() ==> #[trigger] field_eqv(s[i], t[i])
}

/// An operation as a plain value: its kind, tuple space, arguments and fields.
pub open spec fn op_key(op: OperationP) -> (int, Seq<char>, Seq<AExpr>, Seq<Field>) {
    match op {
        OperationP::PutP(n, args) => (0, n.0@, args@, seq![]),
        OperationP::GetP(n, fields) => (1, n.0@, seq![], fields@),
        OperationP::QueryP(n, fields) => (2, n.0@, seq![], fields@),
    }
}

pub open spec fn op_key_eqv(a: (int, Seq<char>, Seq<AExpr>, Seq<Field>), b: (int, Seq<char>, Seq<AExpr>, Seq<Field>)) -> bool {
    a.0 == b.0 && a.1 == b.1 && aexprs_eqv(a.2, b.2) && fields_eqv(a.3, b.3)
}

pub open spec fn rel_eqv(a: (AExpr, RelOp, AExpr), b: (AExpr, RelOp, AExpr)) -> bool {
    aexpr_eqv(a.0, b.0) && a.1 == b.1 && aexpr_eqv(a.2, b.2)
}

pub open spec fn cf_eqv(a: ChannelFormula, b: ChannelFormula) -> bool {
    match (a, b) {
        (ChannelFormula::ChannelHead(c, e), ChannelFormula::ChannelHead(d, f)) => c.0@ == d.0@ && aexpr_eqv(e, f),
        (ChannelFormula::ChannelContains(c, e), ChannelFormula::ChannelContains(d, f)) => c.0@ == d.0@
            && aexpr_eqv(e, f),
        _ => false,
    }
}

fn target_equal(a: &Target, b: &Target) -> (r: bool)
    ensures
        r == target_eqv(*a, *b),
    decreases a,
{
    match (a, b) {
        (Target::Variable(x), Target::Variable(y)) => x.0 == y.0,
        (Target::Array(x, i), Target::Array(y, j)) => x.0 == y.0 && aexpr_equal(i, j),
        _ => false,
    }
}

fn aexpr_equal(a: &AExpr, b: &AExpr) -> (r: bool)
    ensures
        r == aexpr_eqv(*a, *b),
    decreases a,
{
    match (a, b) {
        (AExpr::Number(x), AExpr::Number(y)) => *x == *y,
        (AExpr::Reference(x), AExpr::Reference(y)) => target_equal(x, y),
        (AExpr::Binary(l1, o1, r1), AExpr::Binary(l2, o2, r2)) => aexpr_equal(l1, l2) && *o1 == *o2
            && aexpr_equal(r1, r2),
        (AExpr::Minus(x), AExpr::Minus(y)) => aexpr_equal(x, y),
        (AExpr::Function(f), AExpr::Function(g)) => function_equal(f, g),
        (AExpr::Old(x), AExpr::Old(y)) => target_equal(x, y),
        _ => false,
    }
}

fn function_equal(f: &Function, g: &Function) -> (r: bool)
    ensures
        r == function_eqv(*f, *g),
    decreases f,
{
    match (f, g) {
        (Function::Division(a1, b1), Function::Division(a2, b2)) => aexpr_equal(a1, a2) && aexpr_equal(b1, b2),
        (Function::Min(a1, b1), Function::Min(a2, b2)) => aexpr_equal(a1, a2) && aexpr_equal(b1, b2),
        (Function::Max(a1, b1), Function::Max(a2, b2)) => aexpr_equal(a1, a2) && aexpr_equal(b1, b2),
        (Function::Fac(a1), Function::Fac(a2)) => aexpr_equal(a1, a2),
        (Function::Fib(a1), Function::Fib(a2)) => aexpr_equal(a1, a2),
        (Function::Exp(a1, b1), Function::Exp(a2, b2)) => aexpr_equal(a1, a2) && aexpr_equal(b1, b2),
        _ => false,
    }
}

fn field_equal(a: &Field, b: &Field) -> (r: bool)
    ensures
        r == field_eqv(*a, *b),
{
    match (a, b) {
        (Field::Expression(x), Field::Expression(y)) => aexpr_equal(x, y),
        (Field::Any, Field::Any) => true,
        (Field::Target(x), Field::Target(y)) => target_equal(x, y),
        _ => false,
    }
}

fn aexprs_equal(s: &Vec<AExpr>, t: &Vec<AExpr>) -> (r: bool)
    ensures
        r == aexprs_eqv(s@, t@),
{
    if s.len() != t.len() {
        return false;
    }
    let mut i: usize = 0;
    while i < s.len()
        invariant
            i <= s@.len(),
            s@.len() == t@.len(),
            forall|j: int| 0 <= j < i ==> #[trigger] aexpr_eqv(s@[j], t@[j]),
        decreases s@.len() - i,
    {
        if !aexpr_equal(&s[i], &t[i]) {
            return false;
        }
        i += 1;
    }
    true
}

fn fields_equal(s: &Vec<Field>, t: &Vec<Field>) -> (r: bool)
    ensures
        r == fields_eqv(s@, t@),
{
    if s.len() != t.len() {
        return false;
    }
    let mut i: usize = 0;
    while i < s.len()
        invariant
            i <= s@.len(),
            s@.len() == t@.len(),
            forall|j: int| 0 <= j < i ==> #[trigger] field_eqv(s@[j], t@[j]),
        decreases s@.len() - i,
    {
        if !field_equal(&s[i], &t[i]) {
            return false;
        }
        i += 1;
    }
    true
}

fn op_equal(a: &OperationP, b: &OperationP) -> (r: bool)
    ensures
        r == op_key_eqv(op_key(*a), op_key(*b)),
{
    match (a, b) {
        (OperationP::PutP(n, x), OperationP::PutP(m, y)) => n.0 == m.0 && aexprs_equal(x, y),
        (OperationP::GetP(n, x), OperationP::GetP(m, y)) => {
            assert(aexprs_eqv(seq![], seq![]));
            n.0 == m.0 && fields_equal(x, y)
        },
        (OperationP::QueryP(n, x), OperationP::QueryP(m, y)) => {
            assert(aexprs_eqv(seq![], seq![]));
            n.0 == m.0 && fields_equal(x, y)
        },
        _ => false,
    }
}

fn cf_equal(a: &ChannelFormula, b: &ChannelFormula) -> (r: bool)
    ensures
        r == cf_eqv(*a, *b),
{
    match (a, b) {
        (ChannelFormula::ChannelHead(c, e), ChannelFormula::ChannelHead(d, f)) => c.0 == d.0 && aexpr_equal(e, f),
        (ChannelFormula::ChannelContains(c, e), ChannelFormula::ChannelContains(d, f)) => c.0 == d.0
            && aexpr_equal(e, f),
        _ => false,
    }
}

fn clone_field(f: &Field) -> (r: Field)
    ensures
        r == *f,
{
    match f {
        Field::Expression(e) => Field::Expression(clone_aexpr(e)),
        Field::Any => Field::Any,
        Field::Target(t) => Field::Target(t.clone()),
    }
}

fn clone_operation_p(op: &OperationP) -> (r: OperationP)
    ensures
        op_key(r) == op_key(*op),
{
    match op {
        OperationP::PutP(n, args) => {
            let mut v: Vec<AExpr> = Vec::new();
            let mut i: usize = 0;
            while i < args.len()
                invariant
                    i <= args@.len(),
                    v@ == args@.take(i as int),
                decreases args@.len() - i,
            {
                v.push(clone_aexpr(&args[i]));
                assert(v@ =~= args@.take(i + 1));
                i += 1;
            }
            assert(args@.take(args@.len() as int) =~= args@);
            OperationP::PutP(n.clone(), v)
        },
        OperationP::GetP(n, fields) | OperationP::QueryP(n, fields) => {
            let mut v: Vec<Field> = Vec::new();
            let mut i: usize = 0;
            while i < fields.len()
                invariant
                    i <= fields@.len(),
                    v@ == fields@.take(i as int),
                decreases fields@.len() - i,
            {
                v.push(clone_field(&fields[i]));
                assert(v@ =~= fields@.take(i + 1));
                i += 1;
            }
            assert(fields@.take(fields@.len() as int) =~= fields@);
            match op {
                OperationP::GetP(_, _) => OperationP::GetP(n.clone(), v),
                _ => OperationP::QueryP(n.clone(), v),
            }
        },
    }
}

fn clone_channel_formula(cf: &ChannelFormula) -> (r: ChannelFormula)
    ensures
        r == *cf,
{
    match cf {
        ChannelFormula::ChannelHead(c, e) => ChannelFormula::ChannelHead(c.clone(), clone_aexpr(e)),
        ChannelFormula::ChannelContains(c, e) => ChannelFormula::ChannelContains(c.clone(), clone_aexpr(e)),
    }
}

// ---------------------------------------------------------------------------
// Translation. Each comparison, operation and channel predicate becomes a
// proposition named by its position in a table (`p`, `o` and `c` and the
// position); a predicate already in the table keeps its name.

/// The tables of the propositions named so far.
pub struct Tables {
    pub rels: Seq<(AExpr, RelOp, AExpr)>,
    pub ops: Seq<(int, Seq<char>, Seq<AExpr>, Seq<Field>)>,
    pub chans: Seq<ChannelFormula>,
}

pub open spec fn locator_lit(l: Locator) -> Seq<char> {
    match l {
        Locator::Init => seq!['@', 'i', 'n', 'i', 't'],
        Locator::Stuck => seq!['@', 's', 't', 'u', 'c', 'k'],
        Locator::Terminated => seq!['@', 't', 'e', 'r', 'm', 'i', 'n', 'a', 't', 'e', 'd'],
    }
}

/// The position of the first entry equal to `x`, or the end of the table.
pub open spec fn rel_slot(t: Seq<(AExpr, RelOp, AExpr)>, x: (AExpr, RelOp, AExpr)) -> Option<int> {
    first_index(t.len() as int, |i: int| rel_eqv(t[i], x))
}

pub open spec fn op_slot(t: Seq<(int, Seq<char>, Seq<AExpr>, Seq<Field>)>, x: (int, Seq<char>, Seq<AExpr>, Seq<Field>)) -> Option<int> {
    first_index(t.len() as int, |i: int| op_key_eqv(t[i], x))
}

pub open spec fn cf_slot(t: Seq<ChannelFormula>, x: ChannelFormula) -> Option<int> {
    first_index(t.len() as int, |i: int| cf_eqv(t[i], x))
}

pub open spec fn named(prefix: char, i: int) -> LtlV {
    LtlV::Literal(seq![prefix] + nat_text(i as nat))
}

pub open spec fn translate(f: LTLFormula, t: Tables) -> (LtlV, Tables)
    decreases f,
{
    match f {
        LTLFormula::Bool(b) => (if b { LtlV::True } else { LtlV::False }, t),
        LTLFormula::Locator(l) => (LtlV::Literal(locator_lit(l)), t),
        LTLFormula::Rel(l, o, r) => match rel_slot(t.rels, (l, o, r)) {
            Some(i) => (named('p', i), t),
            None => (named('p', t.rels.len() as int), Tables { rels: t.rels.push((l, o, r)), ..t }),
        },
        LTLFormula::OperationP(op) => match op_slot(t.ops, op_key(op)) {
            Some(i) => (named('o', i), t),
            None => (named('o', t.ops.len() as int), Tables { ops: t.ops.push(op_key(op)), ..t }),
        },
        LTLFormula::ChannelFormula(cf) => match cf_slot(t.chans, cf) {
            Some(i) => (named('c', i), t),
            None => (named('c', t.chans.len() as int), Tables { chans: t.chans.push(cf), ..t }),
        },
        LTLFormula::Not(x) => {
            let (a, t1) = translate(*x, t);
            (LtlV::Not(Box::new(a)), t1)
        },
        LTLFormula::And(x, y) => {
            let (a, t1) = translate(*x, t);
            let (b, t2) = translate(*y, t1);
            (LtlV::And(Box::new(a), Box::new(b)), t2)
        },
        LTLFormula::Or(x, y) => {
            let (a, t1) = translate(*x, t);
            let (b, t2) = translate(*y, t1);
            (LtlV::Or(Box::new(a), Box::new(b)), t2)
        },
        LTLFormula::Implies(x, y) => {
            let (a, t1) = translate(*x, t);
            let (b, t2) = translate(*y, t1);
            (LtlV::Or(Box::new(LtlV::Not(Box::new(a))), Box::new(b)), t2)
        },
        LTLFormula::Until(x, y) => {
            let (a, t1) = translate(*x, t);
            let (b, t2) = translate(*y, t1);
            (LtlV::Until(Box::new(a), Box::new(b)), t2)
        },
        LTLFormula::Next(x) => {
            let (a, t1) = translate(*x, t);
            (LtlV::Next(Box::new(a)), t1)
        },
        LTLFormula::Globally(x) => {
            let (a, t1) = translate(*x, t);
            (LtlV::Globally(Box::new(a)), t1)
        },
        LTLFormula::Finally(x) => {
            let (a, t1) = translate(*x, t);
            (LtlV::Finally(Box::new(a)), t1)
        },
    }
}

pub open spec fn tables_of(
    rels: Seq<(AExpr, RelOp, AExpr)>,
    ops: Seq<OperationP>,
    chans: Seq<ChannelFormula>,
) -> Tables {
    Tables { rels, ops: ops.map_values(|o: OperationP| op_key(o)), chans }
}

impl Locator {
    /// The name of the proposition that holds in the states of this kind.
    pub fn to_lit(&self) -> (r: String)
        ensures
            r@ == locator_lit(*self),
    {
        proof {
            reveal_strlit("@init");
            reveal_strlit("@stuck");
            reveal_strlit("@terminated");
        }
        match self {
            Locator::Init => String::from_str("@init"),
            Locator::Stuck => String::from_str("@stuck"),
            Locator::Terminated => String::from_str("@terminated"),
        }
    }
}

/// The proposition named by `prefix` and a position.
fn literal(prefix: &str, i: usize) -> (r: LtlExpr)
    ensures
        prefix@.len() == 1 ==> ltl_view(r) == named(prefix@[0], i as int),
{
    let s = push_nat(String::from_str(prefix), i as u64);
    proof {
        if prefix@.len() == 1 {
            assert(prefix@ =~= seq![prefix@[0]]);
        }
    }
    LtlExpr::Literal(s)
}

impl LTLFormula {
    /// The formula over named propositions; the predicates it mentions are
    /// added to the tables, each once.
    pub fn to_mcltl(
        &self,
        rels: &mut Vec<(AExpr, RelOp, AExpr)>,
        operations: &mut Vec<OperationP>,
        channels: &mut Vec<ChannelFormula>,
    ) -> (r: LtlExpr)
        ensures
            translate(*self, tables_of(old(rels)@, old(operations)@, old(channels)@)) == (
                ltl_view(r),
                tables_of(final(rels)@, final(operations)@, final(channels)@),
            ),
        decreases self,
    {
        proof {
            reveal_strlit("p");
            reveal_strlit("o");
            reveal_strlit("c");
        }
        match self {
            LTLFormula::Bool(b) => {
                if *b {
                    LtlExpr::True
                } else {
                    LtlExpr::False
                }
            },
            LTLFormula::Locator(l) => LtlExpr::Literal(l.to_lit()),
            LTLFormula::Rel(lhs, op, rhs) => {
                let ghost x = (*lhs, *op, *rhs);
                let ghost pred = |i: int| rel_eqv(rels@[i], x);
                let n = rels.len();
                let mut i: usize = 0;
                while i < n
                    invariant
                        n == rels@.len(),
                        i <= n,
                        pred == (|i: int| rel_eqv(rels@[i], x)),
                        *self == LTLFormula::Rel(*lhs, *op, *rhs),
                        rels@ == old(rels)@,
                        operations@ == old(operations)@,
                        channels@ == old(channels)@,
                        x == (*lhs, *op, *rhs),
                        forall|j: int| 0 <= j < i ==> !#[trigger] pred(j),
                    decreases n - i,
                {
                    let (l, o, r) = &rels[i];
                    if aexpr_equal(l, lhs) && *o == *op && aexpr_equal(r, rhs) {
                        proof {
                            assert(pred(i as int));
                            assert(is_first(n as int, pred, i as int));
                            lemma_first_index_found(n as int, pred, i as int);
                            reveal_strlit("p");
                        }
                        return literal("p", i);
                    }
                    assert(!pred(i as int));
                    i += 1;
                }
                proof {
                    lemma_first_index_none(n as int, pred);
                }
                rels.push((clone_aexpr(lhs), *op, clone_aexpr(rhs)));
                literal("p", n)
            },
            LTLFormula::OperationP(o) => {
                let ghost x = op_key(*o);
                let ghost keys = operations@.map_values(|q: OperationP| op_key(q));
                let ghost pred = |i: int| op_key_eqv(keys[i], x);
                let n = operations.len();
                let mut i: usize = 0;
                while i < n
                    invariant
                        n == operations@.len(),
                        i <= n,
                        keys == operations@.map_values(|q: OperationP| op_key(q)),
                        pred == (|i: int| op_key_eqv(keys[i], x)),
                        *self == LTLFormula::OperationP(*o),
                        rels@ == old(rels)@,
                        operations@ == old(operations)@,
                        channels@ == old(channels)@,
                        x == op_key(*o),
                        forall|j: int| 0 <= j < i ==> !#[trigger] pred(j),
                    decreases n - i,
                {
                    if op_equal(&operations[i], o) {
                        proof {
                            assert(pred(i as int));
                            assert(is_first(n as int, pred, i as int));
                            lemma_first_index_found(n as int, pred, i as int);
                            reveal_strlit("o");
                        }
                        return literal("o", i);
                    }
                    assert(!pred(i as int));
                    i += 1;
                }
                proof {
                    lemma_first_index_none(n as int, pred);
                }
                let c = clone_operation_p(o);
                operations.push(c);
                assert(operations@.map_values(|q: OperationP| op_key(q)) =~= keys.push(x));
                literal("o", n)
            },
            LTLFormula::ChannelFormula(cf) => {
                let ghost pred = |i: int| cf_eqv(channels@[i], *cf);
                let n = channels.len();
                let mut i: usize = 0;
                while i < n
                    invariant
                        n == channels@.len(),
                        i <= n,
                        pred == (|i: int| cf_eqv(channels@[i], *cf)),
                        *self == LTLFormula::ChannelFormula(*cf),
                        rels@ == old(rels)@,
                        operations@ == old(operations)@,
                        channels@ == old(channels)@,
                        forall|j: int| 0 <= j < i ==> !#[trigger] pred(j),
                    decreases n - i,
                {
                    if cf_equal(&channels[i], cf) {
                        proof {
                            assert(pred(i as int));
                            assert(is_first(n as int, pred, i as int));
                            lemma_first_index_found(n as int, pred, i as int);
                            reveal_strlit("c");
                        }
                        return literal("c", i);
                    }
                    assert(!pred(i as int));
                    i += 1;
                }
                proof {
                    lemma_first_index_none(n as int, pred);
                }
                channels.push(clone_channel_formula(cf));
                literal("c", n)
            },
            LTLFormula::Not(x) => {
                let a = x.to_mcltl(rels, operations, channels);
                LtlExpr::Not(Box::new(a))
            },
            LTLFormula::And(x, y) => {
                let a = x.to_mcltl(rels, operations, channels);
                let b = y.to_mcltl(rels, operations, channels);
                LtlExpr::And(Box::new(a), Box::new(b))
            },
            LTLFormula::Or(x, y) => {
                let a = x.to_mcltl(rels, operations, channels);
                let b = y.to_mcltl(rels, operations, channels);
                LtlExpr::Or(Box::new(a), Box::new(b))
            },
            LTLFormula::Implies(x, y) => {
                let a = x.to_mcltl(rels, operations, channels);
                let b = y.to_mcltl(rels, operations, channels);
                let na = LtlExpr::Not(Box::new(a));
                assert(ltl_view(na) == LtlV::Not(Box::new(ltl_view(a))));
                LtlExpr::Or(Box::new(na), Box::new(b))
            },
            LTLFormula::Until(x, y) => {
                let a = x.to_mcltl(rels, operations, channels);
                let b = y.to_mcltl(rels, operations, channels);
                LtlExpr::Until(Box::new(a), Box::new(b))
            },
            LTLFormula::Next(x) => {
                let a = x.to_mcltl(rels, operations, channels);
                LtlExpr::Next(Box::new(a))
            },
            LTLFormula::Globally(x) => {
                let a = x.to_mcltl(rels, operations, channels);
                LtlExpr::Globally(Box::new(a))
            },
            LTLFormula::Finally(x) => {
                let a = x.to_mcltl(rels, operations, channels);
                LtlExpr::Finally(Box::new(a))
            },
        }
    }
}

// ---------------------------------------------------------------------------
// Laws of the translation.

pub proof fn lemma_target_eqv_refl(t: Target)
    ensures
        target_eqv(t, t),
    decreases t,
{
    if let Target::Array(_, i) = t {
        lemma_aexpr_eqv_refl(*i);
    }
}

pub proof fn lemma_aexpr_eqv_refl(a: AExpr)
    ensures
        aexpr_eqv(a, a),
    decreases a,
{
    match a {
        AExpr::Number(_) => {},
        AExpr::Reference(t) => lemma_target_eqv_refl(t),
        AExpr::Binary(l, _, r) => {
            lemma_aexpr_eqv_refl(*l);
            lemma_aexpr_eqv_refl(*r);
        },
        AExpr::Minus(m) => lemma_aexpr_eqv_refl(*m),
        AExpr::Function(f) => lemma_function_eqv_refl(f),
        AExpr::Old(t) => lemma_target_eqv_refl(t),
    }
}

pub proof fn lemma_function_eqv_refl(f: Function)
    ensures
        function_eqv(f, f),
    decreases f,
{
    match f {
        Function::Division(a, b) | Function::Min(a, b) | Function::Max(a, b) | Function::Exp(a, b) => {
            lemma_aexpr_eqv_refl(*a);
            lemma_aexpr_eqv_refl(*b);
        },
        Function::Fac(a) | Function::Fib(a) => lemma_aexpr_eqv_refl(*a),
    }
}

proof fn lemma_op_key_eqv_refl(k: (int, Seq<char>, Seq<AExpr>, Seq<Field>))
    ensures
        op_key_eqv(k, k),
{
    assert forall|i: int| 0 <= i < k.2.len() implies #[trigger] aexpr_eqv(k.2[i], k.2[i]) by {
        lemma_aexpr_eqv_refl(k.2[i]);
    }
    assert forall|i: int| 0 <= i < k.3.len() implies #[trigger] field_eqv(k.3[i], k.3[i]) by {
        match k.3[i] {
            Field::Expression(e) => lemma_aexpr_eqv_refl(e),
            Field::Target(t) => lemma_target_eqv_refl(t),
            Field::Any => {},
        }
    }
}

proof fn lemma_cf_eqv_refl(c: ChannelFormula)
    ensures
        cf_eqv(c, c),
{
    match c {
        ChannelFormula::ChannelHead(_, e) => lemma_aexpr_eqv_refl(e),
        ChannelFormula::ChannelContains(_, e) => lemma_aexpr_eqv_refl(e),
    }
}

/// `a` is a prefix of `b`.
pub open spec fn prefix_of<T>(a: Seq<T>, b: Seq<T>) -> bool {
    a.len() <= b.len() && forall|i: int| 0 <= i < a.len() ==> #[trigger] a[i] == b[i]
}

/// Each table of `t` is a prefix of the same table of `u`.
pub open spec fn tables_le(t: Tables, u: Tables) -> bool {
    prefix_of(t.rels, u.rels) && prefix_of(t.ops, u.ops) && prefix_of(t.chans, u.chans)
}

/// A search that succeeds in a table succeeds at the same place in any
/// longer table with the same beginning.
proof fn lemma_first_index_extends(n: int, m: int, p: spec_fn(int) -> bool, q: spec_fn(int) -> bool, i: int)
    requires
        n <= m,
        forall|j: int| 0 <= j < n ==> #[trigger] p(j) == q(j),
        first_index(n, p) == Some(i),
    ensures
        first_index(m, q) == Some(i),
{
    let k = choose|k: int| is_first(n, p, k);
    assert(is_first(n, p, k));
    assert(is_first(m, q, i)) by {
        assert(p(i));
        assert forall|j: int| 0 <= j < i implies !#[trigger] q(j) by {
            assert(!p(j));
        }
    }
    lemma_first_index_found(m, q, i);
}

/// A search that fails in a table finds the entry appended after it.
proof fn lemma_first_index_appended(n: int, m: int, p: spec_fn(int) -> bool, q: spec_fn(int) -> bool)
    requires
        0 <= n < m,
        forall|j: int| 0 <= j < n ==> #[trigger] p(j) == q(j),
        first_index(n, p) is None,
        q(n),
    ensures
        first_index(m, q) == Some(n),
{
    assert forall|j: int| 0 <= j < n implies !#[trigger] q(j) by {
        if p(j) {
            lemma_first_index_some(n, p, j);
        }
    }
    assert(is_first(m, q, n));
    lemma_first_index_found(m, q, n);
}

/// Translation only appends to the tables.
pub proof fn law_translate_extends(f: LTLFormula, t: Tables)
    ensures
        tables_le(t, translate(f, t).1),
    decreases f,
{
    match f {
        LTLFormula::Not(x) | LTLFormula::Next(x) | LTLFormula::Globally(x) | LTLFormula::Finally(x) => {
            law_translate_extends(*x, t);
        },
        LTLFormula::And(x, y) | LTLFormula::Or(x, y) | LTLFormula::Implies(x, y) | LTLFormula::Until(x, y) => {
            law_translate_extends(*x, t);
            let t1 = translate(*x, t).1;
            law_translate_extends(*y, t1);
        },
        _ => {},
    }
}

/// Translating a formula again, with the tables its translation left or
/// any tables that extend them, gives the same formula and adds nothing:
/// a predicate already in a table keeps its name.
pub proof fn law_translate_stable(f: LTLFormula, t: Tables, u: Tables)
    requires
        tables_le(translate(f, t).1, u),
    ensures
        translate(f, u) == (translate(f, t).0, u),
    decreases f,
{
    match f {
        LTLFormula::Rel(l, o, r) => {
            let x = (l, o, r);
            let n = t.rels.len() as int;
            let p = |i: int| rel_eqv(t.rels[i], x);
            let q = |i: int| rel_eqv(u.rels[i], x);
            match rel_slot(t.rels, x) {
                Some(i) => {
                    assert forall|j: int| 0 <= j < n implies #[trigger] p(j) == q(j) by {
                        assert(t.rels[j] == u.rels[j]);
                    }
                    lemma_first_index_extends(n, u.rels.len() as int, p, q, i);
                },
                None => {
                    let t1 = translate(f, t).1;
                    assert(t1.rels == t.rels.push(x));
                    assert forall|j: int| 0 <= j < n implies #[trigger] p(j) == q(j) by {
                        assert(t1.rels[j] == u.rels[j]);
                    }
                    assert(t1.rels[n] == u.rels[n]);
                    lemma_aexpr_eqv_refl(l);
                    lemma_aexpr_eqv_refl(r);
                    lemma_first_index_appended(n, u.rels.len() as int, p, q);
                },
            }
        },
        LTLFormula::OperationP(op) => {
            let x = op_key(op);
            let n = t.ops.len() as int;
            let p = |i: int| op_key_eqv(t.ops[i], x);
            let q = |i: int| op_key_eqv(u.ops[i], x);
            match op_slot(t.ops, x) {
                Some(i) => {
                    assert forall|j: int| 0 <= j < n implies #[trigger] p(j) == q(j) by {
                        assert(t.ops[j] == u.ops[j]);
                    }
                    lemma_first_index_extends(n, u.ops.len() as int, p, q, i);
                },
                None => {
                    let t1 = translate(f, t).1;
                    assert(t1.ops == t.ops.push(x));
                    assert forall|j: int| 0 <= j < n implies #[trigger] p(j) == q(j) by {
                        assert(t1.ops[j] == u.ops[j]);
                    }
                    assert(t1.ops[n] == u.ops[n]);
                    lemma_op_key_eqv_refl(x);
                    lemma_first_index_appended(n, u.ops.len() as int, p, q);
                },
            }
        },
        LTLFormula::ChannelFormula(cf) => {
            let n = t.chans.len() as int;
            let p = |i: int| cf_eqv(t.chans[i], cf);
            let q = |i: int| cf_eqv(u.chans[i], cf);
            match cf_slot(t.chans, cf) {
                Some(i) => {
                    assert forall|j: int| 0 <= j < n implies #[trigger] p(j) == q(j) by {
                        assert(t.chans[j] == u.chans[j]);
                    }
                    lemma_first_index_extends(n, u.chans.len() as int, p, q, i);
                },
                None => {
                    let t1 = translate(f, t).1;
                    assert(t1.chans == t.chans.push(cf));
                    assert forall|j: int| 0 <= j < n implies #[trigger] p(j) == q(j) by {
                        assert(t1.chans[j] == u.chans[j]);
                    }
                    assert(t1.chans[n] == u.chans[n]);
                    lemma_cf_eqv_refl(cf);
                    lemma_first_index_appended(n, u.chans.len() as int, p, q);
                },
            }
        },
        LTLFormula::Not(x) | LTLFormula::Next(x) | LTLFormula::Globally(x) | LTLFormula::Finally(x) => {
            law_translate_stable(*x, t, u);
        },
        LTLFormula::And(x, y) | LTLFormula::Or(x, y) | LTLFormula::Implies(x, y) | LTLFormula::Until(x, y) => {
            let t1 = translate(*x, t).1;
            let t2 = translate(*y, t1).1;
            law_translate_extends(*y, t1);
            assert(tables_le(t1, u)) by {
                assert forall|i: int| 0 <= i < t1.rels.len() implies #[trigger] t1.rels[i] == u.rels[i] by {
                    assert(t1.rels[i] == t2.rels[i]);
                }
                assert forall|i: int| 0 <= i < t1.ops.len() implies #[trigger] t1.ops[i] == u.ops[i] by {
                    assert(t1.ops[i] == t2.ops[i]);
                }
                assert forall|i: int| 0 <= i < t1.chans.len() implies #[trigger] t1.chans[i] == u.chans[i] by {
                    assert(t1.chans[i] == t2.chans[i]);
                }
            }
            law_translate_stable(*x, t, u);
            law_translate_stable(*y, t1, u);
        },
        _ => {},
    }
}

/// No two entries of a table are the same predicate.
pub open spec fn tables_distinct(t: Tables) -> bool {
    &&& forall|i: int, j: int| 0 <= i < j < t.rels.len() ==> !rel_eqv(#[trigger] t.rels[i], #[trigger] t.rels[j])
    &&& forall|i: int, j: int| 0 <= i < j < t.ops.len() ==> !op_key_eqv(#[trigger] t.ops[i], #[trigger] t.ops[j])
    &&& forall|i: int, j: int| 0 <= i < j < t.chans.len() ==> !cf_eqv(#[trigger] t.chans[i], #[trigger] t.chans[j])
}

proof fn lemma_first_index_none_all(len: int, pred: spec_fn(int) -> bool, j: int)
    requires
        first_index(len, pred) is None,
        0 <= j < len,
    ensures
        !pred(j),
{
    if pred(j) {
        lemma_first_index_some(len, pred, j);
    }
}

proof fn lemma_first_index_found_pred(len: int, pred: spec_fn(int) -> bool, i: int)
    requires
        first_index(len, pred) == Some(i),
    ensures
        0 <= i < len,
        pred(i),
{
    let k = choose|k: int| is_first(len, pred, k);
    assert(is_first(len, pred, k));
}

/// Translation adds no predicate that is already in a table: tables without
/// duplicates stay without duplicates.
pub proof fn law_translate_no_duplicates(f: LTLFormula, t: Tables)
    requires
        tables_distinct(t),
    ensures
        tables_distinct(translate(f, t).1),
    decreases f,
{
    match f {
        LTLFormula::Rel(l, o, r) => {
            let x = (l, o, r);
            if rel_slot(t.rels, x) is None {
                let u = t.rels.push(x);
                assert forall|i: int, j: int| 0 <= i < j < u.len() implies !rel_eqv(#[trigger] u[i], #[trigger] u[j]) by {
                    if j == t.rels.len() {
                        lemma_first_index_none_all(t.rels.len() as int, |k: int| rel_eqv(t.rels[k], x), i);
                    }
                }
            }
        },
        LTLFormula::OperationP(op) => {
            let x = op_key(op);
            if op_slot(t.ops, x) is None {
                let u = t.ops.push(x);
                assert forall|i: int, j: int| 0 <= i < j < u.len() implies !op_key_eqv(#[trigger] u[i], #[trigger] u[j]) by {
                    if j == t.ops.len() {
                        lemma_first_index_none_all(t.ops.len() as int, |k: int| op_key_eqv(t.ops[k], x), i);
                    }
                }
            }
        },
        LTLFormula::ChannelFormula(cf) => {
            if cf_slot(t.chans, cf) is None {
                let u = t.chans.push(cf);
                assert forall|i: int, j: int| 0 <= i < j < u.len() implies !cf_eqv(#[trigger] u[i], #[trigger] u[j]) by {
                    if j == t.chans.len() {
                        lemma_first_index_none_all(t.chans.len() as int, |k: int| cf_eqv(t.chans[k], cf), i);
                    }
                }
            }
        },
        LTLFormula::Not(x) | LTLFormula::Next(x) | LTLFormula::Globally(x) | LTLFormula::Finally(x) => {
            law_translate_no_duplicates(*x, t);
        },
        LTLFormula::And(x, y) | LTLFormula::Or(x, y) | LTLFormula::Implies(x, y) | LTLFormula::Until(x, y) => {
            law_translate_no_duplicates(*x, t);
            law_translate_no_duplicates(*y, translate(*x, t).1);
        },
        _ => {},
    }
}

/// Each comparison, operation and channel predicate becomes the proposition
/// named by its letter and the position of an entry of the resulting table
/// that is that same predicate.
pub proof fn law_translate_names_entries(f: LTLFormula, t: Tables)
    ensures
        f matches LTLFormula::Rel(l, o, r) ==> exists|i: int|
            0 <= i < translate(f, t).1.rels.len() && translate(f, t).0 == named('p', i) && rel_eqv(
                #[trigger] translate(f, t).1.rels[i],
                (l, o, r),
            ),
        f matches LTLFormula::OperationP(op) ==> exists|i: int|
            0 <= i < translate(f, t).1.ops.len() && translate(f, t).0 == named('o', i) && op_key_eqv(
                #[trigger] translate(f, t).1.ops[i],
                op_key(op),
            ),
        f matches LTLFormula::ChannelFormula(cf) ==> exists|i: int|
            0 <= i < translate(f, t).1.chans.len() && translate(f, t).0 == named('c', i) && cf_eqv(
                #[trigger] translate(f, t).1.chans[i],
                cf,
            ),
{
    match f {
        LTLFormula::Rel(l, o, r) => {
            let x = (l, o, r);
            let pred = |k: int| rel_eqv(t.rels[k], x);
            match rel_slot(t.rels, x) {
                Some(i) => {
                    lemma_first_index_found_pred(t.rels.len() as int, pred, i);
                    assert(rel_eqv(translate(f, t).1.rels[i], x));
                },
                None => {
                    let n = t.rels.len() as int;
                    lemma_aexpr_eqv_refl(l);
                    lemma_aexpr_eqv_refl(r);
                    assert(rel_eqv(translate(f, t).1.rels[n], x));
                },
            }
        },
        LTLFormula::OperationP(op) => {
            let x = op_key(op);
            let pred = |k: int| op_key_eqv(t.ops[k], x);
            match op_slot(t.ops, x) {
                Some(i) => {
                    lemma_first_index_found_pred(t.ops.len() as int, pred, i);
                    assert(op_key_eqv(translate(f, t).1.ops[i], x));
                },
                None => {
                    let n = t.ops.len() as int;
                    lemma_op_key_eqv_refl(x);
                    assert(op_key_eqv(translate(f, t).1.ops[n], x));
                },
            }
        },
        LTLFormula::ChannelFormula(cf) => {
            let pred = |k: int| cf_eqv(t.chans[k], cf);
            match cf_slot(t.chans, cf) {
                Some(i) => {
                    lemma_first_index_found_pred(t.chans.len() as int, pred, i);
                    assert(cf_eqv(translate(f, t).1.chans[i], cf));
                },
                None => {
                    let n = t.chans.len() as int;
                    lemma_cf_eqv_refl(cf);
                    assert(cf_eqv(translate(f, t).1.chans[n], cf));
                },
            }
        },
        _ => {},
    }
}

} // verus!
