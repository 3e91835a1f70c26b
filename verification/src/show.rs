use vstd::prelude::*;

use crate::ast::{
    AExpr, AOp, BExpr, ChannelFormula, Field, Function, LTLFormula, Locator, LogicOp, Operation,
    OperationP, Quantifier, RelOp, Target, TargetDecl,
};
use crate::state_text::join;
use crate::text::{digit_char, int_text, nat_text};

verus! {

broadcast use vstd::string::axiom_spec_iter;

// ---------------------------------------------------------------------------
// Writing text into a buffer of characters.

/// `std`'s `String: FromIterator<&char>`: the string of the characters in order.
#[verifier::external_body]
pub(crate) fn string_of(v: &Vec<char>) -> (r: String)
    ensures
        r@ == v@,
{
    v.iter().collect()
}

/// Appends the characters of `s`.
pub(crate) fn write_str(out: &mut Vec<char>, s: &str)
    ensures
        final(out)@ == old(out)@ + s@,
{
    let ghost start = out@;
    for c in it: s.chars()
        invariant
            it.seq() == s@,
            out@ == start + it.seq().take(it.index() as int),
    {
        let ghost before = out@;
        out.push(c);
        assert(out@ =~= start + it.seq().take(it.index() as int + 1));
    }
    assert(s@.take(s@.len() as int) =~= s@);
}

fn write_digits(out: &mut Vec<char>, n: u64)
    ensures
        final(out)@ == old(out)@ + nat_text(n as nat),
    decreases n,
{
    let ghost start = out@;
    if n >= 10 {
        write_digits(out, n / 10);
    }
    let d = n % 10;
    let c = if d == 0 {
        '0'
    } else if d == 1 {
        '1'
    } else if d == 2 {
        '2'
    } else if d == 3 {
        '3'
    } else if d == 4 {
        '4'
    } else if d == 5 {
        '5'
    } else if d == 6 {
        '6'
    } else if d == 7 {
        '7'
    } else if d == 8 {
        '8'
    } else {
        '9'
    };
    assert(c == digit_char(d as nat));
    out.push(c);
    assert(out@ =~= start + nat_text(n as nat));
}

/// Appends `n` in decimal.
pub(crate) fn write_int(out: &mut Vec<char>, n: i32)
    ensures
        final(out)@ == old(out)@ + int_text(n as int),
{
    let ghost start = out@;
    if n < 0 {
        out.push('-');
        write_digits(out, (0i64 - (n as i64)) as u64);
    } else {
        write_digits(out, n as u64);
    }
    assert(out@ =~= start + int_text(n as int));
}

/// Appends `n` in decimal.
pub(crate) fn write_u32(out: &mut Vec<char>, n: u32)
    ensures
        final(out)@ == old(out)@ + nat_text(n as nat),
{
    write_digits(out, n as u64);
}

// ---------------------------------------------------------------------------
// Expressions.

pub open spec fn aop_text(op: AOp) -> Seq<char> {
    match op {
        AOp::Plus => seq!['+'],
        AOp::Minus => seq!['-'],
        AOp::Times => seq!['*'],
        AOp::Divide => seq!['/'],
    }
}

pub open spec fn relop_text(op: RelOp) -> Seq<char> {
    match op {
        RelOp::Eq => seq!['='],
        RelOp::Gt => seq!['>'],
        RelOp::Ge => seq!['>', '='],
        RelOp::Ne => seq!['!', '='],
        RelOp::Lt => seq!['<'],
        RelOp::Le => seq!['<', '='],
    }
}

pub open spec fn logicop_text(op: LogicOp) -> Seq<char> {
    match op {
        LogicOp::And => seq!['&', '&'],
        LogicOp::Land => seq!['&'],
        LogicOp::Or => seq!['|', '|'],
        LogicOp::Lor => seq!['|'],
        LogicOp::Implies => seq!['=', '=', '>'],
    }
}

pub open spec fn quantifier_text(q: Quantifier) -> Seq<char> {
    match q {
        Quantifier::Exists => seq!['e', 'x', 'i', 's', 't', 's'],
        Quantifier::Forall => seq!['f', 'o', 'r', 'a', 'l', 'l'],
    }
}

pub open spec fn bool_text(b: bool) -> Seq<char> {
    if b {
        seq!['t', 'r', 'u', 'e']
    } else {
        seq!['f', 'a', 'l', 's', 'e']
    }
}

pub open spec fn function_name(f: Function) -> Seq<char> {
    match f {
        Function::Division(_, _) => seq!['d', 'i', 'v', 'i', 's', 'i', 'o', 'n'],
        Function::Min(_, _) => seq!['m', 'i', 'n'],
        Function::Max(_, _) => seq!['m', 'a', 'x'],
        Function::Fac(_) => seq!['f', 'a', 'c'],
        Function::Fib(_) => seq!['f', 'i', 'b'],
        Function::Exp(_, _) => seq!['e', 'x', 'p'],
    }
}

/// `a[i]` for an array cell, the name for a variable.
pub open spec fn target_text(t: Target) -> Seq<char>
    decreases t,
{
    match t {
        Target::Variable(v) => v.0@,
        Target::Array(a, idx) => a.0@ + seq!['['] + aexpr_text(*idx) + seq![']'],
    }
}

pub open spec fn aexpr_text(e: AExpr) -> Seq<char>
    decreases e,
{
    match e {
        AExpr::Number(n) => int_text(n as int),
        AExpr::Reference(t) => target_text(t),
        AExpr::Binary(l, op, r) => seq!['('] + aexpr_text(*l) + seq![' '] + aop_text(op) + seq![' '] + aexpr_text(*r)
            + seq![')'],
        AExpr::Minus(m) => seq!['-'] + aexpr_text(*m),
        AExpr::Function(f) => function_text(f),
        AExpr::Old(t) => seq!['o', 'l', 'd', '('] + target_text(t) + seq![')'],
    }
}

/// The function's name and its arguments, separated by `, `, in parentheses.
pub open spec fn function_text(f: Function) -> Seq<char>
    decreases f,
{
    let args = match f {
        Function::Division(a, b) => aexpr_text(*a) + seq![',', ' '] + aexpr_text(*b),
        Function::Min(a, b) => aexpr_text(*a) + seq![',', ' '] + aexpr_text(*b),
        Function::Max(a, b) => aexpr_text(*a) + seq![',', ' '] + aexpr_text(*b),
        Function::Fac(a) => aexpr_text(*a),
        Function::Fib(a) => aexpr_text(*a),
        Function::Exp(a, b) => aexpr_text(*a) + seq![',', ' '] + aexpr_text(*b),
    };
    function_name(f) + seq!['('] + args + seq![')']
}

pub open spec fn field_text(f: Field) -> Seq<char> {
    match f {
        Field::Expression(e) => aexpr_text(e),
        Field::Any => seq!['_'],
        Field::Target(t) => seq!['?'] + target_text(t),
    }
}

pub open spec fn aexprs_text(s: Seq<AExpr>) -> Seq<char> {
    join(s.map_values(|e: AExpr| aexpr_text(e)), seq![','])
}

pub open spec fn fields_text(s: Seq<Field>) -> Seq<char> {
    join(s.map_values(|f: Field| field_text(f)), seq![','])
}

pub open spec fn operation_text(op: Operation) -> Seq<char> {
    match op {
        Operation::Put(t, args) => t.0@ + seq!['.', 'p', 'u', 't', 'P', '('] + aexprs_text(args@) + seq![')'],
        Operation::Get(t, fields) => t.0@ + seq!['.', 'g', 'e', 't', 'P', '('] + fields_text(fields@) + seq![')'],
        Operation::Query(t, fields) => t.0@ + seq!['.', 'q', 'u', 'e', 'r', 'y', 'P', '('] + fields_text(fields@)
            + seq![')'],
    }
}

pub open spec fn operation_p_text(op: OperationP) -> Seq<char> {
    match op {
        OperationP::PutP(t, args) => t.0@ + seq!['.', 'p', 'u', 't', 'P', '('] + aexprs_text(args@) + seq![')'],
        OperationP::GetP(t, fields) => t.0@ + seq!['.', 'g', 'e', 't', 'P', '('] + fields_text(fields@) + seq![')'],
        OperationP::QueryP(t, fields) => t.0@ + seq!['.', 'q', 'u', 'e', 'r', 'y', 'P', '('] + fields_text(fields@)
            + seq![')'],
    }
}

pub open spec fn bexpr_text(b: BExpr) -> Seq<char>
    decreases b,
{
    match b {
        BExpr::Bool(x) => bool_text(x),
        BExpr::Rel(l, op, r) => seq!['('] + aexpr_text(l) + seq![' '] + relop_text(op) + seq![' '] + aexpr_text(r)
            + seq![')'],
        BExpr::Logic(l, op, r) => seq!['('] + bexpr_text(*l) + seq![' '] + logicop_text(op) + seq![' '] + bexpr_text(
            *r,
        ) + seq![')'],
        BExpr::Not(x) => seq!['!'] + bexpr_text(*x),
        BExpr::Quantified(q, x, body) => seq!['('] + quantifier_text(q) + seq![' '] + x.0@ + seq![' ', ':', ':', ' ']
            + bexpr_text(*body) + seq![')'],
        BExpr::OP(op) => operation_p_text(op),
    }
}

fn write_aop(out: &mut Vec<char>, op: AOp)
    ensures
        final(out)@ == old(out)@ + aop_text(op),
{
    let ghost start = out@;
    let c = match op {
        AOp::Plus => '+',
        AOp::Minus => '-',
        AOp::Times => '*',
        AOp::Divide => '/',
    };
    out.push(c);
    assert(out@ =~= start + aop_text(op));
}

fn write_relop(out: &mut Vec<char>, op: RelOp)
    ensures
        final(out)@ == old(out)@ + relop_text(op),
{
    let ghost start = out@;
    match op {
        RelOp::Eq => out.push('='),
        RelOp::Gt => out.push('>'),
        RelOp::Ge => {
            out.push('>');
            out.push('=');
        },
        RelOp::Ne => {
            out.push('!');
            out.push('=');
        },
        RelOp::Lt => out.push('<'),
        RelOp::Le => {
            out.push('<');
            out.push('=');
        },
    }
    assert(out@ =~= start + relop_text(op));
}

fn write_logicop(out: &mut Vec<char>, op: LogicOp)
    ensures
        final(out)@ == old(out)@ + logicop_text(op),
{
    let ghost start = out@;
    match op {
        LogicOp::And => {
            out.push('&');
            out.push('&');
        },
        LogicOp::Land => out.push('&'),
        LogicOp::Or => {
            out.push('|');
            out.push('|');
        },
        LogicOp::Lor => out.push('|'),
        LogicOp::Implies => {
            out.push('=');
            out.push('=');
            out.push('>');
        },
    }
    assert(out@ =~= start + logicop_text(op));
}

pub(crate) fn write_chars(out: &mut Vec<char>, cs: &[char])
    ensures
        final(out)@ == old(out)@ + cs@,
{
    let ghost start = out@;
    let mut i: usize = 0;
    while i < cs.len()
        invariant
            i <= cs@.len(),
            out@ == start + cs@.take(i as int),
        decreases cs@.len() - i,
    {
        out.push(cs[i]);
        assert(out@ =~= start + cs@.take(i + 1));
        i += 1;
    }
    assert(cs@.take(cs@.len() as int) =~= cs@);
}

pub(crate) fn write_target(out: &mut Vec<char>, t: &Target)
    ensures
        final(out)@ == old(out)@ + target_text(*t),
    decreases t,
{
    let ghost start = out@;
    match t {
        Target::Variable(v) => write_str(out, v.0.as_str()),
        Target::Array(a, idx) => {
            write_str(out, a.0.as_str());
            out.push('[');
            write_aexpr(out, idx);
            out.push(']');
        },
    }
    assert(out@ =~= start + target_text(*t));
}

pub(crate) fn write_aexpr(out: &mut Vec<char>, e: &AExpr)
    ensures
        final(out)@ == old(out)@ + aexpr_text(*e),
    decreases e,
{
    let ghost start = out@;
    match e {
        AExpr::Number(n) => write_int(out, *n),
        AExpr::Reference(t) => write_target(out, t),
        AExpr::Binary(l, op, r) => {
            out.push('(');
            write_aexpr(out, l);
            out.push(' ');
            write_aop(out, *op);
            out.push(' ');
            write_aexpr(out, r);
            out.push(')');
        },
        AExpr::Minus(m) => {
            out.push('-');
            write_aexpr(out, m);
        },
        AExpr::Function(f) => write_function(out, f),
        AExpr::Old(t) => {
            write_chars(out, &['o', 'l', 'd', '(']);
            write_target(out, t);
            out.push(')');
        },
    }
    assert(out@ =~= start + aexpr_text(*e));
}

fn write_function(out: &mut Vec<char>, f: &Function)
    ensures
        final(out)@ == old(out)@ + function_text(*f),
    decreases f,
{
    let ghost start = out@;
    match f {
        Function::Division(_, _) => write_chars(out, &['d', 'i', 'v', 'i', 's', 'i', 'o', 'n']),
        Function::Min(_, _) => write_chars(out, &['m', 'i', 'n']),
        Function::Max(_, _) => write_chars(out, &['m', 'a', 'x']),
        Function::Fac(_) => write_chars(out, &['f', 'a', 'c']),
        Function::Fib(_) => write_chars(out, &['f', 'i', 'b']),
        Function::Exp(_, _) => write_chars(out, &['e', 'x', 'p']),
    }
    out.push('(');
    match f {
        Function::Division(a, b) | Function::Min(a, b) | Function::Max(a, b) | Function::Exp(a, b) => {
            write_aexpr(out, a);
            out.push(',');
            out.push(' ');
            write_aexpr(out, b);
        },
        Function::Fac(a) | Function::Fib(a) => write_aexpr(out, a),
    }
    out.push(')');
    assert(out@ =~= start + function_text(*f));
}

pub(crate) fn write_field(out: &mut Vec<char>, f: &Field)
    ensures
        final(out)@ == old(out)@ + field_text(*f),
{
    let ghost start = out@;
    match f {
        Field::Expression(e) => write_aexpr(out, e),
        Field::Any => out.push('_'),
        Field::Target(t) => {
            out.push('?');
            write_target(out, t);
        },
    }
    assert(out@ =~= start + field_text(*f));
}

fn write_aexprs(out: &mut Vec<char>, s: &Vec<AExpr>)
    ensures
        final(out)@ == old(out)@ + aexprs_text(s@),
{
    let ghost start = out@;
    let ghost texts = s@.map_values(|e: AExpr| aexpr_text(e));
    let mut i: usize = 0;
    assert(texts.take(0) =~= Seq::<Seq<char>>::empty());
    while i < s.len()
        invariant
            i <= s@.len(),
            texts == s@.map_values(|e: AExpr| aexpr_text(e)),
            out@ == start + join(texts.take(i as int), seq![',']),
        decreases s@.len() - i,
    {
        let ghost ps = texts.take(i + 1);
        assert(ps.drop_last() =~= texts.take(i as int));
        if i > 0 {
            out.push(',');
        }
        write_aexpr(out, &s[i]);
        proof {
            if i == 0 {
                assert(ps.len() == 1);
                assert(join(texts.take(0), seq![',']) =~= Seq::<char>::empty());
            }
        }
        assert(out@ =~= start + join(ps, seq![',']));
        i += 1;
    }
    assert(texts.take(texts.len() as int) =~= texts);
}

fn write_fields(out: &mut Vec<char>, s: &Vec<Field>)
    ensures
        final(out)@ == old(out)@ + fields_text(s@),
{
    let ghost start = out@;
    let ghost texts = s@.map_values(|f: Field| field_text(f));
    let mut i: usize = 0;
    assert(texts.take(0) =~= Seq::<Seq<char>>::empty());
    while i < s.len()
        invariant
            i <= s@.len(),
            texts == s@.map_values(|f: Field| field_text(f)),
            out@ == start + join(texts.take(i as int), seq![',']),
        decreases s@.len() - i,
    {
        let ghost ps = texts.take(i + 1);
        assert(ps.drop_last() =~= texts.take(i as int));
        if i > 0 {
            out.push(',');
        }
        write_field(out, &s[i]);
        proof {
            if i == 0 {
                assert(ps.len() == 1);
                assert(join(texts.take(0), seq![',']) =~= Seq::<char>::empty());
            }
        }
        assert(out@ =~= start + join(ps, seq![',']));
        i += 1;
    }
    assert(texts.take(texts.len() as int) =~= texts);
}

pub(crate) fn write_operation(out: &mut Vec<char>, op: &Operation)
    ensures
        final(out)@ == old(out)@ + operation_text(*op),
{
    let ghost start = out@;
    match op {
        Operation::Put(t, args) => {
            write_str(out, t.0.as_str());
            write_chars(out, &['.', 'p', 'u', 't', 'P', '(']);
            write_aexprs(out, args);
        },
        Operation::Get(t, fields) => {
            write_str(out, t.0.as_str());
            write_chars(out, &['.', 'g', 'e', 't', 'P', '(']);
            write_fields(out, fields);
        },
        Operation::Query(t, fields) => {
            write_str(out, t.0.as_str());
            write_chars(out, &['.', 'q', 'u', 'e', 'r', 'y', 'P', '(']);
            write_fields(out, fields);
        },
    }
    out.push(')');
    assert(out@ =~= start + operation_text(*op));
}

pub(crate) fn write_operation_p(out: &mut Vec<char>, op: &OperationP)
    ensures
        final(out)@ == old(out)@ + operation_p_text(*op),
{
    let ghost start = out@;
    match op {
        OperationP::PutP(t, args) => {
            write_str(out, t.0.as_str());
            write_chars(out, &['.', 'p', 'u', 't', 'P', '(']);
            write_aexprs(out, args);
        },
        OperationP::GetP(t, fields) => {
            write_str(out, t.0.as_str());
            write_chars(out, &['.', 'g', 'e', 't', 'P', '(']);
            write_fields(out, fields);
        },
        OperationP::QueryP(t, fields) => {
            write_str(out, t.0.as_str());
            write_chars(out, &['.', 'q', 'u', 'e', 'r', 'y', 'P', '(']);
            write_fields(out, fields);
        },
    }
    out.push(')');
    assert(out@ =~= start + operation_p_text(*op));
}

pub(crate) fn write_bool(out: &mut Vec<char>, b: bool)
    ensures
        final(out)@ == old(out)@ + bool_text(b),
{
    if b {
        write_chars(out, &['t', 'r', 'u', 'e']);
    } else {
        write_chars(out, &['f', 'a', 'l', 's', 'e']);
    }
}

pub(crate) fn write_bexpr(out: &mut Vec<char>, b: &BExpr)
    ensures
        final(out)@ == old(out)@ + bexpr_text(*b),
    decreases b,
{
    let ghost start = out@;
    match b {
        BExpr::Bool(x) => write_bool(out, *x),
        BExpr::Rel(l, op, r) => {
            out.push('(');
            write_aexpr(out, l);
            out.push(' ');
            write_relop(out, *op);
            out.push(' ');
            write_aexpr(out, r);
            out.push(')');
        },
        BExpr::Logic(l, op, r) => {
            out.push('(');
            write_bexpr(out, l);
            out.push(' ');
            write_logicop(out, *op);
            out.push(' ');
            write_bexpr(out, r);
            out.push(')');
        },
        BExpr::Not(x) => {
            out.push('!');
            write_bexpr(out, x);
        },
        BExpr::Quantified(q, x, body) => {
            out.push('(');
            match q {
                Quantifier::Exists => write_chars(out, &['e', 'x', 'i', 's', 't', 's']),
                Quantifier::Forall => write_chars(out, &['f', 'o', 'r', 'a', 'l', 'l']),
            }
            out.push(' ');
            write_str(out, x.0.as_str());
            write_chars(out, &[' ', ':', ':', ' ']);
            write_bexpr(out, body);
            out.push(')');
        },
        BExpr::OP(op) => write_operation_p(out, op),
    }
    assert(out@ =~= start + bexpr_text(*b));
}

// ---------------------------------------------------------------------------
// Properties.

pub open spec fn locator_text(l: Locator) -> Seq<char> {
    match l {
        Locator::Init => seq!['i', 'n', 'i', 't'],
        Locator::Stuck => seq!['s', 't', 'u', 'c', 'k'],
        Locator::Terminated => seq!['t', 'e', 'r', 'm', 'i', 'n', 'a', 't', 'e', 'd'],
    }
}

pub open spec fn cf_text(cf: ChannelFormula) -> Seq<char> {
    match cf {
        ChannelFormula::ChannelHead(c, e) => c.0@ + seq!['?'] + aexpr_text(e),
        ChannelFormula::ChannelContains(c, e) => c.0@ + seq!['?', '?'] + aexpr_text(e),
    }
}

pub open spec fn ltl_text(f: LTLFormula) -> Seq<char>
    decreases f,
{
    match f {
        LTLFormula::Bool(b) => bool_text(b),
        LTLFormula::Locator(l) => locator_text(l),
        LTLFormula::Rel(a, op, b) => seq!['('] + aexpr_text(a) + seq![' '] + relop_text(op) + seq![' '] + aexpr_text(b)
            + seq![')'],
        LTLFormula::OperationP(op) => operation_p_text(op),
        LTLFormula::ChannelFormula(cf) => cf_text(cf),
        LTLFormula::Not(x) => seq!['!'] + ltl_text(*x),
        LTLFormula::And(x, y) => seq!['('] + ltl_text(*x) + seq![' ', '&', ' '] + ltl_text(*y) + seq![')'],
        LTLFormula::Or(x, y) => seq!['('] + ltl_text(*x) + seq![' ', '|', ' '] + ltl_text(*y) + seq![')'],
        LTLFormula::Implies(x, y) => seq!['('] + ltl_text(*x) + seq![' ', '=', '=', '>', ' '] + ltl_text(*y) + seq![')'],
        LTLFormula::Until(x, y) => seq!['('] + ltl_text(*x) + seq![' ', 'U', ' '] + ltl_text(*y) + seq![')'],
        LTLFormula::Next(x) => seq!['X', '('] + ltl_text(*x) + seq![')'],
        LTLFormula::Globally(x) => seq!['G', '('] + ltl_text(*x) + seq![')'],
        LTLFormula::Finally(x) => seq!['F', '('] + ltl_text(*x) + seq![')'],
    }
}

pub(crate) fn write_locator(out: &mut Vec<char>, l: Locator)
    ensures
        final(out)@ == old(out)@ + locator_text(l),
{
    match l {
        Locator::Init => write_chars(out, &['i', 'n', 'i', 't']),
        Locator::Stuck => write_chars(out, &['s', 't', 'u', 'c', 'k']),
        Locator::Terminated => write_chars(out, &['t', 'e', 'r', 'm', 'i', 'n', 'a', 't', 'e', 'd']),
    }
}

pub(crate) fn write_cf(out: &mut Vec<char>, cf: &ChannelFormula)
    ensures
        final(out)@ == old(out)@ + cf_text(*cf),
{
    let ghost start = out@;
    match cf {
        ChannelFormula::ChannelHead(c, e) => {
            write_str(out, c.0.as_str());
            out.push('?');
            write_aexpr(out, e);
        },
        ChannelFormula::ChannelContains(c, e) => {
            write_str(out, c.0.as_str());
            out.push('?');
            out.push('?');
            write_aexpr(out, e);
        },
    }
    assert(out@ =~= start + cf_text(*cf));
}

pub(crate) fn write_ltl(out: &mut Vec<char>, f: &LTLFormula)
    ensures
        final(out)@ == old(out)@ + ltl_text(*f),
    decreases f,
{
    let ghost start = out@;
    match f {
        LTLFormula::Bool(b) => write_bool(out, *b),
        LTLFormula::Locator(l) => write_locator(out, *l),
        LTLFormula::Rel(a, op, b) => {
            out.push('(');
            write_aexpr(out, a);
            out.push(' ');
            write_relop(out, *op);
            out.push(' ');
            write_aexpr(out, b);
            out.push(')');
        },
        LTLFormula::OperationP(op) => write_operation_p(out, op),
        LTLFormula::ChannelFormula(cf) => write_cf(out, cf),
        LTLFormula::Not(x) => {
            out.push('!');
            write_ltl(out, x);
        },
        LTLFormula::And(x, y) => {
            out.push('(');
            write_ltl(out, x);
            write_chars(out, &[' ', '&', ' ']);
            write_ltl(out, y);
            out.push(')');
        },
        LTLFormula::Or(x, y) => {
            out.push('(');
            write_ltl(out, x);
            write_chars(out, &[' ', '|', ' ']);
            write_ltl(out, y);
            out.push(')');
        },
        LTLFormula::Implies(x, y) => {
            out.push('(');
            write_ltl(out, x);
            write_chars(out, &[' ', '=', '=', '>', ' ']);
            write_ltl(out, y);
            out.push(')');
        },
        LTLFormula::Until(x, y) => {
            out.push('(');
            write_ltl(out, x);
            write_chars(out, &[' ', 'U', ' ']);
            write_ltl(out, y);
            out.push(')');
        },
        LTLFormula::Next(x) => {
            write_chars(out, &['X', '(']);
            write_ltl(out, x);
            out.push(')');
        },
        LTLFormula::Globally(x) => {
            write_chars(out, &['G', '(']);
            write_ltl(out, x);
            out.push(')');
        },
        LTLFormula::Finally(x) => {
            write_chars(out, &['F', '(']);
            write_ltl(out, x);
            out.push(')');
        },
    }
    assert(out@ =~= start + ltl_text(*f));
}

// ---------------------------------------------------------------------------
// Text methods.

impl AExpr {
    /// The expression as text.
    pub fn to_string(&self) -> (r: String)
        ensures
            r@ == aexpr_text(*self),
    {
        let mut out: Vec<char> = Vec::new();
        write_aexpr(&mut out, self);
        assert(out@ =~= aexpr_text(*self));
        string_of(&out)
    }
}

impl Target {
    /// The target as text.
    pub fn to_string(&self) -> (r: String)
        ensures
            r@ == target_text(*self),
    {
        let mut out: Vec<char> = Vec::new();
        write_target(&mut out, self);
        assert(out@ =~= target_text(*self));
        string_of(&out)
    }
}

impl TargetDecl {
    /// The name of the variable or array.
    pub fn to_string(&self) -> (r: String)
        ensures
            r@ == match self {
                TargetDecl::Variable(v) => v.0@,
                TargetDecl::Array(a) => a.0@,
            },
    {
        match self {
            TargetDecl::Variable(v) => v.0.clone(),
            TargetDecl::Array(a) => a.0.clone(),
        }
    }
}

impl BExpr {
    /// The expression as text.
    pub fn to_string(&self) -> (r: String)
        ensures
            r@ == bexpr_text(*self),
    {
        let mut out: Vec<char> = Vec::new();
        write_bexpr(&mut out, self);
        assert(out@ =~= bexpr_text(*self));
        string_of(&out)
    }
}

impl Operation {
    /// The operation as text.
    pub fn to_string(&self) -> (r: String)
        ensures
            r@ == operation_text(*self),
    {
        let mut out: Vec<char> = Vec::new();
        write_operation(&mut out, self);
        assert(out@ =~= operation_text(*self));
        string_of(&out)
    }
}

impl LTLFormula {
    /// The formula as text.
    pub fn to_string(&self) -> (r: String)
        ensures
            r@ == ltl_text(*self),
    {
        let mut out: Vec<char> = Vec::new();
        write_ltl(&mut out, self);
        assert(out@ =~= ltl_text(*self));
        string_of(&out)
    }
}

} // verus!
