use vstd::prelude::*;

use crate::ast::{AExpr, AOp, Array, Function, Target, TargetDecl, Variable};
use crate::program::{ChannelMeta, Program, State, StepError, TupleSpaceMeta};
use crate::semantics::{
    aeval, feval, array_index, array_slot, channel_index, channel_position, factorial_wrapping,
    fibonacci_pair, first_index, is_array_named, is_channel_named, is_first, is_space_named,
    is_variable_named, lemma_first_index_found, lemma_first_index_none, power_wrapping,
    space_position, target_index, tuple_space_index, variable_index, wrapping_add_u32,
};

verus! {

// ---------------------------------------------------------------------------
// Powers, wrapping around at the boundary of `i32`, by repeated squaring.

/// The `i32` that `v` wraps around to.
pub open spec fn wrap32(v: int) -> i32 {
    vstd::wrapping::i32_specs::signed_crop(v)
}

proof fn lemma_wrap32_mod(v: int)
    ensures
        (wrap32(v) as int) % 0x1_0000_0000 == v % 0x1_0000_0000,
{
}

proof fn lemma_wrap32_eq(u: int, v: int)
    requires
        u % 0x1_0000_0000 == v % 0x1_0000_0000,
    ensures
        wrap32(u) == wrap32(v),
{
}

/// Wrapping powers are the integer powers, wrapped.
proof fn lemma_power_wrapping_wrap(a: i32, n: nat)
    ensures
        power_wrapping(a, n) == wrap32(vstd::arithmetic::power::pow(a as int, n)),
    decreases n,
{
    let m: int = 0x1_0000_0000;
    reveal(vstd::arithmetic::power::pow);
    if n > 0 {
        lemma_power_wrapping_wrap(a, (n - 1) as nat);
        let pw = power_wrapping(a, (n - 1) as nat);
        let pi = vstd::arithmetic::power::pow(a as int, (n - 1) as nat);
        lemma_wrap32_mod(pi);
        vstd::arithmetic::div_mod::lemma_mul_mod_noop_left(pw as int, a as int, m);
        vstd::arithmetic::div_mod::lemma_mul_mod_noop_left(pi, a as int, m);
        vstd::arithmetic::mul::lemma_mul_is_commutative(pi, a as int);
        lemma_wrap32_eq(pw as int * a as int, pi * a as int);
    }
}

/// Squaring the base and halving the exponent keeps the power, modulo the
/// size of `i32`.
proof fn lemma_square_step(acc: int, base: int, k: nat, accn: int, basen: int)
    requires
        accn % 0x1_0000_0000 == acc % 0x1_0000_0000,
        basen % 0x1_0000_0000 == (base * base) % 0x1_0000_0000,
    ensures
        (accn * vstd::arithmetic::power::pow(basen, k)) % 0x1_0000_0000 == (acc * vstd::arithmetic::power::pow(
            base,
            2 * k,
        )) % 0x1_0000_0000,
{
    let m: int = 0x1_0000_0000;
    let pn = vstd::arithmetic::power::pow(basen, k);
    let pb = vstd::arithmetic::power::pow(base * base, k);
    vstd::arithmetic::power::lemma_pow_mod_noop(basen, k, m);
    vstd::arithmetic::power::lemma_pow_mod_noop(base * base, k, m);
    assert(pn % m == pb % m);
    vstd::arithmetic::div_mod::lemma_mul_mod_noop_general(accn, pn, m);
    vstd::arithmetic::div_mod::lemma_mul_mod_noop_general(acc, pb, m);
    assert((accn * pn) % m == (acc * pb) % m);
    reveal(vstd::arithmetic::power::pow);
    assert(vstd::arithmetic::power::pow(base, 2) == base * base) by {
        reveal_with_fuel(vstd::arithmetic::power::pow, 3);
    }
    vstd::arithmetic::power::lemma_pow_multiplies(base, 2, k);
}

/// `a` to the power `n`, wrapping around at the boundary of `i32` (what
/// `i32::wrapping_pow` computes), by repeated squaring.
fn i32_wrapping_pow(a: i32, n: u32) -> (r: i32)
    ensures
        r == power_wrapping(a, n as nat),
{
    let ghost m: int = 0x1_0000_0000;
    let ghost target = vstd::arithmetic::power::pow(a as int, n as nat);
    let mut acc: i32 = 1;
    let mut base: i32 = a;
    let mut e: u32 = n;
    proof {
        reveal(vstd::arithmetic::power::pow);
        assert(acc * vstd::arithmetic::power::pow(base as int, e as nat) == target);
    }
    while e > 0
        invariant
            (acc * vstd::arithmetic::power::pow(base as int, e as nat)) % m == target % m,
            m == 0x1_0000_0000,
            target == vstd::arithmetic::power::pow(a as int, n as nat),
        decreases e,
    {
        let ghost (acc0, base0, e0) = (acc as int, base as int, e as nat);
        let k: u32 = e / 2;
        if e % 2 == 1 {
            acc = acc.wrapping_mul(base);
            proof {
                lemma_wrap32_mod(acc0 * base0);
                lemma_square_step(acc0 * base0, base0, k as nat, acc as int, wrap32(base0 * base0) as int);
                lemma_wrap32_mod(base0 * base0);
                reveal(vstd::arithmetic::power::pow);
                assert(vstd::arithmetic::power::pow(base0, e0) == base0 * vstd::arithmetic::power::pow(
                    base0,
                    (2 * k) as nat,
                ));
                vstd::arithmetic::mul::lemma_mul_is_associative(
                    acc0,
                    base0,
                    vstd::arithmetic::power::pow(base0, (2 * k) as nat),
                );
            }
        } else {
            proof {
                lemma_wrap32_mod(base0 * base0);
                lemma_square_step(acc0, base0, k as nat, acc0, wrap32(base0 * base0) as int);
            }
        }
        base = base.wrapping_mul(base);
        e = k;
    }
    proof {
        reveal(vstd::arithmetic::power::pow);
        lemma_power_wrapping_wrap(a, n as nat);
        lemma_wrap32_eq(acc as int, target);
    }
    acc
}

impl Program {
    pub(crate) fn variable_index(&self, name: &Variable) -> (r: Option<u32>)
        ensures
            r == variable_index(*self, name.0@),
    {
        let ghost pred = is_variable_named(*self, name.0@);
        let n = self.targets.len();
        let mut i: usize = 0;
        while i < n
            invariant
                n == self.targets@.len(),
                i <= n,
                pred == is_variable_named(*self, name.0@),
                forall|j: int| 0 <= j < i ==> !#[trigger] pred(j),
            decreases n - i,
        {
            let hit = match &self.targets[i].target {
                TargetDecl::Variable(v) => v.0 == name.0,
                _ => false,
            };
            if hit {
                proof {
                    assert(pred(i as int));
                    assert(is_first(n as int, pred, i as int));
                    lemma_first_index_found(n as int, pred, i as int);
                }
                return Some(i as u32);
            }
            assert(!pred(i as int));
            i += 1;
        }
        proof {
            lemma_first_index_none(n as int, pred);
        }
        None
    }

    /// The position in the layout of the array named `name`.
    pub(crate) fn array_slot(&self, name: &Array) -> (r: Option<usize>)
        ensures
            match r {
                Some(k) => array_slot(*self, name.0@) == Some(k as int),
                None => array_slot(*self, name.0@) is None,
            },
    {
        let ghost pred = is_array_named(*self, name.0@);
        let n = self.targets.len();
        let mut i: usize = 0;
        while i < n
            invariant
                n == self.targets@.len(),
                i <= n,
                pred == is_array_named(*self, name.0@),
                forall|j: int| 0 <= j < i ==> !#[trigger] pred(j),
            decreases n - i,
        {
            let hit = match &self.targets[i].target {
                TargetDecl::Array(a) => a.0 == name.0,
                _ => false,
            };
            if hit {
                proof {
                    assert(pred(i as int));
                    assert(is_first(n as int, pred, i as int));
                    lemma_first_index_found(n as int, pred, i as int);
                }
                return Some(i);
            }
            assert(!pred(i as int));
            i += 1;
        }
        proof {
            lemma_first_index_none(n as int, pred);
        }
        None
    }

    pub(crate) fn tuple_space_index(&self, name: &String) -> (r: Option<u32>)
        ensures
            r == tuple_space_index(*self, name@),
    {
        space_position_of(&self.tuple_spaces, name)
    }

    pub(crate) fn channel_index(&self, name: &String) -> (r: Option<u32>)
        ensures
            r == channel_index(*self, name@),
    {
        channel_position_of(&self.channels, name)
    }
}

/// The position of the first tuple space named `name`.
pub(crate) fn space_position_of(spaces: &Vec<TupleSpaceMeta>, name: &String) -> (r: Option<u32>)
    ensures
        r == space_position(spaces@, name@),
        r matches Some(i) ==> i < spaces@.len(),
{
    let ghost pred = is_space_named(spaces@, name@);
    let n = spaces.len();
    let mut i: usize = 0;
    while i < n
        invariant
            n == spaces@.len(),
            i <= n,
            pred == is_space_named(spaces@, name@),
            forall|j: int| 0 <= j < i ==> !#[trigger] pred(j),
        decreases n - i,
    {
        if spaces[i].name.0 == *name {
            proof {
                assert(pred(i as int));
                assert(is_first(n as int, pred, i as int));
                lemma_first_index_found(n as int, pred, i as int);
            }
            assert((i as u32) as usize <= i) by (bit_vector);
            return Some(i as u32);
        }
        assert(!pred(i as int));
        i += 1;
    }
    proof {
        lemma_first_index_none(n as int, pred);
    }
    None
}

/// The position of the first channel named `name`.
pub(crate) fn channel_position_of(chans: &Vec<ChannelMeta>, name: &String) -> (r: Option<u32>)
    ensures
        r == channel_position(chans@, name@),
        r matches Some(i) ==> i < chans@.len(),
{
    let ghost pred = is_channel_named(chans@, name@);
    let n = chans.len();
    let mut i: usize = 0;
    while i < n
        invariant
            n == chans@.len(),
            i <= n,
            pred == is_channel_named(chans@, name@),
            forall|j: int| 0 <= j < i ==> !#[trigger] pred(j),
        decreases n - i,
    {
        if chans[i].name.0 == *name {
            proof {
                assert(pred(i as int));
                assert(is_first(n as int, pred, i as int));
                lemma_first_index_found(n as int, pred, i as int);
            }
            assert((i as u32) as usize <= i) by (bit_vector);
            return Some(i as u32);
        }
        assert(!pred(i as int));
        i += 1;
    }
    proof {
        lemma_first_index_none(n as int, pred);
    }
    None
}

impl State {
    /// The data cell of `arr[idx_expr]`.
    pub(crate) fn array_index(&self, arr: &Array, idx_expr: &AExpr, p: &Program) -> (r: Option<
        Result<u32, StepError>,
    >)
        ensures
            r == array_index(*p, self@, arr.0@, *idx_expr),
        decreases idx_expr, 2int,
    {
        let idx = match idx_expr.eval(p, self) {
            None => return None,
            Some(Err(e)) => return Some(Err(e)),
            Some(Ok(v)) => v,
        };
        if idx < 0 {
            return Some(Err(StepError::ArrayIndexNegative));
        }
        let k = match p.array_slot(arr) {
            None => return None,
            Some(k) => k,
        };
        let meta = &p.targets[k];
        if idx as u32 >= meta.length {
            return Some(Err(StepError::ArrayIndexOutOfBounds));
        }
        Some(Ok(meta.base_index.wrapping_add(idx as u32)))
    }

    /// The data cell a target denotes.
    pub(crate) fn target_index(&self, t: &Target, p: &Program) -> (r: Option<Result<u32, StepError>>)
        ensures
            r == target_index(*p, self@, *t),
        decreases t, 0int,
    {
        match t {
            Target::Variable(v) => match p.variable_index(v) {
                Some(i) => Some(Ok(i)),
                None => None,
            },
            Target::Array(a, idx) => self.array_index(a, idx, p),
        }
    }
}

/// `1 * 2 * ... * x`, wrapping.
fn factorial(x: i32) -> (r: i32)
    requires
        x >= 0,
    ensures
        r == factorial_wrapping(x as nat),
{
    let mut acc: i32 = 1;
    let mut k: u32 = 0;
    while k < x as u32
        invariant
            0 <= x,
            k <= x as u32,
            acc == factorial_wrapping(k as nat),
        decreases x as u32 - k,
    {
        k += 1;
        acc = acc.wrapping_mul(k as i32);
    }
    acc
}

/// The `x`-th Fibonacci number, wrapping.
fn fibonacci(x: i32) -> (r: i32)
    requires
        x >= 0,
    ensures
        r == fibonacci_pair(x as nat).0,
{
    let mut a: i32 = 0;
    let mut b: i32 = 1;
    let mut k: u32 = 0;
    while k < x as u32
        invariant
            0 <= x,
            k <= x as u32,
            (a, b) == fibonacci_pair(k as nat),
        decreases x as u32 - k,
    {
        let c = a.wrapping_add(b);
        a = b;
        b = c;
        k += 1;
    }
    a
}

impl AExpr {
    /// The value of the expression in `state`; `None` where evaluation
    /// panics (a division by zero with `/`, `i32::MIN / -1`, or a name the
    /// program does not know).
    pub(crate) fn eval(&self, p: &Program, state: &State) -> (r: Option<Result<i32, StepError>>)
        ensures
            r == aeval(*p, state@, *self),
        decreases self, 1int,
    {
        match self {
            AExpr::Number(n) => Some(Ok(*n)),
            AExpr::Reference(t) => {
                let index = match state.target_index(t, p) {
                    None => return None,
                    Some(Err(e)) => return Some(Err(e)),
                    Some(Ok(i)) => i,
                };
                if (index as usize) < state.memory.data.len() {
                    Some(Ok(state.memory.data[index as usize]))
                } else {
                    None
                }
            },
            AExpr::Binary(l, op, r) => {
                let lv = match l.eval(p, state) {
                    None => return None,
                    Some(Err(e)) => return Some(Err(e)),
                    Some(Ok(v)) => v,
                };
                let rv = match r.eval(p, state) {
                    None => return None,
                    Some(Err(e)) => return Some(Err(e)),
                    Some(Ok(v)) => v,
                };
                match op {
                    AOp::Plus => Some(Ok(lv.wrapping_add(rv))),
                    AOp::Minus => Some(Ok(lv.wrapping_sub(rv))),
                    AOp::Times => Some(Ok(lv.wrapping_mul(rv))),
                    AOp::Divide => match lv.checked_div(rv) {
                        Some(q) => Some(Ok(q)),
                        None => None,
                    },
                }
            },
            AExpr::Minus(m) => match m.eval(p, state) {
                None => None,
                Some(Err(e)) => Some(Err(e)),
                Some(Ok(v)) => Some(Ok(0i32.wrapping_sub(v))),
            },
            AExpr::Function(f) => f.eval(p, state),
            AExpr::Old(_) => Some(Err(StepError::HitOld)),
        }
    }
}

impl Function {
    /// The value of a call of a built-in function.
    pub(crate) fn eval(&self, p: &Program, state: &State) -> (r: Option<Result<i32, StepError>>)
        ensures
            r == feval(*p, state@, *self),
        decreases self, 1int,
    {
        let f = self;
    match f {
            Function::Division(a, b) => {
                let av = match a.eval(p, state) {
                    None => return None,
                    Some(Err(e)) => return Some(Err(e)),
                    Some(Ok(v)) => v,
                };
                let bv = match b.eval(p, state) {
                    None => return None,
                    Some(Err(e)) => return Some(Err(e)),
                    Some(Ok(v)) => v,
                };
                if bv == 0 {
                    return Some(Err(StepError::DivisionByZero));
                }
                match av.checked_div(bv) {
                    Some(q) => Some(Ok(q)),
                    None => None,
                }
            },
            Function::Min(a, b) => {
                let av = match a.eval(p, state) {
                    None => return None,
                    Some(Err(e)) => return Some(Err(e)),
                    Some(Ok(v)) => v,
                };
                let bv = match b.eval(p, state) {
                    None => return None,
                    Some(Err(e)) => return Some(Err(e)),
                    Some(Ok(v)) => v,
                };
                Some(Ok(if av <= bv { av } else { bv }))
            },
            Function::Max(a, b) => {
                let av = match a.eval(p, state) {
                    None => return None,
                    Some(Err(e)) => return Some(Err(e)),
                    Some(Ok(v)) => v,
                };
                let bv = match b.eval(p, state) {
                    None => return None,
                    Some(Err(e)) => return Some(Err(e)),
                    Some(Ok(v)) => v,
                };
                Some(Ok(if av <= bv { bv } else { av }))
            },
            Function::Fac(x) => {
                let xv = match x.eval(p, state) {
                    None => return None,
                    Some(Err(e)) => return Some(Err(e)),
                    Some(Ok(v)) => v,
                };
                if xv < 0 {
                    return Some(Err(StepError::NegativeFactorial));
                }
                Some(Ok(factorial(xv)))
            },
            Function::Fib(x) => {
                let xv = match x.eval(p, state) {
                    None => return None,
                    Some(Err(e)) => return Some(Err(e)),
                    Some(Ok(v)) => v,
                };
                if xv < 0 {
                    return Some(Err(StepError::NegativeFibonacci));
                }
                Some(Ok(fibonacci(xv)))
            },
            Function::Exp(a, b) => {
                let av = match a.eval(p, state) {
                    None => return None,
                    Some(Err(e)) => return Some(Err(e)),
                    Some(Ok(v)) => v,
                };
                let bv = match b.eval(p, state) {
                    None => return None,
                    Some(Err(e)) => return Some(Err(e)),
                    Some(Ok(v)) => v,
                };
                if bv < 0 {
                    return Some(Err(StepError::NegativePower));
                }
                Some(Ok(i32_wrapping_pow(av, bv as u32)))
            },
        }
    }
}

} // verus!
