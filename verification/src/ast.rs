use vstd::prelude::*;

verus! {

/// Integer values of the language.
pub type Int = i32;

/// A region of the source text: its start and its length.
#[derive(Debug, Clone, Copy, PartialEq, Eq, Hash)]
pub struct SourceSpan {
    pub offset: usize,
    pub length: usize,
}

/// The empty span right after the end of `s` (its end saturates at the
/// largest offset).
pub open spec fn span_end(s: SourceSpan) -> SourceSpan {
    SourceSpan {
        offset: if s.offset + s.length <= usize::MAX {
            (s.offset + s.length) as usize
        } else {
            usize::MAX
        },
        length: 0,
    }
}

impl SourceSpan {
    pub fn offset(&self) -> (r: usize)
        ensures
            r == self.offset,
    {
        self.offset
    }

    /// An empty span placed right after the end of this one.
    pub fn cursor_at_end(&self) -> (r: SourceSpan)
        ensures
            r == span_end(*self),
    {
        SourceSpan { offset: self.offset.saturating_add(self.length), length: 0 }
    }
}

/// A scalar variable.
#[derive(Debug, PartialEq, Eq, PartialOrd, Ord, Hash)]
pub struct Variable(pub String);

/// An array.
#[derive(Debug, PartialEq, Eq, PartialOrd, Ord, Hash)]
pub struct Array(pub String);

/// The name of a tuple space.
#[derive(Debug, PartialEq, Eq, PartialOrd, Ord, Hash)]
pub struct TupleSpaceName(pub String);

/// The name of a channel.
#[derive(Debug, PartialEq, Eq, PartialOrd, Ord, Hash)]
pub struct ChannelName(pub String);

impl Clone for Variable {
    fn clone(&self) -> (r: Self)
        ensures
            r == *self,
    {
        Variable(self.0.clone())
    }
}

impl Clone for Array {
    fn clone(&self) -> (r: Self)
        ensures
            r == *self,
    {
        Array(self.0.clone())
    }
}

impl Clone for TupleSpaceName {
    fn clone(&self) -> (r: Self)
        ensures
            r == *self,
    {
        TupleSpaceName(self.0.clone())
    }
}

impl Clone for ChannelName {
    fn clone(&self) -> (r: Self)
        ensures
            r == *self,
    {
        ChannelName(self.0.clone())
    }
}

/// Something that can be written to: a variable, or an array cell
/// given by an index expression.
#[derive(Debug, PartialEq, Eq)]
pub enum Target {
    Variable(Variable),
    Array(Array, Box<AExpr>),
}

/// A declared storage location: a variable or a whole array.
#[derive(Debug, PartialEq, Eq, PartialOrd, Ord, Hash)]
pub enum TargetDecl {
    Variable(Variable),
    Array(Array),
}

impl Clone for TargetDecl {
    fn clone(&self) -> (r: Self)
        ensures
            r == *self,
    {
        match self {
            TargetDecl::Variable(v) => TargetDecl::Variable(v.clone()),
            TargetDecl::Array(a) => TargetDecl::Array(a.clone()),
        }
    }
}

#[derive(Debug, Clone, Copy, PartialEq, Eq, Structural, Hash)]
pub enum AOp {
    Plus,
    Minus,
    Times,
    Divide,
}

#[derive(Debug, Clone, Copy, PartialEq, Eq, Structural, Hash)]
pub enum RelOp {
    Eq,
    Ne,
    Lt,
    Le,
    Gt,
    Ge,
}

#[derive(Debug, Clone, Copy, PartialEq, Eq, Structural, Hash)]
pub enum LogicOp {
    And,
    Land,
    Or,
    Lor,
    Implies,
}

#[derive(Debug, Clone, Copy, PartialEq, Eq, Structural, Hash)]
pub enum Quantifier {
    Exists,
    Forall,
}

/// The built-in functions of arithmetic expressions.
#[derive(Debug, PartialEq, Eq)]
pub enum Function {
    Division(Box<AExpr>, Box<AExpr>),
    Min(Box<AExpr>, Box<AExpr>),
    Max(Box<AExpr>, Box<AExpr>),
    Fac(Box<AExpr>),
    Fib(Box<AExpr>),
    Exp(Box<AExpr>, Box<AExpr>),
}

/// Arithmetic expressions.
#[derive(Debug, PartialEq, Eq)]
pub enum AExpr {
    Number(Int),
    Reference(Target),
    Binary(Box<AExpr>, AOp, Box<AExpr>),
    Minus(Box<AExpr>),
    Function(Function),
    Old(Target),
}

/// Boolean expressions.
#[derive(Debug, PartialEq, Eq)]
pub enum BExpr {
    Bool(bool),
    Rel(AExpr, RelOp, AExpr),
    Logic(Box<BExpr>, LogicOp, Box<BExpr>),
    Not(Box<BExpr>),
    Quantified(Quantifier, Variable, Box<BExpr>),
    OP(OperationP),
}

/// A field of a tuple pattern.
#[derive(Debug, PartialEq, Eq)]
pub enum Field {
    Expression(AExpr),
    Any,
    Target(Target),
}

/// Tuple-space operations used as commands.
#[derive(Debug, PartialEq, Eq)]
pub enum Operation {
    Put(TupleSpaceName, Vec<AExpr>),
    Get(TupleSpaceName, Vec<Field>),
    Query(TupleSpaceName, Vec<Field>),
}

/// Tuple-space operations used as predicates.
#[derive(Debug, PartialEq, Eq)]
pub enum OperationP {
    PutP(TupleSpaceName, Vec<AExpr>),
    GetP(TupleSpaceName, Vec<Field>),
    QueryP(TupleSpaceName, Vec<Field>),
}

/// Communication guards.
#[derive(Debug, PartialEq, Eq)]
pub enum CG {
    BoolExpression(BExpr),
    Send(ChannelName, AExpr),
    Receive(ChannelName, Target),
}

#[derive(Debug, Clone, Copy, PartialEq, Eq, Structural, Hash)]
pub enum BufferSize {
    Finite(u32),
    Infinite,
}

#[derive(Debug, Clone, Copy, PartialEq, Eq, Structural, Hash)]
pub enum TupleSpaceType {
    Random,
    Queue,
    Stack,
    LIFO,
    FIFO,
}

/// A declared tuple space: its discipline, its capacity and its initial tuples.
#[derive(Debug, PartialEq, Eq)]
pub struct TupleSpace {
    pub space_type: TupleSpaceType,
    pub size: BufferSize,
    pub space: Vec<Vec<Int>>,
}

impl Clone for TupleSpace {
    fn clone(&self) -> (r: Self)
        ensures
            r.space_type == self.space_type,
            r.size == self.size,
            r.space@.len() == self.space@.len(),
            forall|i: int| 0 <= i < self.space@.len() ==> #[trigger] r.space@[i]@ == self.space@[i]@,
    {
        let mut space: Vec<Vec<Int>> = Vec::new();
        let mut i: usize = 0;
        while i < self.space.len()
            invariant
                i <= self.space@.len(),
                space@.len() == i,
                forall|j: int| 0 <= j < i ==> #[trigger] space@[j]@ == self.space@[j]@,
            decreases self.space@.len() - i,
        {
            space.push(clone_ints(&self.space[i]));
            i += 1;
        }
        TupleSpace { space_type: self.space_type, size: self.size, space }
    }
}

/// A copy of a sequence of integers.
pub fn clone_ints(v: &Vec<Int>) -> (r: Vec<Int>)
    ensures
        r@ == v@,
{
    let mut r: Vec<Int> = Vec::new();
    let mut i: usize = 0;
    while i < v.len()
        invariant
            i <= v@.len(),
            r@ == v@.subrange(0, i as int),
        decreases v@.len() - i,
    {
        r.push(v[i]);
        i += 1;
        assert(r@ =~= v@.subrange(0, i as int));
    }
    assert(v@.subrange(0, v@.len() as int) =~= v@);
    r
}

/// A declared asynchronous channel: its capacity and its initial contents.
#[derive(Debug, PartialEq, Eq)]
pub struct Channel {
    pub size: BufferSize,
    pub channel: Vec<Int>,
}

impl Clone for Channel {
    fn clone(&self) -> (r: Self)
        ensures
            r.size == self.size,
            r.channel@ == self.channel@,
    {
        Channel { size: self.size, channel: clone_ints(&self.channel) }
    }
}

/// A guarded command `guard -> cmds`.
#[derive(Debug, PartialEq, Eq)]
pub struct Guard {
    pub guard: BExpr,
    pub cmds: Commands,
}

/// A guarded command whose guard may communicate.
#[derive(Debug, PartialEq, Eq)]
pub struct CommunicationGuard {
    pub guard: CG,
    pub cmds: Commands,
}

/// A command with its place in the source.
#[derive(Debug, PartialEq, Eq)]
pub struct Command {
    pub kind: CommandKind,
    pub span: SourceSpan,
}

#[derive(Debug, PartialEq, Eq)]
pub enum CommandKind {
    Assignment(Target, AExpr),
    Skip,
    Placeholder,
    If(Vec<Guard>),
    IfCG(Vec<CommunicationGuard>),
    Loop(Vec<Guard>),
    LoopCG(Vec<CommunicationGuard>),
    O(Operation),
    Send(ChannelName, AExpr),
    Receive(ChannelName, Target),
    Broadcast(ChannelName, Int, AExpr),
    Gather(ChannelName, Int, Array, Target),
}

/// A sequence of commands.
#[derive(Debug, PartialEq, Eq)]
pub struct Commands(pub Vec<Command>);

#[derive(Debug, Clone, Copy, PartialEq, Eq, Structural, Hash)]
pub enum Locator {
    Init,
    Stuck,
    Terminated,
}

/// Predicates on the contents of an asynchronous channel.
#[derive(Debug, PartialEq, Eq)]
pub enum ChannelFormula {
    ChannelHead(ChannelName, AExpr),
    ChannelContains(ChannelName, AExpr),
}

/// Linear temporal logic formulas.
#[derive(Debug, PartialEq, Eq)]
pub enum LTLFormula {
    Bool(bool),
    Locator(Locator),
    Rel(AExpr, RelOp, AExpr),
    OperationP(OperationP),
    ChannelFormula(ChannelFormula),
    Not(Box<LTLFormula>),
    And(Box<LTLFormula>, Box<LTLFormula>),
    Or(Box<LTLFormula>, Box<LTLFormula>),
    Implies(Box<LTLFormula>, Box<LTLFormula>),
    Until(Box<LTLFormula>, Box<LTLFormula>),
    Next(Box<LTLFormula>),
    Globally(Box<LTLFormula>),
    Finally(Box<LTLFormula>),
}

// ---------------------------------------------------------------------------
// Copies that keep every field.

impl Clone for Target {
    fn clone(&self) -> (r: Self)
        ensures
            r == *self,
        decreases self,
    {
        match self {
            Target::Variable(v) => Target::Variable(v.clone()),
            Target::Array(a, idx) => Target::Array(a.clone(), Box::new(clone_aexpr(idx))),
        }
    }
}

pub fn clone_aexpr(e: &AExpr) -> (r: AExpr)
    ensures
        r == *e,
    decreases e,
{
    match e {
        AExpr::Number(n) => AExpr::Number(*n),
        AExpr::Reference(t) => AExpr::Reference(clone_target(t)),
        AExpr::Binary(l, op, r) => AExpr::Binary(
            Box::new(clone_aexpr(l)),
            *op,
            Box::new(clone_aexpr(r)),
        ),
        AExpr::Minus(m) => AExpr::Minus(Box::new(clone_aexpr(m))),
        AExpr::Function(f) => AExpr::Function(clone_function(f)),
        AExpr::Old(t) => AExpr::Old(clone_target(t)),
    }
}

pub fn clone_target(t: &Target) -> (r: Target)
    ensures
        r == *t,
    decreases t,
{
    match t {
        Target::Variable(v) => Target::Variable(v.clone()),
        Target::Array(a, idx) => Target::Array(a.clone(), Box::new(clone_aexpr(idx))),
    }
}

pub fn clone_function(f: &Function) -> (r: Function)
    ensures
        r == *f,
    decreases f,
{
    match f {
        Function::Division(a, b) => Function::Division(
            Box::new(clone_aexpr(a)),
            Box::new(clone_aexpr(b)),
        ),
        Function::Min(a, b) => Function::Min(Box::new(clone_aexpr(a)), Box::new(clone_aexpr(b))),
        Function::Max(a, b) => Function::Max(Box::new(clone_aexpr(a)), Box::new(clone_aexpr(b))),
        Function::Fac(a) => Function::Fac(Box::new(clone_aexpr(a))),
        Function::Fib(a) => Function::Fib(Box::new(clone_aexpr(a))),
        Function::Exp(a, b) => Function::Exp(Box::new(clone_aexpr(a)), Box::new(clone_aexpr(b))),
    }
}

} // verus!
