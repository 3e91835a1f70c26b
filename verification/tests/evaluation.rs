use chip::ast::{
    AExpr, Array, BExpr, BufferSize, Channel, ChannelFormula, ChannelName, Command, CommandKind,
    Commands, Function, RelOp, SourceSpan, Target, Variable,
};
use chip::program::{Program, State, StepError};
use indexmap::IndexMap;

fn cmd(kind: CommandKind, at: usize) -> Command {
    Command { kind, span: SourceSpan { offset: at, length: 3 } }
}

fn x() -> Target {
    Target::Variable(Variable("x".to_string()))
}

fn num(n: i32) -> Box<AExpr> {
    Box::new(AExpr::Number(n))
}

fn equals(e: AExpr, n: i32) -> BExpr {
    BExpr::Rel(e, RelOp::Eq, AExpr::Number(n))
}

fn program_with_x() -> (Program, State) {
    let cmds = Commands(vec![cmd(CommandKind::Skip, 0)]);
    let p = Program::compile(
        vec![cmds],
        vec![chip::ast::TargetDecl::Variable(Variable("x".to_string()))],
        IndexMap::new(),
        IndexMap::new(),
        IndexMap::new(),
    );
    let s = p.initial_state(|_| 7, |_| vec![], vec![], vec![]);
    (p, s)
}

#[test]
fn built_in_functions_compute_their_values() {
    let (p, s) = program_with_x();
    let cases = vec![
        (Function::Fac(num(5)), 120),
        (Function::Fib(num(10)), 55),
        (Function::Exp(num(2), num(10)), 1024),
        (Function::Min(num(3), num(-4)), -4),
        (Function::Max(num(3), num(-4)), 3),
        (Function::Division(num(-7), num(2)), -3),
    ];
    for (f, expected) in cases {
        let e = equals(AExpr::Function(f), expected);
        assert_eq!(e.evaluate(&p, &s), Ok(true));
    }
}

#[test]
fn arithmetic_wraps_around() {
    let (p, s) = program_with_x();
    let e = equals(
        AExpr::Binary(num(i32::MAX), chip::ast::AOp::Plus, num(1)),
        i32::MIN,
    );
    assert_eq!(e.evaluate(&p, &s), Ok(true));
}

#[test]
fn each_error_of_evaluation_is_reported() {
    let (p, s) = program_with_x();
    let cases = vec![
        (AExpr::Function(Function::Division(num(1), num(0))), StepError::DivisionByZero),
        (AExpr::Function(Function::Fac(num(-1))), StepError::NegativeFactorial),
        (AExpr::Function(Function::Fib(num(-2))), StepError::NegativeFibonacci),
        (AExpr::Function(Function::Exp(num(2), num(-3))), StepError::NegativePower),
        (AExpr::Old(x()), StepError::HitOld),
    ];
    for (e, err) in cases {
        assert_eq!(equals(e, 0).evaluate(&p, &s), Err(err));
    }
}

#[test]
fn variables_are_read_from_the_state() {
    let (p, s) = program_with_x();
    assert_eq!(equals(AExpr::Reference(x()), 7).evaluate(&p, &s), Ok(true));
    assert_eq!(equals(AExpr::Reference(x()), 8).evaluate(&p, &s), Ok(false));
    let vars = s.variables(&p);
    assert_eq!(vars.len(), 1);
    assert_eq!(vars[0].0 .0, "x");
    assert_eq!(vars[0].1, 7);
}

#[test]
fn array_indices_are_checked() {
    let a = Array("a".to_string());
    let assign = |idx: i32| {
        cmd(
            CommandKind::Assignment(Target::Array(a.clone(), num(idx)), AExpr::Number(1)),
            0,
        )
    };
    let mut sizes = IndexMap::new();
    sizes.insert(a.clone(), 2u32);
    let p = Program::compile(
        vec![Commands(vec![assign(-1)]), Commands(vec![assign(2)]), Commands(vec![assign(1)])],
        vec![],
        IndexMap::new(),
        IndexMap::new(),
        sizes,
    );
    let s = p.initial_state(|_| 0, |_| vec![], vec![], vec![]);
    // the first two processes fail, the third writes a[1]
    let next = s.step(&p);
    assert_eq!(next.len(), 1);
    assert_eq!(next[0].format(&p).to_string(), "a = [0, 1]");
    assert!(!s.is_stuck(&p));
    assert!(!s.is_terminated(&p));
}

#[test]
fn channel_predicates_look_at_the_buffer() {
    let ch = ChannelName("ch".to_string());
    let cmds = Commands(vec![cmd(CommandKind::Skip, 0)]);
    let mut chans = IndexMap::new();
    chans.insert(ch.clone(), Channel { size: BufferSize::Infinite, channel: vec![] });
    let p = Program::compile(vec![cmds], vec![], IndexMap::new(), chans, IndexMap::new());
    let s = p.initial_state(|_| 0, |_| vec![], vec![], vec![vec![3, 4]]);
    let head = |n: i32| ChannelFormula::ChannelHead(ch.clone(), AExpr::Number(n));
    let contains = |n: i32| ChannelFormula::ChannelContains(ch.clone(), AExpr::Number(n));
    assert_eq!(head(3).evaluate(&p, &s), Ok(true));
    assert_eq!(head(4).evaluate(&p, &s), Ok(false));
    assert_eq!(contains(4).evaluate(&p, &s), Ok(true));
    assert_eq!(contains(5).evaluate(&p, &s), Ok(false));
}

#[test]
fn broadcast_reaches_every_receiver() {
    let c = ChannelName("c".to_string());
    let var = |n: &str| Target::Variable(Variable(n.to_string()));
    let sender = Commands(vec![cmd(CommandKind::Broadcast(c.clone(), 2, AExpr::Number(5)), 0)]);
    let r1 = Commands(vec![cmd(CommandKind::Receive(c.clone(), var("x")), 10)]);
    let r2 = Commands(vec![cmd(CommandKind::Receive(c.clone(), var("y")), 20)]);
    let p = Program::compile(vec![sender, r1, r2], vec![], IndexMap::new(), IndexMap::new(), IndexMap::new());
    let s = p.initial_state(|_| 0, |_| vec![], vec![], vec![]);
    let next = s.step(&p);
    assert_eq!(next.len(), 1);
    assert_eq!(next[0].format(&p).to_string(), "x = 5, y = 5");
    assert!(next[0].is_terminated(&p));
}

#[test]
fn broadcast_waits_for_enough_receivers() {
    let c = ChannelName("c".to_string());
    let sender = Commands(vec![cmd(CommandKind::Broadcast(c.clone(), 2, AExpr::Number(5)), 0)]);
    let r1 = Commands(vec![cmd(CommandKind::Receive(c.clone(), x()), 10)]);
    let p = Program::compile(vec![sender, r1], vec![], IndexMap::new(), IndexMap::new(), IndexMap::new());
    let s = p.initial_state(|_| 0, |_| vec![], vec![], vec![]);
    assert!(s.step(&p).is_empty());
    assert!(s.is_stuck(&p));
}

#[test]
fn gather_collects_in_every_order() {
    let c = ChannelName("c".to_string());
    let a = Array("a".to_string());
    let n = Target::Variable(Variable("n".to_string()));
    let gatherer = Commands(vec![cmd(CommandKind::Gather(c.clone(), 2, a.clone(), n), 0)]);
    let s1 = Commands(vec![cmd(CommandKind::Send(c.clone(), AExpr::Number(1)), 10)]);
    let s2 = Commands(vec![cmd(CommandKind::Send(c.clone(), AExpr::Number(2)), 20)]);
    let mut sizes = IndexMap::new();
    sizes.insert(a.clone(), 3u32);
    let p = Program::compile(
        vec![gatherer, s1, s2],
        vec![],
        IndexMap::new(),
        IndexMap::new(),
        sizes,
    );
    let s = p.initial_state(|_| 0, |_| vec![], vec![], vec![]);
    let next = s.step(&p);
    assert_eq!(next.len(), 2);
    assert_eq!(next[0].format(&p).to_string(), "n = 2, a = [1, 2, 0]");
    assert_eq!(next[1].format(&p).to_string(), "n = 2, a = [2, 1, 0]");
    assert!(next[0].is_terminated(&p));
}

#[test]
fn gather_into_its_own_counter_array_is_an_error() {
    let c = ChannelName("c".to_string());
    let a = Array("a".to_string());
    let gatherer = Commands(vec![cmd(
        CommandKind::Gather(c.clone(), 0, a.clone(), Target::Array(a.clone(), num(0))),
        0,
    )]);
    let p = Program::compile(vec![gatherer], vec![], IndexMap::new(), IndexMap::new(), IndexMap::new());
    let s = p.initial_state(|_| 0, |_| vec![], vec![], vec![]);
    assert_eq!(s.checked_step(&p).map(|v| v.len()), Some(0));
    assert!(!s.is_stuck(&p));
    assert!(!s.is_terminated(&p));
}

#[test]
fn powers_wrap_like_wrapping_pow() {
    let (p, s) = program_with_x();
    let cases = vec![(3, 40), (-2, 31), (7, 0), (0, 0), (-1, 12345), (5, 123456789), (2, 32)];
    for (a, n) in cases {
        let e = equals(AExpr::Function(Function::Exp(num(a), num(n))), a.wrapping_pow(n as u32));
        assert_eq!(e.evaluate(&p, &s), Ok(true));
    }
}

#[test]
fn checked_evaluation_reports_panics() {
    let (p, s) = program_with_x();
    let ok = equals(AExpr::Number(1), 1);
    assert_eq!(ok.checked_evaluate(&p, &s), Some(Ok(true)));
    let err = equals(AExpr::Function(Function::Division(num(1), num(0))), 0);
    assert_eq!(err.checked_evaluate(&p, &s), Some(Err(StepError::DivisionByZero)));
    // `i32::MIN / -1` overflows: the interpreter would panic
    let overflow = equals(AExpr::Binary(num(i32::MIN), chip::ast::AOp::Divide, num(-1)), 0);
    assert_eq!(overflow.checked_evaluate(&p, &s), None);
}

#[test]
fn predicates_on_an_empty_space_are_false() {
    let ts = chip::ast::TupleSpaceName("ts".to_string());
    let cmds = Commands(vec![cmd(CommandKind::Skip, 0)]);
    let mut spaces = IndexMap::new();
    spaces.insert(
        ts.clone(),
        chip::ast::TupleSpace {
            space_type: chip::ast::TupleSpaceType::Random,
            size: BufferSize::Infinite,
            space: vec![],
        },
    );
    let p = Program::compile(vec![cmds], vec![], spaces, IndexMap::new(), IndexMap::new());
    let s = p.initial_state(|_| 0, |_| vec![], vec![vec![]], vec![]);
    let query = BExpr::OP(chip::ast::OperationP::QueryP(ts.clone(), vec![chip::ast::Field::Any]));
    assert_eq!(query.evaluate(&p, &s), Ok(false));
    let put = BExpr::OP(chip::ast::OperationP::PutP(ts.clone(), vec![AExpr::Number(1)]));
    assert_eq!(put.evaluate(&p, &s), Ok(true));
    let full = p.initial_state(|_| 0, |_| vec![], vec![vec![vec![4]]], vec![]);
    assert_eq!(query.evaluate(&p, &full), Ok(true));
}

#[test]
fn gather_orders_senders_lexicographically() {
    let c = ChannelName("c".to_string());
    let a = Array("a".to_string());
    let n = Target::Variable(Variable("n".to_string()));
    let gatherer = Commands(vec![cmd(CommandKind::Gather(c.clone(), 3, a.clone(), n), 0)]);
    let sender = |v: i32| Commands(vec![cmd(CommandKind::Send(c.clone(), AExpr::Number(v)), 10)]);
    let mut sizes = IndexMap::new();
    sizes.insert(a.clone(), 3u32);
    let p = Program::compile(
        vec![gatherer, sender(1), sender(2), sender(3)],
        vec![],
        IndexMap::new(),
        IndexMap::new(),
        sizes,
    );
    let s = p.initial_state(|_| 0, |_| vec![], vec![], vec![]);
    let texts: Vec<String> = s.step(&p).iter().map(|t| t.format(&p).to_string()).collect();
    assert_eq!(
        texts,
        vec![
            "n = 3, a = [1, 2, 3]".to_string(),
            "n = 3, a = [1, 3, 2]".to_string(),
            "n = 3, a = [2, 1, 3]".to_string(),
            "n = 3, a = [2, 3, 1]".to_string(),
            "n = 3, a = [3, 1, 2]".to_string(),
            "n = 3, a = [3, 2, 1]".to_string(),
        ]
    );
}
