use chip::ast::{
    AExpr, AOp, Array, BExpr, Command, CommandKind, Commands, Guard, RelOp, SourceSpan, Target,
    TargetDecl, Variable,
};
use chip::program::{Program, State};
use indexmap::IndexMap;

fn span(offset: usize, length: usize) -> SourceSpan {
    SourceSpan { offset, length }
}

fn var(name: &str) -> Variable {
    Variable(name.to_string())
}

fn assign(name: &str, e: AExpr, at: usize) -> Command {
    Command { kind: CommandKind::Assignment(Target::Variable(var(name)), e), span: span(at, 6) }
}

fn reference(name: &str) -> AExpr {
    AExpr::Reference(Target::Variable(var(name)))
}

fn compile(cmdss: Vec<Commands>) -> Program {
    Program::compile(cmdss, vec![], IndexMap::new(), IndexMap::new(), IndexMap::new())
}

fn zero_state(p: &Program) -> State {
    p.initial_state(|_| 0, |_| vec![], vec![], vec![])
}

#[test]
fn assignment_steps_to_halt() {
    let p = compile(vec![Commands(vec![assign("x", AExpr::Number(1), 0)])]);
    let s = zero_state(&p);
    assert_eq!(s.raw_id(), "0@0");
    assert!(!s.is_terminated(&p));
    let next = s.step(&p);
    assert_eq!(next.len(), 1);
    assert_eq!(next[0].raw_id(), "1@1");
    assert!(next[0].is_terminated(&p));
    assert!(!next[0].is_stuck(&p));
    assert!(next[0].step(&p).is_empty());
}

#[test]
fn layout_is_sorted_and_deduplicated() {
    let cmds = Commands(vec![
        assign("y", reference("x"), 0),
        assign("x", reference("y"), 7),
        Command {
            kind: CommandKind::Assignment(
                Target::Array(Array("a".to_string()), Box::new(AExpr::Number(2))),
                AExpr::Number(5),
            ),
            span: span(14, 8),
        },
    ]);
    let mut sizes = IndexMap::new();
    sizes.insert(Array("a".to_string()), 3u32);
    let p = Program::compile(
        vec![cmds],
        vec![TargetDecl::Variable(var("z"))],
        IndexMap::new(),
        IndexMap::new(),
        sizes,
    );
    let names: Vec<String> = p.variables().into_iter().map(|v| v.0).collect();
    assert_eq!(names, vec!["x".to_string(), "y".to_string(), "z".to_string()]);
    let arrays = p.arrays();
    assert_eq!(arrays.len(), 1);
    assert_eq!(arrays[0].0 .0, "a");
    assert_eq!(arrays[0].1, 3);
    assert_eq!(arrays[0].2, 3);
    let s = p.initial_state(|v| if v.0 == "x" { 4 } else { 0 }, |_| vec![9], vec![], vec![]);
    assert_eq!(s.raw_id(), "4 0 0 9 0 0@0");
    let text = s.format(&p).to_string();
    assert_eq!(text, "x = 4, y = 0, z = 0, a = [9, 0, 0]");
}

#[test]
fn loop_runs_until_guard_fails() {
    // do x < 2 -> x := x + 1 od
    let guard = BExpr::Rel(reference("x"), RelOp::Lt, AExpr::Number(2));
    let body = Commands(vec![assign(
        "x",
        AExpr::Binary(Box::new(reference("x")), AOp::Plus, Box::new(AExpr::Number(1))),
        10,
    )]);
    let cmd = Command { kind: CommandKind::Loop(vec![Guard { guard, cmds: body }]), span: span(0, 20) };
    let p = compile(vec![Commands(vec![cmd])]);
    let mut s = zero_state(&p);
    let mut steps = 0;
    while !s.is_terminated(&p) {
        let next = s.step(&p);
        assert_eq!(next.len(), 1);
        s = next.into_iter().next().unwrap();
        steps += 1;
        assert!(steps < 10);
    }
    assert_eq!(steps, 5);
    assert_eq!(s.raw_id(), "2@3");
}

#[test]
fn negative_numbers_are_shown_with_a_sign() {
    let p = compile(vec![Commands(vec![assign("x", AExpr::Minus(Box::new(AExpr::Number(2147483647))), 0)])]);
    let s = zero_state(&p);
    let next = s.step(&p);
    assert_eq!(next[0].raw_id(), "-2147483647@1");
}
