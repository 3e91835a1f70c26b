use chip::ast::{
    AExpr, AOp, Array, BExpr, BufferSize, Channel, ChannelName, Command, CommandKind, Commands,
    Function, Guard, LTLFormula, LogicOp, RelOp, SourceSpan, Target, TupleSpace, TupleSpaceName,
    TupleSpaceType, Variable,
};
use chip::validate::{Initial, LTLProgram};
use indexmap::IndexMap;

fn x() -> AExpr {
    AExpr::Reference(Target::Variable(Variable("x".to_string())))
}

fn assign_x(n: i32) -> Command {
    Command {
        kind: CommandKind::Assignment(Target::Variable(Variable("x".to_string())), AExpr::Number(n)),
        span: SourceSpan { offset: 0, length: 1 },
    }
}

#[test]
fn expressions_are_parenthesised() {
    let e = AExpr::Binary(Box::new(x()), AOp::Times, Box::new(AExpr::Minus(Box::new(AExpr::Number(3)))));
    assert_eq!(e.to_string(), "(x * -3)");
    let f = AExpr::Function(Function::Max(Box::new(x()), Box::new(AExpr::Number(0))));
    assert_eq!(f.to_string(), "max(x, 0)");
    let cell = Target::Array(Array("a".to_string()), Box::new(AExpr::Number(1)));
    assert_eq!(cell.to_string(), "a[1]");
    let b = BExpr::Logic(
        Box::new(BExpr::Rel(x(), RelOp::Ge, AExpr::Number(1))),
        LogicOp::Implies,
        Box::new(BExpr::Not(Box::new(BExpr::Bool(false)))),
    );
    assert_eq!(b.to_string(), "((x >= 1) ==> !false)");
}

#[test]
fn guarded_commands_are_indented() {
    let g1 = Guard { guard: BExpr::Rel(x(), RelOp::Lt, AExpr::Number(1)), cmds: Commands(vec![assign_x(1)]) };
    let g2 = Guard {
        guard: BExpr::Bool(true),
        cmds: Commands(vec![
            assign_x(2),
            Command { kind: CommandKind::Skip, span: SourceSpan { offset: 0, length: 1 } },
        ]),
    };
    let c = Command { kind: CommandKind::If(vec![g1, g2]), span: SourceSpan { offset: 0, length: 1 } };
    assert_eq!(c.to_string(), "if (x < 1) ->\n   x := 1\n[] true ->\n   x := 2 ;\n   skip\nfi");
}

#[test]
fn nested_loops_indent_each_level() {
    let inner = Command {
        kind: CommandKind::Loop(vec![Guard { guard: BExpr::Bool(false), cmds: Commands(vec![assign_x(1)]) }]),
        span: SourceSpan { offset: 0, length: 1 },
    };
    let outer = Command {
        kind: CommandKind::Loop(vec![Guard { guard: BExpr::Bool(true), cmds: Commands(vec![inner]) }]),
        span: SourceSpan { offset: 0, length: 1 },
    };
    assert_eq!(outer.to_string(), "do true ->\n   do false ->\n      x := 1\n   od\nod");
}

#[test]
fn declarations_are_shown() {
    let ts = TupleSpace { space_type: TupleSpaceType::Queue, size: BufferSize::Finite(4), space: vec![vec![1, 2], vec![3]] };
    assert_eq!(ts.to_string(), "(Q, 4, {(1,2), (3)})");
    let ch = Channel { size: BufferSize::Infinite, channel: vec![5, 6] };
    assert_eq!(ch.to_string(), "(INF, (5, 6))");
}

#[test]
fn program_text_lists_declarations_commands_and_properties() {
    let mut variables = IndexMap::new();
    variables.insert(Variable("x".to_string()), 1);
    let mut arrays = IndexMap::new();
    arrays.insert(Array("a".to_string()), vec![1, 2]);
    let mut tuple_spaces = IndexMap::new();
    tuple_spaces.insert(
        TupleSpaceName("ts".to_string()),
        TupleSpace { space_type: TupleSpaceType::Random, size: BufferSize::Infinite, space: vec![] },
    );
    let mut async_channels = IndexMap::new();
    async_channels.insert(ChannelName("ch".to_string()), Channel { size: BufferSize::Finite(2), channel: vec![] });
    let p = LTLProgram {
        initial: Initial { variables, arrays, tuple_spaces, async_channels, sync_channels: vec![] },
        commands: vec![Commands(vec![assign_x(2)])],
        properties: vec![(
            SourceSpan { offset: 0, length: 1 },
            LTLFormula::Globally(Box::new(LTLFormula::Rel(x(), RelOp::Gt, AExpr::Number(0)))),
        )],
    };
    assert_eq!(p.to_string(), "> x = 1, a = [1, 2], ts = (R, INF, {}), ch = (2, ())\nx := 2\ncheck G((x > 0))\n");
}

#[test]
fn several_processes_are_shown_in_parallel() {
    let p = LTLProgram {
        initial: Initial {
            variables: IndexMap::new(),
            arrays: IndexMap::new(),
            tuple_spaces: IndexMap::new(),
            async_channels: IndexMap::new(),
            sync_channels: vec![],
        },
        commands: vec![Commands(vec![assign_x(1)]), Commands(vec![assign_x(2)])],
        properties: vec![],
    };
    assert_eq!(p.to_string(), "> \npar\nx := 1\n[]\nx := 2\nrap\n");
}
