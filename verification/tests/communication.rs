use chip::ast::{
    AExpr, BExpr, BufferSize, Channel, ChannelName, Command, CommandKind, Commands, Field, Guard,
    Operation,
    SourceSpan, Target, TupleSpace, TupleSpaceName, TupleSpaceType, Variable,
};
use chip::program::{Program, State};
use indexmap::IndexMap;

fn span(offset: usize) -> SourceSpan {
    SourceSpan { offset, length: 4 }
}

fn cmd(kind: CommandKind, at: usize) -> Command {
    Command { kind, span: span(at) }
}

fn var_target(name: &str) -> Target {
    Target::Variable(Variable(name.to_string()))
}

fn run_to_end(p: &Program, s: State) -> State {
    let mut s = s;
    let mut n = 0;
    while !s.is_terminated(p) {
        let mut next = s.step(p);
        assert_eq!(next.len(), 1);
        s = next.remove(0);
        n += 1;
        assert!(n < 20);
    }
    s
}

#[test]
fn put_then_get_moves_a_tuple_into_a_variable() {
    let ts = TupleSpaceName("ts".to_string());
    let cmds = Commands(vec![
        cmd(CommandKind::O(Operation::Put(ts.clone(), vec![AExpr::Number(1), AExpr::Number(2)])), 0),
        cmd(
            CommandKind::O(Operation::Get(
                ts.clone(),
                vec![Field::Expression(AExpr::Number(1)), Field::Target(var_target("x"))],
            )),
            10,
        ),
    ]);
    let mut spaces = IndexMap::new();
    spaces.insert(
        ts.clone(),
        TupleSpace { space_type: TupleSpaceType::Random, size: BufferSize::Infinite, space: vec![] },
    );
    let p = Program::compile(vec![cmds], vec![], spaces, IndexMap::new(), IndexMap::new());
    let s = p.initial_state(|_| 0, |_| vec![], vec![vec![]], vec![]);
    assert_eq!(s.format(&p).to_string(), "x = 0, ts = {}");
    let after_put = s.step(&p);
    assert_eq!(after_put.len(), 1);
    assert_eq!(after_put[0].format(&p).to_string(), "x = 0, ts = {(1,2)}");
    let end = run_to_end(&p, s);
    assert_eq!(end.format(&p).to_string(), "x = 2, ts = {}");
}

#[test]
fn get_from_an_empty_space_is_stuck() {
    let ts = TupleSpaceName("ts".to_string());
    let cmds = Commands(vec![cmd(CommandKind::O(Operation::Get(ts.clone(), vec![Field::Any])), 0)]);
    let mut spaces = IndexMap::new();
    spaces.insert(ts, TupleSpace { space_type: TupleSpaceType::FIFO, size: BufferSize::Finite(2), space: vec![] });
    let p = Program::compile(vec![cmds], vec![], spaces, IndexMap::new(), IndexMap::new());
    let s = p.initial_state(|_| 0, |_| vec![], vec![vec![]], vec![]);
    assert!(s.step(&p).is_empty());
    assert!(s.is_stuck(&p));
    assert!(!s.is_terminated(&p));
}

#[test]
fn asynchronous_channel_delivers_in_order() {
    let ch = ChannelName("ch".to_string());
    let cmds = Commands(vec![
        cmd(CommandKind::Send(ch.clone(), AExpr::Number(5)), 0),
        cmd(CommandKind::Send(ch.clone(), AExpr::Number(6)), 5),
        cmd(CommandKind::Receive(ch.clone(), var_target("y")), 10),
    ]);
    let mut chans = IndexMap::new();
    chans.insert(ch.clone(), Channel { size: BufferSize::Infinite, channel: vec![] });
    let p = Program::compile(vec![cmds], vec![], IndexMap::new(), chans, IndexMap::new());
    let s = p.initial_state(|_| 0, |_| vec![], vec![], vec![vec![]]);
    let end = run_to_end(&p, s);
    assert_eq!(end.format(&p).to_string(), "y = 5, ch = (6)");
    assert_eq!(end.raw_id(), "5@3");
}

#[test]
fn full_channel_blocks_the_sender() {
    let ch = ChannelName("ch".to_string());
    let cmds = Commands(vec![cmd(CommandKind::Send(ch.clone(), AExpr::Number(1)), 0)]);
    let mut chans = IndexMap::new();
    chans.insert(ch.clone(), Channel { size: BufferSize::Finite(1), channel: vec![] });
    let p = Program::compile(vec![cmds], vec![], IndexMap::new(), chans, IndexMap::new());
    let s = p.initial_state(|_| 0, |_| vec![], vec![], vec![vec![9]]);
    assert!(s.is_stuck(&p));
}

#[test]
fn synchronous_send_meets_receive() {
    let c = ChannelName("c".to_string());
    let sender = Commands(vec![cmd(CommandKind::Send(c.clone(), AExpr::Number(7)), 0)]);
    let receiver = Commands(vec![cmd(CommandKind::Receive(c.clone(), var_target("z")), 10)]);
    let p = Program::compile(vec![sender, receiver], vec![], IndexMap::new(), IndexMap::new(), IndexMap::new());
    let s = p.initial_state(|_| 0, |_| vec![], vec![], vec![]);
    assert_eq!(s.raw_id(), "0@0X2");
    let next = s.step(&p);
    assert_eq!(next.len(), 1);
    assert_eq!(next[0].raw_id(), "7@1X3");
    assert!(next[0].is_terminated(&p));
}

#[test]
fn lone_synchronous_send_is_stuck() {
    let c = ChannelName("c".to_string());
    let sender = Commands(vec![cmd(CommandKind::Send(c, AExpr::Number(7)), 0)]);
    let p = Program::compile(vec![sender], vec![], IndexMap::new(), IndexMap::new(), IndexMap::new());
    let s = p.initial_state(|_| 0, |_| vec![], vec![], vec![]);
    assert!(s.step(&p).is_empty());
    assert!(s.is_stuck(&p));
}

#[test]
fn compile_refuses_undeclared_tuple_space() {
    let cmds = Commands(vec![cmd(
        CommandKind::O(Operation::Put(TupleSpaceName("nowhere".to_string()), vec![])),
        0,
    )]);
    let r = Program::checked_compile(vec![cmds], vec![], IndexMap::new(), IndexMap::new(), IndexMap::new());
    assert!(r.is_none());
}

#[test]
fn spans_follow_the_processes() {
    let cmds = Commands(vec![cmd(CommandKind::Skip, 3), cmd(CommandKind::Skip, 9)]);
    let p = Program::compile(vec![cmds], vec![], IndexMap::new(), IndexMap::new(), IndexMap::new());
    let s = p.initial_state(|_| 0, |_| vec![], vec![], vec![]);
    let spans = s.spans(&p);
    assert_eq!(spans.len(), 1);
    assert_eq!(spans[0].offset, 3);
    // the step passes the second skip too and stops at the final Halt,
    // whose span sits right after the last command
    let next = s.step(&p);
    assert_eq!(next.len(), 1);
    let after = next[0].spans(&p);
    assert_eq!(after[0].offset, 13);
    assert_eq!(after[0].length, 0);
    assert!(next[0].is_terminated(&p));
}

#[test]
fn every_successor_keeps_processes_variables_and_spaces() {
    // if true -> x := 1 [] true -> ts.put(7) fi  ||  y := 2
    let ts = TupleSpaceName("ts".to_string());
    let choice = cmd(
        CommandKind::If(vec![
            Guard {
                guard: BExpr::Bool(true),
                cmds: Commands(vec![cmd(CommandKind::Assignment(var_target("x"), AExpr::Number(1)), 10)]),
            },
            Guard {
                guard: BExpr::Bool(true),
                cmds: Commands(vec![cmd(CommandKind::O(Operation::Put(ts.clone(), vec![AExpr::Number(7)])), 20)]),
            },
        ]),
        0,
    );
    let other = Commands(vec![cmd(CommandKind::Assignment(var_target("y"), AExpr::Number(2)), 30)]);
    let mut spaces = IndexMap::new();
    spaces.insert(ts, TupleSpace { space_type: TupleSpaceType::Random, size: BufferSize::Infinite, space: vec![] });
    let p = Program::compile(vec![Commands(vec![choice]), other], vec![], spaces, IndexMap::new(), IndexMap::new());
    let s = p.initial_state(|_| 0, |_| vec![], vec![vec![]], vec![]);
    let next = s.step(&p);
    assert_eq!(next.len(), 3);
    for n in &next {
        assert_eq!(n.spans(&p).len(), s.spans(&p).len());
        assert_eq!(n.variables(&p).len(), s.variables(&p).len());
    }
    // choosing a branch only moves the process into its body
    assert_eq!(next[0].format(&p).to_string(), "x = 0, y = 0, ts = {}");
    assert_eq!(next[1].format(&p).to_string(), "x = 0, y = 0, ts = {}");
    assert_eq!(next[2].format(&p).to_string(), "x = 0, y = 2, ts = {}");
    let after_put = next[1].step(&p);
    assert_eq!(after_put.len(), 2);
    assert_eq!(after_put[0].format(&p).to_string(), "x = 0, y = 0, ts = {(7)}");
    for n in &after_put {
        assert_eq!(n.spans(&p).len(), 2);
        assert_eq!(n.variables(&p).len(), 2);
    }
}

#[test]
fn distinct_states_have_distinct_ids() {
    let cmds = Commands(vec![cmd(CommandKind::Assignment(var_target("x"), AExpr::Number(12)), 0)]);
    let p = Program::compile(vec![cmds], vec![], IndexMap::new(), IndexMap::new(), IndexMap::new());
    let s = p.initial_state(|_| 1, |_| vec![], vec![], vec![]);
    let t = p.initial_state(|_| 11, |_| vec![], vec![], vec![]);
    assert_ne!(s.raw_id(), t.raw_id());
    let next = s.step(&p);
    assert_ne!(next[0].raw_id(), s.raw_id());
    assert_eq!(next[0].raw_id(), "12@1");
}
