use chip::ast::{
    AExpr, BExpr, ChannelFormula, ChannelName, Command, CommandKind, Commands, Guard, LTLFormula,
    Operation, SourceSpan, TupleSpaceName,
};
use chip::ast::{BufferSize, TupleSpace, TupleSpaceType};
use chip::program::Program;
use chip::validate::{validate_ltl_program, Initial, ValidationError};
use indexmap::IndexMap;

fn empty_initial() -> Initial {
    Initial {
        variables: IndexMap::new(),
        arrays: IndexMap::new(),
        tuple_spaces: IndexMap::new(),
        async_channels: IndexMap::new(),
        sync_channels: vec![],
    }
}

fn at(offset: usize) -> SourceSpan {
    SourceSpan { offset, length: 3 }
}

#[test]
fn undeclared_tuple_space_is_reported() {
    let cmds = Commands(vec![Command {
        kind: CommandKind::O(Operation::Put(TupleSpaceName("ts".to_string()), vec![])),
        span: at(5),
    }]);
    match validate_ltl_program(empty_initial(), vec![cmds], vec![]) {
        Err(ValidationError::Undefined { name, from, to }) => {
            assert_eq!(name, "ts");
            assert_eq!(from, 5);
            assert_eq!(to, 7);
        },
        Ok(_) => panic!("accepted"),
    }
}

#[test]
fn synchronous_channel_is_declared() {
    let mut init = empty_initial();
    init.sync_channels.push(ChannelName("c".to_string()));
    let cmds = Commands(vec![
        Command { kind: CommandKind::Send(ChannelName("c".to_string()), AExpr::Number(1)), span: at(0) },
        Command { kind: CommandKind::Broadcast(ChannelName("c".to_string()), 1, AExpr::Number(1)), span: at(4) },
    ]);
    let r = validate_ltl_program(init, vec![cmds], vec![]);
    match r {
        Ok(p) => {
            assert_eq!(p.commands.len(), 1);
            assert_eq!(p.initial.sync_channels.len(), 1);
        },
        Err(_) => panic!("refused"),
    }
}

#[test]
fn broadcast_needs_a_synchronous_channel() {
    let cmds = Commands(vec![Command {
        kind: CommandKind::Broadcast(ChannelName("bc".to_string()), 2, AExpr::Number(1)),
        span: at(10),
    }]);
    match validate_ltl_program(empty_initial(), vec![cmds], vec![]) {
        Err(ValidationError::Undefined { name, from, to }) => {
            assert_eq!(name, "bc");
            assert_eq!((from, to), (10, 12));
        },
        Ok(_) => panic!("accepted"),
    }
}

#[test]
fn first_error_in_loop_guards_comes_first() {
    let guard = BExpr::OP(chip::ast::OperationP::QueryP(TupleSpaceName("g".to_string()), vec![]));
    let body = Commands(vec![Command {
        kind: CommandKind::O(Operation::Get(TupleSpaceName("b".to_string()), vec![])),
        span: at(30),
    }]);
    let cmds = Commands(vec![Command { kind: CommandKind::Loop(vec![Guard { guard, cmds: body }]), span: at(20) }]);
    match validate_ltl_program(empty_initial(), vec![cmds], vec![]) {
        Err(ValidationError::Undefined { name, from, .. }) => {
            assert_eq!(name, "g");
            assert_eq!(from, 20);
        },
        Ok(_) => panic!("accepted"),
    }
}

#[test]
fn bodies_of_a_plain_if_are_not_checked() {
    let body = Commands(vec![Command {
        kind: CommandKind::O(Operation::Get(TupleSpaceName("b".to_string()), vec![])),
        span: at(30),
    }]);
    let cmds = Commands(vec![Command {
        kind: CommandKind::If(vec![Guard { guard: BExpr::Bool(true), cmds: body }]),
        span: at(20),
    }]);
    assert!(validate_ltl_program(empty_initial(), vec![cmds], vec![]).is_ok());
}

#[test]
fn property_channels_must_be_asynchronous() {
    let mut init = empty_initial();
    init.sync_channels.push(ChannelName("c".to_string()));
    let prop = LTLFormula::Globally(Box::new(LTLFormula::ChannelFormula(ChannelFormula::ChannelHead(
        ChannelName("c".to_string()),
        AExpr::Number(0),
    ))));
    match validate_ltl_program(init, vec![], vec![(at(40), prop)]) {
        Err(ValidationError::Undefined { name, from, to }) => {
            assert_eq!(name, "c");
            assert_eq!((from, to), (40, 41));
        },
        Ok(_) => panic!("accepted"),
    }
}

#[test]
fn validated_programs_compile_with_their_tuple_spaces() {
    let ts = TupleSpaceName("ts".to_string());
    let put = |name: &TupleSpaceName, at_: usize| Command {
        kind: CommandKind::O(Operation::Put(name.clone(), vec![AExpr::Number(1)])),
        span: at(at_),
    };
    let declare = |init: &mut Initial| {
        init.tuple_spaces.insert(
            ts.clone(),
            TupleSpace { space_type: TupleSpaceType::Queue, size: BufferSize::Infinite, space: vec![] },
        );
    };
    // a checked operation: validation and compilation agree
    let mut init = empty_initial();
    declare(&mut init);
    let prog = validate_ltl_program(init, vec![Commands(vec![put(&ts, 0)])], vec![]).ok().unwrap();
    let compiled = Program::checked_compile(
        prog.commands,
        vec![],
        prog.initial.tuple_spaces,
        prog.initial.async_channels,
        IndexMap::new(),
    );
    assert!(compiled.is_some());
    // inside a plain `if` an undeclared space passes validation but not
    // compilation
    let hidden = Commands(vec![Command {
        kind: CommandKind::If(vec![Guard {
            guard: BExpr::Bool(true),
            cmds: Commands(vec![put(&TupleSpaceName("nowhere".to_string()), 10)]),
        }]),
        span: at(5),
    }]);
    let mut init = empty_initial();
    declare(&mut init);
    let prog = validate_ltl_program(init, vec![hidden], vec![]).ok().unwrap();
    let compiled = Program::checked_compile(
        prog.commands,
        vec![],
        prog.initial.tuple_spaces,
        prog.initial.async_channels,
        IndexMap::new(),
    );
    assert!(compiled.is_none());
}
