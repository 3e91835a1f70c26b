use chip::ast::{
    AExpr, ChannelFormula, ChannelName, Field, LTLFormula, Locator, OperationP, RelOp, Target,
    TupleSpaceName, Variable,
};
use chip::ltl::LtlExpr;

fn x_lt(n: i32) -> LTLFormula {
    LTLFormula::Rel(AExpr::Reference(Target::Variable(Variable("x".to_string()))), RelOp::Lt, AExpr::Number(n))
}

fn literal(e: &LtlExpr) -> String {
    match e {
        LtlExpr::Literal(s) => s.clone(),
        _ => panic!("not a literal"),
    }
}

#[test]
fn equal_predicates_share_a_name() {
    let op = OperationP::GetP(TupleSpaceName("ts".to_string()), vec![Field::Any]);
    let f = LTLFormula::And(
        Box::new(x_lt(1)),
        Box::new(LTLFormula::Or(Box::new(x_lt(1)), Box::new(LTLFormula::OperationP(op)))),
    );
    let mut rels = vec![];
    let mut ops = vec![];
    let mut chans = vec![];
    let e = f.to_mcltl(&mut rels, &mut ops, &mut chans);
    assert_eq!(rels.len(), 1);
    assert_eq!(ops.len(), 1);
    assert_eq!(chans.len(), 0);
    match e {
        LtlExpr::And(a, b) => {
            assert_eq!(literal(&a), "p0");
            match *b {
                LtlExpr::Or(c, d) => {
                    assert_eq!(literal(&c), "p0");
                    assert_eq!(literal(&d), "o0");
                },
                _ => panic!("not an or"),
            }
        },
        _ => panic!("not an and"),
    }
}

#[test]
fn different_predicates_get_new_names() {
    let mut rels = vec![];
    let mut ops = vec![];
    let mut chans = vec![];
    let a = x_lt(1).to_mcltl(&mut rels, &mut ops, &mut chans);
    let b = x_lt(2).to_mcltl(&mut rels, &mut ops, &mut chans);
    let c = x_lt(1).to_mcltl(&mut rels, &mut ops, &mut chans);
    assert_eq!(literal(&a), "p0");
    assert_eq!(literal(&b), "p1");
    assert_eq!(literal(&c), "p0");
    assert_eq!(rels.len(), 2);
    let cf = LTLFormula::ChannelFormula(ChannelFormula::ChannelContains(ChannelName("c".to_string()), AExpr::Number(3)));
    let d = cf.to_mcltl(&mut rels, &mut ops, &mut chans);
    assert_eq!(literal(&d), "c0");
}

#[test]
fn implication_becomes_a_disjunction() {
    let f = LTLFormula::Implies(Box::new(LTLFormula::Locator(Locator::Init)), Box::new(LTLFormula::Bool(true)));
    let e = f.to_mcltl(&mut vec![], &mut vec![], &mut vec![]);
    match e {
        LtlExpr::Or(a, b) => {
            match *a {
                LtlExpr::Not(inner) => assert_eq!(literal(&inner), "@init"),
                _ => panic!("not a negation"),
            }
            assert!(matches!(*b, LtlExpr::True));
        },
        _ => panic!("not an or"),
    }
}

#[test]
fn locators_name_their_propositions() {
    assert_eq!(Locator::Init.to_lit(), "@init");
    assert_eq!(Locator::Stuck.to_lit(), "@stuck");
    assert_eq!(Locator::Terminated.to_lit(), "@terminated");
}

#[test]
fn many_predicates_are_numbered_in_decimal() {
    let mut rels = vec![];
    let mut ops = vec![];
    let mut chans = vec![];
    let mut last = LtlExpr::True;
    for n in 0..12 {
        last = x_lt(n).to_mcltl(&mut rels, &mut ops, &mut chans);
    }
    assert_eq!(literal(&last), "p11");
}
