use partiql_frontend::logical::{
    BinaryOp, BindingsExpr, LogicalPlan, OpId, PathComponent, Scan, UnaryOp, ValueExpr, Where,
};
use partiql_value::{BindingsName, Value};

#[test]
fn test_plan() {
    let mut p: LogicalPlan<BindingsExpr> = LogicalPlan::new();
    let a = p.add_operator(BindingsExpr::OrderBy);
    let b = p.add_operator(BindingsExpr::Output);
    let c = p.add_operator(BindingsExpr::Limit);
    p.add_flow(a, b);
    p.add_flow(a, c);
    p.add_flow(b, c);
    assert_eq!(3, p.operators().len());
    assert_eq!(3, p.flows().len());
}

#[test]
fn new_plan_is_empty() {
    let p: LogicalPlan<BindingsExpr> = LogicalPlan::new();
    assert_eq!(0, p.operator_count());
    assert_eq!(0, p.operators().len());
    assert_eq!(0, p.flows().len());
}

#[test]
fn operators_are_numbered_from_one_in_creation_order() {
    let mut p: LogicalPlan<u32> = LogicalPlan::new();
    let a = p.add_operator(10);
    let b = p.add_operator(20);
    let c = p.add_operator(30);
    assert_eq!(1, a.index());
    assert_eq!(2, b.index());
    assert_eq!(3, c.index());
    assert_eq!(3, p.operator_count());
    assert_eq!(&vec![10, 20, 30], p.operators());
    assert_ne!(a, b);
    assert_eq!(a, a);
}

#[test]
fn flows_keep_insertion_order() {
    let mut p: LogicalPlan<BindingsExpr> = LogicalPlan::new();
    let a = p.add_operator(BindingsExpr::OrderBy);
    let b = p.add_operator(BindingsExpr::Output);
    let c = p.add_operator(BindingsExpr::Limit);
    p.add_flow(a, b);
    p.add_flow(a, c);
    p.add_flow(b, c);
    assert_eq!(3, p.operator_count());
    assert_eq!(&vec![(a, b), (a, c), (b, c)], p.flows());
}

#[test]
fn plan_only_grows() {
    let mut p: LogicalPlan<u8> = LogicalPlan::new();
    let mut ids: Vec<OpId> = Vec::new();
    let mut operators = 0;
    let mut flows = 0;
    for step in 0..20u8 {
        if step % 3 == 2 {
            let src = ids[(step as usize) % ids.len()];
            let dst = ids[ids.len() - 1];
            p.add_flow(src, dst);
            flows += 1;
        } else {
            ids.push(p.add_operator(step));
            operators += 1;
        }
        assert_eq!(operators, p.operator_count());
        assert_eq!(flows, p.flows().len());
        for (src, dst) in p.flows() {
            assert!(1 <= src.index() && src.index() <= p.operator_count());
            assert!(1 <= dst.index() && dst.index() <= p.operator_count());
        }
    }
}

#[test]
fn try_add_flow_refuses_what_the_plan_did_not_mint() {
    let mut small: LogicalPlan<u8> = LogicalPlan::new();
    let mut large: LogicalPlan<u8> = LogicalPlan::new();
    let a = small.add_operator(1);
    let _ = large.add_operator(1);
    let far = large.add_operator(2);
    assert!(!small.try_add_flow(a, far));
    assert!(!small.try_add_flow(far, a));
    assert_eq!(0, small.flows().len());
    assert!(small.try_add_flow(a, a));
    assert_eq!(&vec![(a, a)], small.flows());
    assert_eq!(1, small.operator_count());
}

#[test]
fn default_stage_is_output() {
    assert!(matches!(BindingsExpr::default(), BindingsExpr::Output));
}

#[test]
fn a_plan_holds_stages_with_expressions() {
    let name = ValueExpr::VarRef(BindingsName::CaseInsensitive("data".to_string()));
    let scan = Scan { expr: name, as_key: "d".to_string(), at_key: None };
    let condition = ValueExpr::BinaryExpr(
        BinaryOp::Gt,
        Box::new(ValueExpr::Path(
            Box::new(ValueExpr::VarRef(BindingsName::CaseSensitive("d".to_string()))),
            vec![PathComponent::Key("a".to_string()), PathComponent::Index(0)],
        )),
        Box::new(ValueExpr::UnExpr(UnaryOp::Neg, Box::new(ValueExpr::Lit(Box::new(Value::Integer(1)))))),
    );
    let filter = Where { expr: condition, out: Box::new(BindingsExpr::Output) };
    let mut p: LogicalPlan<BindingsExpr> = LogicalPlan::new();
    let source = p.add_operator(BindingsExpr::Scan(scan));
    let kept = p.add_operator(BindingsExpr::Where(filter));
    p.add_flow(source, kept);
    assert_eq!(2, p.operator_count());
    assert!(matches!(p.operators()[0], BindingsExpr::Scan(_)));
    assert!(matches!(p.operators()[1], BindingsExpr::Where(_)));
    assert_eq!(&vec![(source, kept)], p.flows());
}
