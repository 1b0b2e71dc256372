use candy_frontend::id::CountableId;
use candy_frontend::lir::{BodyId, ConstantId, Expression, Id};

fn id(n: usize) -> Id {
    Id::from_usize(n)
}

fn shifted(expression: Expression) -> Expression {
    let mut expression = expression;
    expression.replace_ids(|it: Id| Id::from_usize(it.to_usize() + 10));
    expression
}

#[test]
fn replace_ids_replaces_calls_in_order() {
    let call = Expression::Call {
        function: id(1),
        arguments: vec![id(2), id(3)],
        responsible: id(4),
    };
    assert!(
        shifted(call)
            == Expression::Call {
                function: id(11),
                arguments: vec![id(12), id(13)],
                responsible: id(14),
            }
    );
}

#[test]
fn replace_ids_keeps_everything_but_ids() {
    let tag = Expression::CreateTag {
        symbol: "Foo".to_string(),
        value: id(1),
    };
    assert!(
        shifted(tag)
            == Expression::CreateTag {
                symbol: "Foo".to_string(),
                value: id(11),
            }
    );
    let function = Expression::CreateFunction {
        captured: vec![id(0), id(5)],
        body_id: BodyId::from_usize(7),
    };
    assert!(
        shifted(function)
            == Expression::CreateFunction {
                captured: vec![id(10), id(15)],
                body_id: BodyId::from_usize(7),
            }
    );
    let constant = Expression::Constant(ConstantId::from_usize(3));
    assert!(shifted(constant) == Expression::Constant(ConstantId::from_usize(3)));
    let dup = Expression::Dup { id: id(2), amount: 4 };
    assert!(shifted(dup) == Expression::Dup { id: id(12), amount: 4 });
    let ends = Expression::TraceCallEnds { return_value: None };
    assert!(shifted(ends) == Expression::TraceCallEnds { return_value: None });
}

#[test]
fn replace_ids_replaces_struct_keys_and_values() {
    let create = Expression::CreateStruct(vec![(id(1), id(2)), (id(3), id(4))]);
    assert!(
        shifted(create) == Expression::CreateStruct(vec![(id(11), id(12)), (id(13), id(14))])
    );
    let jump = Expression::JumpConditionally {
        target: id(5),
        condition: id(6),
    };
    assert!(
        shifted(jump)
            == Expression::JumpConditionally {
                target: id(15),
                condition: id(16),
            }
    );
}
