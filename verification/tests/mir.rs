use candy::builtin_functions::BuiltinFunction;
use candy::mir::{Body, Expression, Id, ReferenceCounts};
use rustc_hash::FxHashSet;

/// A function with parameters 1 and 2 and responsible parameter 3 whose body
/// defines 4 (a call of 1 with 2, with 3 responsible) and 5 (a reference to
/// 4).
fn function() -> Expression {
    let mut body = Body::new();
    body.push(
        Id(4),
        Expression::Call { function: Id(1), arguments: vec![Id(2)], responsible: Id(3) },
    );
    body.push(Id(5), Expression::Reference(Id(4)));
    Expression::Function {
        original_hirs: vec!["main:0".to_string()],
        parameters: vec![Id(1), Id(2)],
        responsible_parameter: Id(3),
        body,
    }
}

fn entries(body: &Body) -> Vec<(Id, String)> {
    body.expressions.iter().map(|(id, e)| (*id, format!("{e:?}"))).collect()
}

#[test]
fn defined_ids_of_a_function() {
    assert_eq!(function().defined_ids(), vec![Id(1), Id(2), Id(3), Id(4), Id(5)]);
    assert_eq!(Expression::Reference(Id(7)).defined_ids(), vec![]);
    let mut body = Body::new();
    body.push(Id(0), Expression::Text("hi".to_string()));
    body.push(Id(6), function());
    assert_eq!(body.defined_ids(), vec![Id(0), Id(6), Id(1), Id(2), Id(3), Id(4), Id(5)]);
}

#[test]
fn replacing_references_keeps_the_defined_ids_of_the_body() {
    let mut f = function();
    f.replace_id_references(&|id: Id| Id(id.0 + 10));
    // The parameters and the body's entries keep their IDs.
    assert_eq!(f.defined_ids(), vec![Id(1), Id(2), Id(3), Id(4), Id(5)]);
    if let Expression::Function { body, .. } = &f {
        assert_eq!(
            entries(body),
            vec![
                (
                    Id(4),
                    format!(
                        "{:?}",
                        Expression::Call {
                            function: Id(11),
                            arguments: vec![Id(12)],
                            responsible: Id(13),
                        }
                    )
                ),
                (Id(5), format!("{:?}", Expression::Reference(Id(14)))),
            ]
        );
    } else {
        panic!("still a function");
    }
}

#[test]
fn replacing_all_ids_maps_the_defined_ids() {
    let mut f = function();
    f.replace_ids(&|id: Id| Id(id.0 * 2));
    assert_eq!(f.defined_ids(), vec![Id(2), Id(4), Id(6), Id(8), Id(10)]);
    let mut body = Body::new();
    body.push(Id(1), Expression::Builtin(BuiltinFunction::Print));
    body.push(Id(2), Expression::List(vec![Id(1), Id(1)]));
    body.replace_ids(&|id: Id| Id(id.0 + 100));
    assert_eq!(
        entries(&body),
        vec![
            (Id(101), format!("{:?}", Expression::Builtin(BuiltinFunction::Print))),
            (Id(102), format!("{:?}", Expression::List(vec![Id(101), Id(101)]))),
        ]
    );
    let mut references = Body::new();
    references.push(Id(1), Expression::Struct(vec![(Id(8), Id(9))]));
    references.replace_id_references(&|id: Id| Id(id.0 + 1));
    assert_eq!(
        entries(&references),
        vec![(Id(1), format!("{:?}", Expression::Struct(vec![(Id(9), Id(10))])))]
    );
}

#[test]
fn replacing_ids_with_the_identity_changes_nothing() {
    let mut f = function();
    let before = format!("{f:?}");
    f.replace_ids(&|id: Id| id);
    assert_eq!(format!("{f:?}"), before);
}

#[test]
fn reference_counts_count_every_reference() {
    let f = function();
    let counts = f.reference_counts();
    assert_eq!(counts.len(), 4);
    assert_eq!(counts.get(&Id(1)), Some(&1));
    assert_eq!(counts.get(&Id(2)), Some(&1));
    assert_eq!(counts.get(&Id(3)), Some(&1));
    assert_eq!(counts.get(&Id(4)), Some(&1));
    let call = Expression::Call { function: Id(7), arguments: vec![Id(7), Id(8)], responsible: Id(7) };
    let counts = call.reference_counts();
    assert_eq!(counts.get(&Id(7)), Some(&3));
    assert_eq!(counts.get(&Id(8)), Some(&1));
    assert_eq!(Expression::Parameter.reference_counts().len(), 0);
}

#[test]
fn captured_ids_are_references_not_defined_inside() {
    let mut body = Body::new();
    body.push(Id(10), Expression::Reference(Id(99)));
    body.push(Id(11), Expression::Call { function: Id(1), arguments: vec![Id(10)], responsible: Id(98) });
    let f = Expression::Function {
        original_hirs: vec![],
        parameters: vec![Id(1)],
        responsible_parameter: Id(2),
        body,
    };
    let captured = f.captured_ids();
    let expected: FxHashSet<Id> = [Id(99), Id(98)].into_iter().collect();
    assert_eq!(captured, expected);
    if let Expression::Function { body, .. } = &f {
        let all: FxHashSet<Id> = [Id(99), Id(98), Id(1), Id(10)].into_iter().collect();
        assert_eq!(body.all_ids(), all);
    }
}

#[test]
fn replaced_references_are_the_counted_ones() {
    let mut f = function();
    f.replace_id_references(&|id: Id| Id(id.0 + 10));
    let counts = f.reference_counts();
    assert_eq!(counts.len(), 4);
    for id in [11, 12, 13, 14] {
        assert_eq!(counts.get(&Id(id)), Some(&1));
    }
    let mut call = Expression::Call { function: Id(7), arguments: vec![Id(7), Id(8)], responsible: Id(7) };
    call.replace_id_references(&|id: Id| if id == Id(7) { Id(8) } else { id });
    assert_eq!(call.reference_counts().get(&Id(8)), Some(&4));
    assert_eq!(call.reference_counts().len(), 1);
}
