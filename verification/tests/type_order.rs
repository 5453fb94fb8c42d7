use module_definitions::type_order::{
    AnswersSolver, Class, ClassMetadata, ClassType, Stdlib, TypeOrder,
};

fn class(index: u32) -> Class {
    Class { index }
}

fn applied(index: u32, targs: u32) -> ClassType {
    ClassType { class: class(index), targs }
}

/// `object` is class 0; class 1 is `type`; class 2 derives from nothing else; class 3 derives
/// from 2 and has the metaclass `type`; class 4 derives from 3 and twice, differently
/// applied, from 2.
fn solver() -> AnswersSolver {
    AnswersSolver::new(
        Stdlib { object: applied(0, 0) },
        vec![
            ClassMetadata { ancestors: vec![], metaclass: None },
            ClassMetadata { ancestors: vec![], metaclass: None },
            ClassMetadata { ancestors: vec![], metaclass: None },
            ClassMetadata { ancestors: vec![applied(2, 7)], metaclass: Some(applied(1, 0)) },
            ClassMetadata {
                ancestors: vec![applied(3, 0), applied(2, 8), applied(2, 9)],
                metaclass: Some(applied(1, 0)),
            },
        ],
    )
}

#[test]
fn test_stdlib() {
    let solver = solver();
    let order = TypeOrder::new(&solver);
    assert_eq!(order.stdlib().object, applied(0, 0));
    assert_eq!(order.solver().stdlib, solver.stdlib);
}

#[test]
fn test_has_superclass() {
    let solver = solver();
    let order = TypeOrder::new(&solver);
    assert!(order.has_superclass(&class(3), &class(3)));
    assert!(order.has_superclass(&class(3), &class(2)));
    assert!(order.has_superclass(&class(4), &class(2)));
    assert!(order.has_superclass(&class(4), &class(3)));
    assert!(!order.has_superclass(&class(2), &class(3)));
    assert!(!order.has_superclass(&class(3), &class(4)));
    assert!(!order.has_superclass(&class(3), &class(1)));
}

#[test]
fn test_object_is_superclass_of_every_class() {
    let solver = solver();
    let order = TypeOrder::new(&solver);
    for index in 0..7 {
        assert!(order.has_superclass(&class(index), &class(0)));
    }
    assert!(!order.has_superclass(&class(0), &class(2)));
    assert!(order.has_superclass(&class(99), &class(99)));
    assert!(!order.has_superclass(&class(99), &class(2)));
}

#[test]
fn test_as_superclass() {
    let solver = solver();
    let order = TypeOrder::new(&solver);
    assert_eq!(order.as_superclass(&applied(3, 5), &class(3)), Some(applied(3, 5)));
    assert_eq!(order.as_superclass(&applied(3, 5), &class(2)), Some(applied(2, 7)));
    assert_eq!(order.as_superclass(&applied(4, 5), &class(2)), Some(applied(2, 8)));
    assert_eq!(order.as_superclass(&applied(4, 5), &class(0)), Some(applied(0, 0)));
    assert_eq!(order.as_superclass(&applied(2, 5), &class(3)), None);
    assert_eq!(order.as_superclass(&applied(99, 5), &class(0)), Some(applied(0, 0)));
    assert_eq!(order.as_superclass(&applied(99, 5), &class(1)), None);
}

#[test]
fn test_has_metaclass() {
    let solver = solver();
    let order = TypeOrder::new(&solver);
    assert!(order.has_metaclass(&class(3), &applied(1, 0)));
    assert!(!order.has_metaclass(&class(3), &applied(1, 1)));
    assert!(!order.has_metaclass(&class(3), &applied(2, 0)));
    assert!(!order.has_metaclass(&class(2), &applied(1, 0)));
    assert!(!order.has_metaclass(&class(99), &applied(1, 0)));
}

#[test]
fn test_type_order_is_a_copy_of_the_reference() {
    let solver = solver();
    let order = TypeOrder::new(&solver);
    let copy = order;
    assert!(order.has_superclass(&class(3), &class(2)));
    assert!(copy.has_superclass(&class(3), &class(2)));
}
