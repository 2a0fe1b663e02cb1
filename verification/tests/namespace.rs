use librad::namespace::{Namespace, Urn};

#[test]
fn namespace_strips_path_from_urn() {
    let urn = Urn { id: vec![1, 2, 3], path: Some(b"lolek/bolek".to_vec()) };
    let ns = Namespace::from(urn);
    let back = ns.to_urn();
    assert_eq!(back.id, vec![1, 2, 3]);
    assert!(back.path.is_none());
}

#[test]
fn namespace_round_trips_the_id() {
    let urn = Urn::new(vec![42]);
    let ns = Namespace::from(urn.clone_urn());
    let back = Urn::from(ns);
    assert_eq!(back.id, urn.id);
    assert!(back.path.is_none());
}
