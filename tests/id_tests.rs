use mach::id::{ClientId, Id, IdError, ServerId};

#[test]
fn namespace_violations_are_rejected() {
    assert_eq!(ClientId::try_new(Id::new(0)), Err(IdError::InvalidNamespace));
    assert_eq!(ClientId::try_new(Id::new(-1)), Err(IdError::InvalidNamespace));
    assert_eq!(ServerId::try_new(Id::new(0)), Err(IdError::InvalidNamespace));
    assert_eq!(ServerId::try_new(Id::new(1)), Err(IdError::InvalidNamespace));
}

#[test]
fn namespace_values_are_accepted() {
    let c = ClientId::try_new(Id::new(5)).unwrap();
    assert_eq!(c.as_id(), Id::new(5));
    let s = ServerId::try_new(Id::new(-5)).unwrap();
    assert_eq!(s.as_id(), Id::new(-5));
    assert_eq!(s.as_id().value(), -5);
}

#[test]
fn wrappers_compare_with_bare_ids() {
    let s = ServerId::new(Id::new(-3));
    let c = ClientId::new(Id::new(3));
    assert!(s.eq_id(Id::new(-3)));
    assert!(!s.eq_id(Id::new(3)));
    assert!(c.eq_id(Id::new(3)));
    assert!(Id::new(-3).eq_server(s));
    assert!(Id::new(3).eq_client(c));
    assert!(!Id::new(-3).eq_client(c));
}
