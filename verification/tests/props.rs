use cypherlite_query::executor::props::{
    add_property_if_absent, check_node_property, check_writable, remove_property, remove_target,
    remove_write, set_property, set_target, set_write, EntityKind, PropertyWrite,
};
use cypherlite_query::parser::ast::Expression;

#[test]
fn set_property_updates_existing_entry_in_place() {
    let mut props: Vec<(u32, String)> = vec![(1, "a".to_string()), (2, "b".to_string())];
    set_property(&mut props, 1, "z".to_string());
    assert_eq!(props, vec![(1, "z".to_string()), (2, "b".to_string())]);
}

#[test]
fn set_property_appends_missing_entry() {
    let mut props: Vec<(u32, i64)> = vec![(1, 10)];
    set_property(&mut props, 3, 30);
    assert_eq!(props, vec![(1, 10), (3, 30)]);
}

#[test]
fn set_property_touches_only_the_first_entry_for_a_key() {
    let mut props: Vec<(u32, i64)> = vec![(5, 1), (5, 2)];
    set_property(&mut props, 5, 9);
    assert_eq!(props, vec![(5, 9), (5, 2)]);
}

#[test]
fn set_property_twice_keeps_the_last_value() {
    let mut props: Vec<(u32, i64)> = vec![(1, 10)];
    set_property(&mut props, 2, 20);
    set_property(&mut props, 2, 21);
    assert_eq!(props, vec![(1, 10), (2, 21)]);
}

#[test]
fn remove_property_drops_every_entry_of_the_key() {
    let props: Vec<(u32, i64)> = vec![(1, 10), (2, 20), (1, 11), (3, 30)];
    assert_eq!(remove_property(props, 1), vec![(2, 20), (3, 30)]);
}

#[test]
fn remove_property_of_absent_key_keeps_everything() {
    let props: Vec<(u32, i64)> = vec![(1, 10), (2, 20)];
    assert_eq!(remove_property(props, 9), vec![(1, 10), (2, 20)]);
    assert_eq!(remove_property(Vec::<(u32, i64)>::new(), 1), vec![]);
}

#[test]
fn system_properties_are_read_only() {
    let err = check_writable("_created_at").unwrap_err();
    assert_eq!(err.message, "System property is read-only: _created_at");
    assert!(check_writable("_updated_at").is_err());
    assert!(check_writable("_valid_from").is_ok());
    assert!(check_writable("name").is_ok());
}

#[test]
fn temporal_properties_only_on_edges() {
    let err = check_node_property("_valid_to").unwrap_err();
    assert_eq!(err.message, "Property '_valid_to' is only valid on edges, not nodes");
    assert!(check_node_property("_valid_from").is_err());
    assert!(check_node_property("name").is_ok());
    assert!(check_node_property("_created_at").is_ok());
}

#[test]
fn add_if_absent_keeps_a_user_value() {
    let mut props: Vec<(u32, i64)> = vec![(4, 111)];
    add_property_if_absent(&mut props, 4, 999);
    assert_eq!(props, vec![(4, 111)]);
    add_property_if_absent(&mut props, 5, 999);
    assert_eq!(props, vec![(4, 111), (5, 999)]);
}

#[test]
fn set_and_remove_targets_must_be_property_accesses() {
    let n = Expression::Variable("n".to_string());
    let prop = Expression::Property(Box::new(n.clone()), "name".to_string());
    let (e, name) = set_target(&prop).unwrap();
    assert_eq!(e, &n);
    assert_eq!(name, "name");
    assert_eq!(
        set_target(&n).unwrap_err().message,
        "SET target must be a property access expression"
    );
    assert_eq!(
        remove_target(&n).unwrap_err().message,
        "REMOVE property must be a property access expression"
    );
    let sys = Expression::Property(Box::new(n.clone()), "_created_at".to_string());
    assert_eq!(set_target(&sys).unwrap_err().message, "System property is read-only: _created_at");
    assert_eq!(remove_target(&sys).unwrap_err().message, "System property is read-only: _created_at");
    let (e, name) = remove_target(&prop).unwrap();
    assert_eq!((e, name.as_str()), (&n, "name"));
}

#[test]
fn set_and_remove_write_to_nodes_edges_or_nothing() {
    assert_eq!(set_write(EntityKind::Node, "age"), Ok(PropertyWrite::Node));
    assert_eq!(
        set_write(EntityKind::Node, "_valid_from").unwrap_err().message,
        "Property '_valid_from' is only valid on edges, not nodes"
    );
    assert_eq!(set_write(EntityKind::Edge, "_valid_from"), Ok(PropertyWrite::Edge));
    assert_eq!(set_write(EntityKind::Null, "age"), Ok(PropertyWrite::Nothing));
    assert_eq!(
        set_write(EntityKind::Other, "age").unwrap_err().message,
        "SET target must be a node or edge property"
    );
    assert_eq!(remove_write(EntityKind::Node), Ok(PropertyWrite::Node));
    assert_eq!(remove_write(EntityKind::Edge), Ok(PropertyWrite::Edge));
    assert_eq!(remove_write(EntityKind::Null), Ok(PropertyWrite::Nothing));
    assert_eq!(
        remove_write(EntityKind::Other).unwrap_err().message,
        "REMOVE target must be a node or edge property"
    );
}
