use named_lookup::Lookup;
use named_lookup::LookupError;
use named_lookup::Named;

#[derive(Debug, PartialEq)]
struct Item {
    name: String,
}

impl Item {
    fn new(n: &str) -> Self {
        Item { name: n.to_owned() }
    }
}

impl Named for Item {
    fn name(&self) -> &str {
        &self.name
    }
}

#[test]
fn indexes() {
    let mut lookup = Lookup::new();
    lookup.push(Item::new("foo")).unwrap();
    lookup.push(Item::new("bar")).unwrap();

    let first_index = lookup.position_of_name("foo").unwrap();
    let second_index = lookup.position_of_name("bar").unwrap();
    assert_eq!(first_index, 0);
    assert_eq!(second_index, 1);
}

#[test]
fn equality_with_two_items() {
    let mut first = Lookup::new();
    first.push(Item::new("foo")).unwrap();
    first.push(Item::new("bar")).unwrap();

    let mut second = Lookup::new();
    second.push(Item::new("foo")).unwrap();
    second.push(Item::new("bar")).unwrap();

    assert_eq!(first, second);
}

#[test]
#[should_panic]
fn equality_with_two_different_items() {
    let mut first = Lookup::new();
    first.push(Item::new("foo")).unwrap();
    first.push(Item::new("bar")).unwrap();

    let mut second = Lookup::new();
    second.push(Item::new("foo")).unwrap();
    second.push(Item::new("quux")).unwrap();

    assert_eq!(first, second);
}

#[test]
fn swap_two_items_by_index() {
    let mut first = Lookup::new();
    first.push(Item::new("bar")).unwrap();
    first.push(Item::new("foo")).unwrap();

    let mut second = Lookup::new();
    second.push(Item::new("foo")).unwrap();
    second.push(Item::new("bar")).unwrap();

    first.swap_by_index(0, 1).unwrap();
    assert_eq!(first, second);
}

#[test]
fn swap_with_invalid_index() {
    let mut lookup = Lookup::new();
    lookup.push(Item::new("bar")).unwrap();
    lookup.push(Item::new("foo")).unwrap();

    assert!(lookup.swap_by_index(0, 2).is_err());
}

#[test]
fn swap_two_items_by_name() {
    let mut first = Lookup::new();
    first.push(Item::new("bar")).unwrap();
    first.push(Item::new("foo")).unwrap();

    let mut second = Lookup::new();
    second.push(Item::new("foo")).unwrap();
    second.push(Item::new("bar")).unwrap();

    first.swap_by_name("foo", "bar").unwrap();
    assert_eq!(first, second);
}

#[test]
fn insertion_order_is_position_order() {
    let mut lookup = Lookup::new();
    lookup.push(Item::new("foo")).unwrap();
    lookup.push(Item::new("bar")).unwrap();

    assert_eq!(lookup.get_by_index(0).unwrap().name(), "foo");
    assert_eq!(lookup.get_by_index(1).unwrap().name(), "bar");
    assert!(std::ptr::eq(
        lookup.get_by_name("foo").unwrap(),
        lookup.get_by_index(0).unwrap(),
    ));
}

#[test]
fn names_resolve_after_swaps() {
    let mut lookup = Lookup::new();
    lookup.push(Item::new("foo")).unwrap();
    lookup.push(Item::new("bar")).unwrap();
    lookup.push(Item::new("quux")).unwrap();

    lookup.swap_by_index(0, 2).unwrap();
    lookup.swap_by_name("bar", "foo").unwrap();

    for position in 0..3 {
        let item = lookup.get_by_index(position).unwrap();
        let found = lookup.position_of_name(item.name()).unwrap();
        assert_eq!(found, position);
        assert_eq!(lookup.get_by_name(item.name()).unwrap(), item);
    }
}

#[test]
fn swap_with_invalid_index_reports_it_and_changes_nothing() {
    let mut lookup = Lookup::new();
    lookup.push(Item::new("foo")).unwrap();
    lookup.push(Item::new("bar")).unwrap();

    let mut snapshot = Lookup::new();
    snapshot.push(Item::new("foo")).unwrap();
    snapshot.push(Item::new("bar")).unwrap();

    assert_eq!(
        lookup.swap_by_index(0, 2),
        Err(LookupError::InvalidIndex(2))
    );
    assert_eq!(
        lookup.swap_by_index(5, 1),
        Err(LookupError::InvalidIndex(5))
    );
    assert_eq!(lookup, snapshot);
}

#[test]
fn swap_with_invalid_name_reports_it_and_changes_nothing() {
    let mut lookup = Lookup::new();
    lookup.push(Item::new("foo")).unwrap();
    lookup.push(Item::new("bar")).unwrap();

    let mut snapshot = Lookup::new();
    snapshot.push(Item::new("foo")).unwrap();
    snapshot.push(Item::new("bar")).unwrap();

    assert_eq!(
        lookup.swap_by_name("foo", "nonexistent"),
        Err(LookupError::InvalidName("nonexistent".to_owned()))
    );
    assert_eq!(
        lookup.swap_by_name("missing", "bar"),
        Err(LookupError::InvalidName("missing".to_owned()))
    );
    assert_eq!(lookup, snapshot);
}

#[test]
fn lookup_misses_return_nothing() {
    let empty: Lookup<Item> = Lookup::new();
    assert!(empty.get_by_name("foo").is_none());
    assert!(empty.get_by_index(0).is_none());

    let mut lookup = Lookup::new();
    lookup.push(Item::new("foo")).unwrap();
    lookup.push(Item::new("bar")).unwrap();
    assert!(lookup.get_by_name("nonexistent").is_none());
    assert!(lookup.position_of_name("nonexistent").is_none());
    assert!(lookup.get_by_index(2).is_none());
}

#[test]
fn swap_of_a_position_with_itself_changes_nothing() {
    let mut lookup = Lookup::new();
    lookup.push(Item::new("foo")).unwrap();
    lookup.push(Item::new("bar")).unwrap();

    let mut snapshot = Lookup::new();
    snapshot.push(Item::new("foo")).unwrap();
    snapshot.push(Item::new("bar")).unwrap();

    lookup.swap_by_index(1, 1).unwrap();
    lookup.swap_by_name("foo", "foo").unwrap();
    assert_eq!(lookup, snapshot);
}

#[test]
fn duplicate_name_is_rejected() {
    let mut lookup = Lookup::new();
    lookup.push(Item::new("foo")).unwrap();

    assert_eq!(
        lookup.push(Item::new("foo")),
        Err(LookupError::DuplicateName("foo".to_owned()))
    );
    assert_eq!(lookup.get_by_index(0).unwrap().name(), "foo");
    assert!(lookup.get_by_index(1).is_none());
}

#[test]
fn swap_by_name_matches_swap_by_index() {
    let mut by_name = Lookup::new();
    by_name.push(Item::new("bar")).unwrap();
    by_name.push(Item::new("foo")).unwrap();

    let mut by_index = Lookup::new();
    by_index.push(Item::new("bar")).unwrap();
    by_index.push(Item::new("foo")).unwrap();

    // foo sits at position 1 and bar at position 0
    by_name.swap_by_name("foo", "bar").unwrap();
    by_index.swap_by_index(1, 0).unwrap();
    assert_eq!(by_name, by_index);
}
