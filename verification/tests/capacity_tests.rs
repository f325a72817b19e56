use sprint_planner::capacity::Capacities;
use sprint_planner::fixed::Fixed;

fn caps(pairs: &[(&str, u64)]) -> Capacities {
    let mut c = Capacities::new();
    for (label, amount) in pairs {
        c.add_capacity(label.to_string(), Fixed::from_thousandths(*amount));
    }
    c
}

fn value_of(c: &Capacities, label: &str) -> Option<u64> {
    c.get_capacity_by_name(label).map(|b| b.capacity.thousandths)
}

#[test]
fn combine_sums_matching_labels_and_unions_the_rest() {
    let a = caps(&[("Feature", 1000), ("Support", 250)]);
    let b = caps(&[("Support", 750), ("Maintenance", 500)]);
    let r = a.combine(b);
    assert_eq!(value_of(&r, "Feature"), Some(1000));
    assert_eq!(value_of(&r, "Support"), Some(1000));
    assert_eq!(value_of(&r, "Maintenance"), Some(500));
    assert_eq!(value_of(&r, "Absent"), None);
}

#[test]
fn combine_is_commutative_on_values() {
    let labels = ["Feature", "Support", "Maintenance"];
    let a1 = caps(&[("Feature", 1000), ("Support", 250)]);
    let b1 = caps(&[("Support", 750), ("Maintenance", 500)]);
    let a2 = caps(&[("Feature", 1000), ("Support", 250)]);
    let b2 = caps(&[("Support", 750), ("Maintenance", 500)]);
    let ab = a1.combine(b1);
    let ba = b2.combine(a2);
    for label in labels {
        assert_eq!(value_of(&ab, label), value_of(&ba, label));
    }
}

#[test]
fn combine_is_associative_on_values() {
    let labels = ["Feature", "Support", "Maintenance", "Extra"];
    let make = || {
        (
            caps(&[("Feature", 1000), ("Support", 250)]),
            caps(&[("Support", 750), ("Extra", 10)]),
            caps(&[("Feature", 5), ("Maintenance", 500)]),
        )
    };
    let (a, b, c) = make();
    let left = a.combine(b).combine(c);
    let (a, b, c) = make();
    let right = a.combine(b.combine(c));
    for label in labels {
        assert_eq!(value_of(&left, label), value_of(&right, label));
    }
}

#[test]
fn combine_with_empty_changes_nothing() {
    let a = caps(&[("Feature", 1000), ("Support", 250)]);
    let r = a.combine(Capacities::new());
    assert_eq!(value_of(&r, "Feature"), Some(1000));
    assert_eq!(value_of(&r, "Support"), Some(250));
    assert_eq!(value_of(&r, "Maintenance"), None);
}

#[test]
fn combine_saturates_instead_of_overflowing() {
    let a = caps(&[("Feature", u64::MAX - 100)]);
    let b = caps(&[("Feature", 200)]);
    let r = a.combine(b);
    assert_eq!(value_of(&r, "Feature"), Some(u64::MAX));
}

#[test]
fn add_capacity_accumulates_into_one_bucket() {
    let mut c = Capacities::new();
    c.add_capacity("Feature".to_string(), Fixed::from_thousandths(300));
    c.add_capacity("Feature".to_string(), Fixed::from_thousandths(700));
    assert_eq!(value_of(&c, "Feature"), Some(1000));
}

#[test]
fn feature_capacity_defaults_to_zero() {
    let empty = Capacities::new();
    let fc = empty.get_feature_capacity();
    assert_eq!(fc.label, "Feature");
    assert_eq!(fc.capacity.thousandths, 0);

    let c = caps(&[("Feature", 2500)]);
    let fc = c.get_feature_capacity();
    assert_eq!(fc.label, "Feature");
    assert_eq!(fc.capacity.thousandths, 2500);
}
