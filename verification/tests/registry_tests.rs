use sprint_planner::DomainError;
use sprint_planner::entities::{Feature, Objective, Role, Story};
use sprint_planner::fixed::Fixed;
use sprint_planner::registry::{MainAppData, MemberOptions, ObjectiveOptions, RoleWindow, Screen, StoryOptions, Window};

#[test]
fn role_added_is_found_by_name_with_its_velocity() {
    let mut d = MainAppData::new();
    d.add_role("Dev".to_string(), "1.0").unwrap();
    let r = d.get_role(&"Dev".to_string()).unwrap();
    assert_eq!(r.name, "Dev");
    assert_eq!(r.velocity.thousandths, 1000);
    assert!(d.get_role(&"Ops".to_string()).is_none());
}

#[test]
fn role_with_invalid_velocity_is_rejected() {
    let mut d = MainAppData::new();
    assert_eq!(
        d.add_role("Dev".to_string(), "fast"),
        Err(DomainError::ValidationError)
    );
    assert!(d.roles.is_empty());
}

#[test]
fn features_are_equal_by_name_alone() {
    let f1 = Feature::new("Search".to_string());
    let mut f2 = Feature::new("Search".to_string());
    f2.add_objective(Objective::new("Indexing".to_string()));
    assert!(f1.eq(&f2));
    let f3 = Feature::new("Browse".to_string());
    assert!(!f1.eq(&f3));
}

#[test]
fn same_named_features_silently_coexist() {
    let mut d = MainAppData::new();
    d.add_feature("Search".to_string());
    d.add_feature("Search".to_string());
    assert_eq!(d.features.len(), 2);
}

#[test]
fn remove_feature_removes_only_the_first_match() {
    let mut d = MainAppData::new();
    d.add_feature("Search".to_string());
    d.add_objective(&"Search".to_string(), "Indexing".to_string())
        .unwrap();
    d.add_feature("Search".to_string());
    d.remove_feature(&"Search".to_string());
    assert_eq!(d.features.len(), 1);
    // the survivor is the second, empty one
    assert!(d.features[0].objectives.is_empty());
    // removing a name that is absent changes nothing
    d.remove_feature(&"Browse".to_string());
    assert_eq!(d.features.len(), 1);
}

#[test]
fn add_objective_to_missing_feature_changes_nothing() {
    let mut d = MainAppData::new();
    d.add_feature("Search".to_string());
    let r = d.add_objective(&"Browse".to_string(), "Indexing".to_string());
    assert_eq!(r, Err(DomainError::NotFound));
    assert_eq!(d.features.len(), 1);
    assert!(d.features[0].objectives.is_empty());
}

#[test]
fn add_story_grows_exactly_one_objective() {
    let mut d = MainAppData::new();
    d.add_feature("Search".to_string());
    d.add_objective(&"Search".to_string(), "Indexing".to_string())
        .unwrap();
    d.add_objective(&"Search".to_string(), "Ranking".to_string())
        .unwrap();
    d.add_feature("Browse".to_string());
    let story = Story::new(
        "Tokenize".to_string(),
        Fixed::from_thousandths(3000),
        "desc".to_string(),
    );
    d.add_story(&"Search".to_string(), &"Indexing".to_string(), story)
        .unwrap();
    let f = d.get_feature(&"Search".to_string()).unwrap();
    assert_eq!(f.objectives[0].stories.len(), 1);
    assert_eq!(f.objectives[1].stories.len(), 0);
    let b = d.get_feature(&"Browse".to_string()).unwrap();
    assert!(b.objectives.is_empty());
}

#[test]
fn add_story_reports_not_found() {
    let mut d = MainAppData::new();
    d.add_feature("Search".to_string());
    let story = || Story::new("S".to_string(), Fixed::zero(), String::new());
    assert_eq!(
        d.add_story(&"Browse".to_string(), &"Indexing".to_string(), story()),
        Err(DomainError::NotFound)
    );
    assert_eq!(
        d.add_story(&"Search".to_string(), &"Indexing".to_string(), story()),
        Err(DomainError::NotFound)
    );
    assert!(d.features[0].objectives.is_empty());
}

#[test]
fn member_keeps_a_role_snapshot() {
    let mut d = MainAppData::new();
    d.add_role("Dev".to_string(), "1.0").unwrap();
    d.add_member(
        "Alice".to_string(),
        Role::new("Dev".to_string(), Fixed::from_thousandths(1000)),
        "5.0",
    )
    .unwrap();
    assert_eq!(d.roles.len(), 1);
    assert_eq!(d.roles[0].name, "Dev");
    assert_eq!(d.members.len(), 1);
    assert_eq!(d.members[0].name(), "Alice");
    assert_eq!(d.members[0].capacity().thousandths, 5000);
    // a later edit of the registry's role does not reach the snapshot
    d.roles[0].velocity = Fixed::from_thousandths(2000);
    assert_eq!(d.members[0].role().velocity.thousandths, 1000);
    assert_eq!(d.members[0].role().name, "Dev");
}

#[test]
fn member_with_invalid_capacity_is_rejected() {
    let mut d = MainAppData::new();
    let r = d.add_member(
        "Alice".to_string(),
        Role::new("Dev".to_string(), Fixed::from_thousandths(1000)),
        "lots",
    );
    assert_eq!(r, Err(DomainError::ValidationError));
    assert!(d.members.is_empty());
}

#[test]
fn story_under_feature_and_objective_is_reachable() {
    let mut d = MainAppData::new();
    d.add_feature("Search".to_string());
    d.add_objective(&"Search".to_string(), "Indexing".to_string())
        .unwrap();
    let story = Story::new(
        "Tokenize".to_string(),
        Fixed::from_thousandths(3000),
        "desc".to_string(),
    );
    d.add_story(&"Search".to_string(), &"Indexing".to_string(), story)
        .unwrap();
    let f = d.get_feature(&"Search".to_string()).unwrap();
    assert_eq!(f.get_title(), "Search");
    let stories = &f.objectives[0].stories;
    assert_eq!(stories.len(), 1);
    assert_eq!(stories[0].name, "Tokenize");
    assert_eq!(stories[0].story_points.thousandths, 3000);
    assert_eq!(stories[0].description, "desc");
}

#[test]
fn lookups_return_first_match_positions() {
    let mut d = MainAppData::new();
    d.add_feature("A".to_string());
    d.add_feature("B".to_string());
    d.add_feature("B".to_string());
    assert_eq!(d.get_feature_mut(&"B".to_string()), Some(1));
    assert_eq!(d.get_feature_mut(&"C".to_string()), None);
    d.add_objective(&"B".to_string(), "O1".to_string()).unwrap();
    d.add_objective(&"B".to_string(), "O2".to_string()).unwrap();
    assert_eq!(
        d.get_objective_mut(&"B".to_string(), &"O2".to_string()),
        Some((1, 1))
    );
    assert_eq!(
        d.get_objective_mut(&"B".to_string(), &"O3".to_string()),
        None
    );
    assert_eq!(
        d.get_objective_mut(&"C".to_string(), &"O1".to_string()),
        None
    );
}

#[test]
fn objective_lookup_inside_feature_is_first_match() {
    let mut f = Feature::new("Search".to_string());
    f.add_objective(Objective::new("Indexing".to_string()));
    f.add_objective(Objective::new("Ranking".to_string()));
    let o = f.get_objective("Ranking").unwrap();
    assert_eq!(o.title, "Ranking");
    assert!(f.get_objective("Browsing").is_none());
}

#[test]
fn entity_equality_is_by_name() {
    let r1 = Role::new("Dev".to_string(), Fixed::from_thousandths(1000));
    let r2 = Role::new("Dev".to_string(), Fixed::from_thousandths(2000));
    assert!(r1.eq(&r2));
    let o1 = Objective::new("Indexing".to_string());
    let mut o2 = Objective::new("Indexing".to_string());
    o2.add_story(Story::new("S".to_string(), Fixed::zero(), String::new()));
    assert!(o1.eq(&o2));
    let m1 = sprint_planner::entities::Member::new("Alice".to_string(), r1, Fixed::zero());
    let m2 = sprint_planner::entities::Member::new(
        "Alice".to_string(),
        Role::new("Ops".to_string(), Fixed::zero()),
        Fixed::from_thousandths(1),
    );
    assert!(m1.eq(&m2));
}

#[test]
fn duplicate_role_names_resolve_to_the_first() {
    let mut d = MainAppData::new();
    d.add_role("Dev".to_string(), "1.0").unwrap();
    d.add_role("Dev".to_string(), "2.0").unwrap();
    assert_eq!(d.roles.len(), 2);
    let r = d.get_role(&"Dev".to_string()).unwrap();
    assert_eq!(r.velocity.thousandths, 1000);
}

#[test]
fn window_and_screen_transitions() {
    let mut d = MainAppData::new();
    assert_eq!(d.window, Window::NONE);
    assert_eq!(d.screen, Screen::SPRINTS);
    d.open_window(Window::ROLE);
    assert_eq!(d.window, Window::ROLE);
    d.open_window(Window::OBJECTIVE);
    assert_eq!(d.window, Window::OBJECTIVE);
    d.close_window();
    assert_eq!(d.window, Window::NONE);
    d.set_screen(Screen::FEATURES);
    assert_eq!(d.screen, Screen::FEATURES);
}

#[test]
fn fresh_dialog_state() {
    let w = RoleWindow::new("R".to_string(), "1.0".to_string());
    assert!(!w.show);
    assert_eq!(w.role_title, "R");
    assert_eq!(w.velocity, "1.0");

    let none = MemberOptions::new(&Vec::new());
    assert_eq!(none.selected.name, "");
    assert_eq!(none.selected.velocity.thousandths, 0);
    let roles = vec![
        Role::new("Dev".to_string(), Fixed::from_thousandths(1000)),
        Role::new("Ops".to_string(), Fixed::from_thousandths(500)),
    ];
    let some = MemberOptions::new(&roles);
    assert_eq!(some.selected.name, "Dev");
    assert_eq!(some.roles.len(), 2);
    assert_eq!(some.name, "");
    assert_eq!(some.capacity, "");

    let s = StoryOptions::new();
    assert_eq!(s.title, "");
    assert_eq!(s.feature.name, "None");
    assert_eq!(s.objective.title, "None");

    let o = ObjectiveOptions::new();
    assert_eq!(o.title, "");
    assert_eq!(o.feature.name, "");
}
