//! The domain registry: the collections of roles, members and features, the
//! screen and modal-window selectors, and the draft state of each entry form.
//!
//! Every mutation is name-keyed with first-match semantics and either applies
//! completely or reports an error leaving the registry unchanged. Numeric
//! fields arrive as text and are validated here instead of aborting.

use vstd::prelude::*;
use crate::DomainError;
use crate::fixed::{Fixed, decimal_value, parse_fixed, valid_decimal};
use crate::entities::{
    Feature, FeatureM, Member, MemberM, Objective, ObjectiveM, Role, RoleM, Story, StoryM,
    feature_first_at, has_feature, has_objective, has_role, objective_first_at, role_first_at,
};
use crate::str_eq;

verus! {

/// Draft state of the role-creation dialog.
pub struct RoleWindow {
    pub show: bool,
    pub role_title: String,
    pub velocity: String,
}

/// Model of a [`RoleWindow`].
#[verifier::ext_equal]
pub ghost struct RoleWindowM {
    pub show: bool,
    pub role_title: Seq<char>,
    pub velocity: Seq<char>,
}

impl View for RoleWindow {
    type V = RoleWindowM;

    open spec fn view(&self) -> RoleWindowM {
        RoleWindowM { show: self.show, role_title: self.role_title@, velocity: self.velocity@ }
    }
}

impl RoleWindow {
    pub fn new(role_title: String, velocity: String) -> (r: RoleWindow)
        ensures
            r@ == (RoleWindowM { show: false, role_title: role_title@, velocity: velocity@ }),
    {
        RoleWindow { show: false, role_title, velocity }
    }
}

/// Which screen the main panel shows.
#[derive(Clone, Copy, Debug, PartialEq, Eq, Structural)]
pub enum Screen {
    MEMBERS,
    SPRINTS,
    FEATURES,
}

/// Which modal dialog is open, at most one at a time.
#[derive(Clone, Copy, Debug, PartialEq, Eq, Structural)]
pub enum Window {
    NONE,
    ROLE,
    MEMBER,
    STORY,
    FEATURE,
    SPRINT,
    PI,
    OBJECTIVE,
}

/// Draft state of the member-creation dialog.
pub struct MemberOptions {
    pub roles: Vec<Role>,
    pub selected: Role,
    pub name: String,
    pub capacity: String,
}

/// Model of a [`MemberOptions`].
#[verifier::ext_equal]
pub ghost struct MemberOptionsM {
    pub roles: Seq<RoleM>,
    pub selected: RoleM,
    pub name: Seq<char>,
    pub capacity: Seq<char>,
}

impl View for MemberOptions {
    type V = MemberOptionsM;

    open spec fn view(&self) -> MemberOptionsM {
        MemberOptionsM {
            roles: self.roles@.map_values(|x: Role| x@),
            selected: self.selected@,
            name: self.name@,
            capacity: self.capacity@,
        }
    }
}

/// A copy of a role list, element by element.
fn clone_roles(v: &Vec<Role>) -> (r: Vec<Role>)
    ensures
        r@.map_values(|x: Role| x@) == v@.map_values(|x: Role| x@),
{
    let mut r: Vec<Role> = Vec::new();
    let mut k: usize = 0;
    while k < v.len()
        invariant
            k <= v.len(),
            r@.len() == k,
            forall|j: int| 0 <= j < k ==> #[trigger] r@[j]@ == v@[j]@,
        decreases v.len() - k,
    {
        r.push(Role { name: v[k].name.clone(), velocity: v[k].velocity });
        k = k + 1;
    }
    proof {
        assert(r@.map_values(|x: Role| x@) =~= v@.map_values(|x: Role| x@));
    }
    r
}

impl MemberOptions {
    /// A fresh member dialog offering the given roles, with the first role
    /// preselected (or an unnamed zero-velocity role where there is none).
    pub fn new(roles: &Vec<Role>) -> (r: MemberOptions)
        ensures
            r@.roles == roles@.map_values(|x: Role| x@),
            roles@.len() > 0 ==> r@.selected == roles@[0]@,
            roles@.len() == 0 ==> r@.selected == (RoleM {
                name: Seq::<char>::empty(),
                velocity: 0,
            }),
            r@.name == Seq::<char>::empty(),
            r@.capacity == Seq::<char>::empty(),
    {
        let selected: Role = if roles.len() > 0 {
            Role { name: roles[0].name.clone(), velocity: roles[0].velocity }
        } else {
            Role::new(String::new(), Fixed::zero())
        };
        MemberOptions { roles: clone_roles(roles), selected, name: String::new(), capacity: String::new() }
    }
}

/// Draft state of the story-creation dialog.
pub struct StoryOptions {
    pub title: String,
    pub description: String,
    pub story_points: String,
    pub feature: Feature,
    pub objective: Objective,
}

/// Model of a [`StoryOptions`].
#[verifier::ext_equal]
pub ghost struct StoryOptionsM {
    pub title: Seq<char>,
    pub description: Seq<char>,
    pub story_points: Seq<char>,
    pub feature: FeatureM,
    pub objective: ObjectiveM,
}

impl View for StoryOptions {
    type V = StoryOptionsM;

    open spec fn view(&self) -> StoryOptionsM {
        StoryOptionsM {
            title: self.title@,
            description: self.description@,
            story_points: self.story_points@,
            feature: self.feature@,
            objective: self.objective@,
        }
    }
}

impl StoryOptions {
    /// A fresh story dialog with empty fields and placeholder targets.
    pub fn new() -> (r: StoryOptions)
        ensures
            r@.title == Seq::<char>::empty(),
            r@.description == Seq::<char>::empty(),
            r@.story_points == Seq::<char>::empty(),
            r@.feature.name == "None"@,
            r@.feature.objectives == Seq::<ObjectiveM>::empty(),
            r@.objective.title == "None"@,
            r@.objective.stories == Seq::<StoryM>::empty(),
    {
        StoryOptions {
            title: String::new(),
            description: String::new(),
            story_points: String::new(),
            feature: Feature::new(String::from_str("None")),
            objective: Objective::new(String::from_str("None")),
        }
    }
}

/// Draft state of the feature-creation dialog.
pub struct FeatureOptions {
    pub title: String,
}

/// Model of a [`FeatureOptions`].
#[verifier::ext_equal]
pub ghost struct FeatureOptionsM {
    pub title: Seq<char>,
}

impl View for FeatureOptions {
    type V = FeatureOptionsM;

    open spec fn view(&self) -> FeatureOptionsM {
        FeatureOptionsM { title: self.title@ }
    }
}

/// Draft state of the objective-creation dialog.
pub struct ObjectiveOptions {
    pub title: String,
    pub feature: Feature,
}

/// Model of an [`ObjectiveOptions`].
#[verifier::ext_equal]
pub ghost struct ObjectiveOptionsM {
    pub title: Seq<char>,
    pub feature: FeatureM,
}

impl View for ObjectiveOptions {
    type V = ObjectiveOptionsM;

    open spec fn view(&self) -> ObjectiveOptionsM {
        ObjectiveOptionsM { title: self.title@, feature: self.feature@ }
    }
}

impl ObjectiveOptions {
    /// A fresh objective dialog with an empty title and placeholder feature.
    pub fn new() -> (r: ObjectiveOptions)
        ensures
            r@.title == Seq::<char>::empty(),
            r@.feature.name == Seq::<char>::empty(),
            r@.feature.objectives == Seq::<ObjectiveM>::empty(),
    {
        ObjectiveOptions { title: String::new(), feature: Feature::new(String::new()) }
    }
}

/// Model of the whole application state.
#[verifier::ext_equal]
pub ghost struct RegistryM {
    pub label: Seq<char>,
    pub members: Seq<MemberM>,
    pub roles: Seq<RoleM>,
    pub role_window: RoleWindowM,
    pub member_creation_window: MemberOptionsM,
    pub story_creation_window: StoryOptionsM,
    pub feature_creation_window: FeatureOptionsM,
    pub objective_creation_window: ObjectiveOptionsM,
    pub screen: Screen,
    pub window: Window,
    pub features: Seq<FeatureM>,
}

/// The application state: the registry collections, the open-dialog and
/// screen selectors, and the draft state of each entry form.
pub struct MainAppData {
    pub label: String,
    pub members: Vec<Member>,
    pub roles: Vec<Role>,
    pub role_window: RoleWindow,
    pub member_creation_window: MemberOptions,
    pub story_creation_window: StoryOptions,
    pub feature_creation_window: FeatureOptions,
    pub objective_creation_window: ObjectiveOptions,
    pub screen: Screen,
    pub window: Window,
    pub features: Vec<Feature>,
}

impl View for MainAppData {
    type V = RegistryM;

    open spec fn view(&self) -> RegistryM {
        RegistryM {
            label: self.label@,
            members: self.members@.map_values(|x: Member| x@),
            roles: self.roles@.map_values(|x: Role| x@),
            role_window: self.role_window@,
            member_creation_window: self.member_creation_window@,
            story_creation_window: self.story_creation_window@,
            feature_creation_window: self.feature_creation_window@,
            objective_creation_window: self.objective_creation_window@,
            screen: self.screen,
            window: self.window,
            features: self.features@.map_values(|x: Feature| x@),
        }
    }
}

impl MainAppData {
    /// The initial application state: empty collections, fresh dialogs, the
    /// sprints screen showing and no dialog open.
    pub fn new() -> (r: MainAppData)
        ensures
            r@.label == "Hello World!"@,
            r@.members == Seq::<MemberM>::empty(),
            r@.roles == Seq::<RoleM>::empty(),
            r@.features == Seq::<FeatureM>::empty(),
            r@.screen == Screen::SPRINTS,
            r@.window == Window::NONE,
            r@.role_window == (RoleWindowM {
                show: false,
                role_title: Seq::<char>::empty(),
                velocity: Seq::<char>::empty(),
            }),
            r@.member_creation_window == (MemberOptionsM {
                roles: Seq::<RoleM>::empty(),
                selected: RoleM { name: Seq::<char>::empty(), velocity: 0 },
                name: Seq::<char>::empty(),
                capacity: Seq::<char>::empty(),
            }),
            r@.story_creation_window.title == Seq::<char>::empty(),
            r@.story_creation_window.description == Seq::<char>::empty(),
            r@.story_creation_window.story_points == Seq::<char>::empty(),
            r@.story_creation_window.feature.name == "None"@,
            r@.story_creation_window.feature.objectives == Seq::<ObjectiveM>::empty(),
            r@.story_creation_window.objective.title == "None"@,
            r@.story_creation_window.objective.stories == Seq::<StoryM>::empty(),
            r@.feature_creation_window == (FeatureOptionsM { title: Seq::<char>::empty() }),
            r@.objective_creation_window.title == Seq::<char>::empty(),
            r@.objective_creation_window.feature.name == Seq::<char>::empty(),
            r@.objective_creation_window.feature.objectives == Seq::<ObjectiveM>::empty(),
    {
        let r = MainAppData {
            label: String::from_str("Hello World!"),
            members: Vec::new(),
            roles: Vec::new(),
            role_window: RoleWindow::new(String::new(), String::new()),
            member_creation_window: MemberOptions::new(&Vec::new()),
            story_creation_window: StoryOptions::new(),
            feature_creation_window: FeatureOptions { title: String::new() },
            objective_creation_window: ObjectiveOptions::new(),
            screen: Screen::SPRINTS,
            window: Window::NONE,
            features: Vec::new(),
        };
        proof {
            assert(r@.members =~= Seq::<MemberM>::empty());
            assert(r@.roles =~= Seq::<RoleM>::empty());
            assert(r@.features =~= Seq::<FeatureM>::empty());
            assert(r@.member_creation_window.roles =~= Seq::<RoleM>::empty());
            assert(r@.member_creation_window =~= (MemberOptionsM {
                roles: Seq::<RoleM>::empty(),
                selected: RoleM { name: Seq::<char>::empty(), velocity: 0 },
                name: Seq::<char>::empty(),
                capacity: Seq::<char>::empty(),
            }));
            assert(r@.role_window =~= (RoleWindowM {
                show: false,
                role_title: Seq::<char>::empty(),
                velocity: Seq::<char>::empty(),
            }));
            assert(r@.feature_creation_window =~= (FeatureOptionsM {
                title: Seq::<char>::empty(),
            }));
        }
        r
    }

    /// Opens the given modal dialog, replacing whichever was open.
    pub fn open_window(&mut self, w: Window)
        ensures
            final(self)@ == (RegistryM { window: w, ..old(self)@ }),
    {
        self.window = w;
    }

    /// Closes any open modal dialog.
    pub fn close_window(&mut self)
        ensures
            final(self)@ == (RegistryM { window: Window::NONE, ..old(self)@ }),
    {
        self.window = Window::NONE;
    }

    /// Switches the main panel to the given screen.
    pub fn set_screen(&mut self, s: Screen)
        ensures
            final(self)@ == (RegistryM { screen: s, ..old(self)@ }),
    {
        self.screen = s;
    }

    /// Position of the first feature with the given name.
    fn feature_position(&self, name: &String) -> (r: Option<usize>)
        ensures
            match r {
                Some(i) => feature_first_at(self@.features, name@, i as int),
                None => !has_feature(self@.features, name@),
            },
    {
        let mut j: usize = 0;
        while j < self.features.len()
            invariant
                j <= self.features.len(),
                forall|k: int| 0 <= k < j ==> #[trigger] self@.features[k].name != name@,
            decreases self.features.len() - j,
        {
            proof {
                assert(self@.features[j as int] == self.features@[j as int]@);
            }
            if str_eq(self.features[j].name.as_str(), name.as_str()) {
                return Some(j);
            }
            j = j + 1;
        }
        None
    }

    /// The first feature with the given name, or `None` where there is none.
    pub fn get_feature(&self, name: &String) -> (r: Option<&Feature>)
        ensures
            match r {
                Some(f) => exists|i: int|
                    feature_first_at(self@.features, name@, i) && f@ == self@.features[i],
                None => !has_feature(self@.features, name@),
            },
    {
        match self.feature_position(name) {
            Some(i) => Some(&self.features[i]),
            None => None,
        }
    }

    /// Position of the first feature with the given name, for use with the
    /// mutating operations. (Verus does not let a lookup hand a mutable
    /// reference out, so the position stands in for one.)
    pub fn get_feature_mut(&self, name: &String) -> (r: Option<usize>)
        ensures
            match r {
                Some(i) => feature_first_at(self@.features, name@, i as int),
                None => !has_feature(self@.features, name@),
            },
    {
        self.feature_position(name)
    }

    /// Positions of the first feature with the given name and, within that
    /// feature alone, of the first objective with the given title.
    pub fn get_objective_mut(&self, feature: &String, objective: &String) -> (r: Option<
        (usize, usize),
    >)
        ensures
            match r {
                Some(p) => feature_first_at(self@.features, feature@, p.0 as int)
                    && objective_first_at(
                    self@.features[p.0 as int].objectives,
                    objective@,
                    p.1 as int,
                ),
                None => !has_feature(self@.features, feature@) || (exists|i: int|
                    feature_first_at(self@.features, feature@, i) && !has_objective(
                        self@.features[i].objectives,
                        objective@,
                    )),
            },
    {
        match self.feature_position(feature) {
            Some(i) => {
                match objective_position(&self.features[i], objective) {
                    Some(j) => Some((i, j)),
                    None => None,
                }
            },
            None => None,
        }
    }

    /// The first role with the given name, or `None` where there is none.
    pub fn get_role(&self, name: &String) -> (r: Option<&Role>)
        ensures
            match r {
                Some(ro) => exists|i: int|
                    role_first_at(self@.roles, name@, i) && ro@ == self@.roles[i],
                None => !has_role(self@.roles, name@),
            },
    {
        let mut j: usize = 0;
        while j < self.roles.len()
            invariant
                j <= self.roles.len(),
                forall|k: int| 0 <= k < j ==> #[trigger] self@.roles[k].name != name@,
            decreases self.roles.len() - j,
        {
            proof {
                assert(self@.roles[j as int] == self.roles@[j as int]@);
            }
            if str_eq(self.roles[j].name.as_str(), name.as_str()) {
                proof {
                    assert(role_first_at(self@.roles, name@, j as int));
                }
                return Some(&self.roles[j]);
            }
            j = j + 1;
        }
        None
    }
}

impl MainAppData {
    /// Appends a role parsed from the velocity text; text that is not a
    /// valid decimal quantity is a validation error and changes nothing.
    pub fn add_role(&mut self, name: String, velocity: &str) -> (r: Result<(), DomainError>)
        ensures
            match r {
                Ok(()) => valid_decimal(velocity@) && final(self)@ == (RegistryM {
                    roles: old(self)@.roles.push(
                        RoleM { name: name@, velocity: decimal_value(velocity@) },
                    ),
                    ..old(self)@
                }),
                Err(e) => e == DomainError::ValidationError && !valid_decimal(velocity@) && final(self)@
                    == old(self)@,
            },
    {
        match parse_fixed(velocity) {
            Ok(v) => {
                let ghost pre = self@;
                self.roles.push(Role::new(name, v));
                proof {
                    assert(self@.roles =~= pre.roles.push(
                        RoleM { name: name@, velocity: decimal_value(velocity@) },
                    ));
                    assert(self@ =~= (RegistryM {
                        roles: pre.roles.push(
                            RoleM { name: name@, velocity: decimal_value(velocity@) },
                        ),
                        ..pre
                    }));
                }
                Ok(())
            },
            Err(e) => Err(e),
        }
    }

    /// Appends a member holding a snapshot copy of the given role; capacity
    /// text that is not a valid decimal quantity is a validation error and
    /// changes nothing.
    pub fn add_member(&mut self, name: String, role: Role, capacity: &str) -> (r: Result<
        (),
        DomainError,
    >)
        ensures
            match r {
                Ok(()) => valid_decimal(capacity@) && final(self)@ == (RegistryM {
                    members: old(self)@.members.push(
                        MemberM { name: name@, role: role@, capacity: decimal_value(capacity@) },
                    ),
                    ..old(self)@
                }),
                Err(e) => e == DomainError::ValidationError && !valid_decimal(capacity@) && final(self)@
                    == old(self)@,
            },
    {
        match parse_fixed(capacity) {
            Ok(v) => {
                let ghost pre = self@;
                self.members.push(Member::new(name, role, v));
                proof {
                    assert(self@.members =~= pre.members.push(
                        MemberM { name: name@, role: role@, capacity: decimal_value(capacity@) },
                    ));
                    assert(self@ =~= (RegistryM {
                        members: pre.members.push(
                            MemberM {
                                name: name@,
                                role: role@,
                                capacity: decimal_value(capacity@),
                            },
                        ),
                        ..pre
                    }));
                }
                Ok(())
            },
            Err(e) => Err(e),
        }
    }

    /// Appends an empty feature, whether or not the name is already taken:
    /// same-named features silently coexist.
    pub fn add_feature(&mut self, name: String)
        ensures
            final(self)@ == (RegistryM {
                features: old(self)@.features.push(
                    FeatureM { name: name@, objectives: Seq::<ObjectiveM>::empty() },
                ),
                ..old(self)@
            }),
    {
        let ghost pre = self@;
        self.features.push(Feature::new(name));
        proof {
            assert(self@.features =~= pre.features.push(
                FeatureM { name: name@, objectives: Seq::<ObjectiveM>::empty() },
            ));
            assert(self@ =~= (RegistryM {
                features: pre.features.push(
                    FeatureM { name: name@, objectives: Seq::<ObjectiveM>::empty() },
                ),
                ..pre
            }));
        }
    }

    /// Removes the first feature with the given name; where there is none,
    /// nothing changes. Later same-named features stay.
    pub fn remove_feature(&mut self, name: &String)
        ensures
            has_feature(old(self)@.features, name@) ==> exists|i: int|
                #[trigger] feature_first_at(old(self)@.features, name@, i) && final(self)@
                    == (RegistryM { features: old(self)@.features.remove(i), ..old(self)@ }),
            !has_feature(old(self)@.features, name@) ==> final(self)@ == old(self)@,
    {
        match self.feature_position(name) {
            Some(i) => {
                let ghost pre = self@;
                self.features.remove(i);
                proof {
                    assert(self@.features =~= pre.features.remove(i as int));
                    assert(self@ =~= (RegistryM {
                        features: pre.features.remove(i as int),
                        ..pre
                    }));
                }
            },
            None => {},
        }
    }

    /// Appends a fresh objective to the first feature with the given name;
    /// where there is none, reports `NotFound` and changes nothing.
    pub fn add_objective(&mut self, feature_name: &String, title: String) -> (r: Result<
        (),
        DomainError,
    >)
        ensures
            match r {
                Ok(()) => exists|i: int|
                    #[trigger] feature_first_at(old(self)@.features, feature_name@, i) && final(self)@
                        == (RegistryM {
                        features: old(self)@.features.update(
                            i,
                            FeatureM {
                                name: old(self)@.features[i].name,
                                objectives: old(self)@.features[i].objectives.push(
                                    ObjectiveM { title: title@, stories: Seq::<StoryM>::empty() },
                                ),
                            },
                        ),
                        ..old(self)@
                    }),
                Err(e) => e == DomainError::NotFound && !has_feature(
                    old(self)@.features,
                    feature_name@,
                ) && final(self)@ == old(self)@,
            },
    {
        match self.feature_position(feature_name) {
            Some(i) => {
                let ghost pre = self@;
                let mut f = self.features.remove(i);
                f.add_objective(Objective::new(title));
                self.features.insert(i, f);
                proof {
                    assert(f@.objectives =~= pre.features[i as int].objectives.push(
                        ObjectiveM { title: title@, stories: Seq::<StoryM>::empty() },
                    ));
                    assert(self@.features =~= pre.features.update(i as int, f@));
                    assert(self@ =~= (RegistryM {
                        features: pre.features.update(
                            i as int,
                            FeatureM {
                                name: pre.features[i as int].name,
                                objectives: pre.features[i as int].objectives.push(
                                    ObjectiveM { title: title@, stories: Seq::<StoryM>::empty() },
                                ),
                            },
                        ),
                        ..pre
                    }));
                }
                Ok(())
            },
            None => Err(DomainError::NotFound),
        }
    }

    /// Appends the story to the first objective with the given title inside
    /// the first feature with the given name; where either is missing,
    /// reports `NotFound` and changes nothing.
    pub fn add_story(&mut self, feature_name: &String, objective_title: &String, story: Story) -> (r:
        Result<(), DomainError>)
        ensures
            match r {
                Ok(()) => exists|i: int, j: int|
                    #![trigger objective_first_at(old(self)@.features[i].objectives, objective_title@, j)]
                    feature_first_at(old(self)@.features, feature_name@, i) && objective_first_at(
                        old(self)@.features[i].objectives,
                        objective_title@,
                        j,
                    ) && final(self)@ == (RegistryM {
                        features: story_added(old(self)@.features, i, j, story@),
                        ..old(self)@
                    }),
                Err(e) => e == DomainError::NotFound && final(self)@ == old(self)@ && (!has_feature(
                    old(self)@.features,
                    feature_name@,
                ) || (exists|i: int|
                    #[trigger] feature_first_at(old(self)@.features, feature_name@, i)
                        && !has_objective(old(self)@.features[i].objectives, objective_title@))),
            },
    {
        match self.feature_position(feature_name) {
            Some(i) => {
                proof {
                    assert(self@.features[i as int] == self.features@[i as int]@);
                }
                match objective_position(&self.features[i], objective_title) {
                    Some(j) => {
                        let ghost pre = self@;
                        let mut f = self.features.remove(i);
                        let ghost fpre = f@;
                        let mut o = f.objectives.remove(j);
                        proof {
                            assert(o@ == fpre.objectives[j as int]);
                        }
                        o.add_story(story);
                        f.objectives.insert(j, o);
                        self.features.insert(i, f);
                        proof {
                            assert(fpre == pre.features[i as int]);
                            assert(f@.objectives =~= fpre.objectives.update(
                                j as int,
                                ObjectiveM {
                                    title: fpre.objectives[j as int].title,
                                    stories: fpre.objectives[j as int].stories.push(story@),
                                },
                            ));
                            assert(f@ =~= (FeatureM {
                                name: fpre.name,
                                objectives: fpre.objectives.update(
                                    j as int,
                                    ObjectiveM {
                                        title: fpre.objectives[j as int].title,
                                        stories: fpre.objectives[j as int].stories.push(story@),
                                    },
                                ),
                            }));
                            assert(self@.features =~= pre.features.update(i as int, f@));
                            assert(self@.features =~= story_added(
                                pre.features,
                                i as int,
                                j as int,
                                story@,
                            ));
                            assert(self@ =~= (RegistryM {
                                features: story_added(pre.features, i as int, j as int, story@),
                                ..pre
                            }));
                        }
                        Ok(())
                    },
                    None => Err(DomainError::NotFound),
                }
            },
            None => Err(DomainError::NotFound),
        }
    }
}

/// The feature sequence after pushing `st` onto objective `j` of feature
/// `i`: only that story list grows, and only by the one story.
pub open spec fn story_added(fs: Seq<FeatureM>, i: int, j: int, st: StoryM) -> Seq<FeatureM> {
    fs.update(
        i,
        FeatureM {
            name: fs[i].name,
            objectives: fs[i].objectives.update(
                j,
                ObjectiveM {
                    title: fs[i].objectives[j].title,
                    stories: fs[i].objectives[j].stories.push(st),
                },
            ),
        },
    )
}

/// Adding a story under a valid feature and objective position raises that
/// objective's story count by exactly one and leaves every other feature,
/// every other objective, and the stories already there unchanged.
pub proof fn lemma_story_added_counts(fs: Seq<FeatureM>, i: int, j: int, st: StoryM)
    requires
        0 <= i < fs.len(),
        0 <= j < fs[i].objectives.len(),
    ensures
        story_added(fs, i, j, st).len() == fs.len(),
        story_added(fs, i, j, st)[i].name == fs[i].name,
        story_added(fs, i, j, st)[i].objectives.len() == fs[i].objectives.len(),
        story_added(fs, i, j, st)[i].objectives[j].title == fs[i].objectives[j].title,
        story_added(fs, i, j, st)[i].objectives[j].stories.len() == fs[i].objectives[j].stories.len()
            + 1,
        story_added(fs, i, j, st)[i].objectives[j].stories.last() == st,
        forall|k: int|
            0 <= k < fs[i].objectives[j].stories.len() ==> story_added(
                fs,
                i,
                j,
                st,
            )[i].objectives[j].stories[k] == fs[i].objectives[j].stories[k],
        forall|k: int|
            0 <= k < fs[i].objectives.len() && k != j ==> story_added(fs, i, j, st)[i].objectives[k]
                == fs[i].objectives[k],
        forall|k: int| 0 <= k < fs.len() && k != i ==> story_added(fs, i, j, st)[k] == fs[k],
{
}

/// Adding a role under a name no role yet carries and then looking that name
/// up finds exactly the added role: same name, same velocity.
pub proof fn lemma_role_roundtrip(roles: Seq<RoleM>, name: Seq<char>, velocity: int)
    requires
        !has_role(roles, name),
    ensures
        role_first_at(
            roles.push(RoleM { name: name, velocity: velocity }),
            name,
            roles.len() as int,
        ),
        roles.push(RoleM { name: name, velocity: velocity })[roles.len() as int] == (RoleM {
            name: name,
            velocity: velocity,
        }),
        forall|i: int|
            role_first_at(roles.push(RoleM { name: name, velocity: velocity }), name, i) ==> i
                == roles.len(),
{
    let rs = roles.push(RoleM { name: name, velocity: velocity });
    assert forall|k: int| 0 <= k < roles.len() implies rs[k].name != name by {
        assert(rs[k] == roles[k]);
        assert(!(0 <= k < roles.len() && roles[k].name == name));
    }
    assert(rs[roles.len() as int].name == name);
}

/// Position of the first objective of `f` with the given title.
fn objective_position(f: &Feature, title: &String) -> (r: Option<usize>)
    ensures
        match r {
            Some(j) => objective_first_at(f@.objectives, title@, j as int),
            None => !has_objective(f@.objectives, title@),
        },
{
    let mut j: usize = 0;
    while j < f.objectives.len()
        invariant
            j <= f.objectives.len(),
            forall|k: int| 0 <= k < j ==> #[trigger] f@.objectives[k].title != title@,
        decreases f.objectives.len() - j,
    {
        proof {
            assert(f@.objectives[j as int] == f.objectives@[j as int]@);
        }
        if str_eq(f.objectives[j].title.as_str(), title.as_str()) {
            return Some(j);
        }
        j = j + 1;
    }
    None
}

} // verus!
