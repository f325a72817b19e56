//! The domain entities: roles, members, stories, objectives and features.
//!
//! Every entity is identified by a human-readable name, which doubles as its
//! equality key: two features with the same name are equal however their
//! objective lists differ. Each entity has a mathematical model (`RoleM` and
//! so on) that the contracts speak of; the model of a collection is the
//! sequence of its members' models, in insertion order.

use vstd::prelude::*;
use crate::fixed::Fixed;
use crate::str_eq;

verus! {

/// Model of a [`Role`].
#[verifier::ext_equal]
pub ghost struct RoleM {
    pub name: Seq<char>,
    pub velocity: int,
}

/// Model of a [`Member`].
#[verifier::ext_equal]
pub ghost struct MemberM {
    pub name: Seq<char>,
    pub role: RoleM,
    pub capacity: int,
}

/// Model of a [`Story`].
#[verifier::ext_equal]
pub ghost struct StoryM {
    pub name: Seq<char>,
    pub story_points: int,
    pub description: Seq<char>,
}

/// Model of an [`Objective`].
#[verifier::ext_equal]
pub ghost struct ObjectiveM {
    pub title: Seq<char>,
    pub stories: Seq<StoryM>,
}

/// Model of a [`Feature`].
#[verifier::ext_equal]
pub ghost struct FeatureM {
    pub name: Seq<char>,
    pub objectives: Seq<ObjectiveM>,
}

/// What a role is worth: a named, unitless velocity multiplier.
#[derive(Clone, Debug)]
pub struct Role {
    pub name: String,
    pub velocity: Fixed,
}

impl View for Role {
    type V = RoleM;

    open spec fn view(&self) -> RoleM {
        RoleM { name: self.name@, velocity: self.velocity@ }
    }
}

impl Role {
    pub fn new(name: String, velocity: Fixed) -> (r: Role)
        ensures
            r@ == (RoleM { name: name@, velocity: velocity@ }),
    {
        Role { name, velocity }
    }

    /// Roles are equal by name alone.
    pub fn eq(&self, other: &Role) -> (r: bool)
        ensures
            r == (self@.name == other@.name),
    {
        str_eq(self.name.as_str(), other.name.as_str())
    }
}

/// A team member holding a snapshot copy of a role.
///
/// The snapshot is taken when the member is created: editing a role later
/// does not reach members already holding it.
#[derive(Clone, Debug)]
pub struct Member {
    name: String,
    role: Role,
    capacity: Fixed,
}

impl View for Member {
    type V = MemberM;

    closed spec fn view(&self) -> MemberM {
        MemberM { name: self.name@, role: self.role@, capacity: self.capacity@ }
    }
}

impl Member {
    pub fn new(name: String, role: Role, capacity: Fixed) -> (r: Member)
        ensures
            r@ == (MemberM { name: name@, role: role@, capacity: capacity@ }),
    {
        Member { name, role, capacity }
    }

    pub fn name(&self) -> (r: &String)
        ensures
            r@ == self@.name,
    {
        &self.name
    }

    pub fn role(&self) -> (r: &Role)
        ensures
            r@ == self@.role,
    {
        &self.role
    }

    pub fn capacity(&self) -> (r: Fixed)
        ensures
            r@ == self@.capacity,
    {
        self.capacity
    }

    /// Members are equal by name alone.
    pub fn eq(&self, other: &Member) -> (r: bool)
        ensures
            r == (self@.name == other@.name),
    {
        str_eq(self.name.as_str(), other.name.as_str())
    }
}

/// A story: a named, estimated piece of work.
#[derive(Clone, Debug)]
pub struct Story {
    pub name: String,
    pub story_points: Fixed,
    pub description: String,
}

impl View for Story {
    type V = StoryM;

    open spec fn view(&self) -> StoryM {
        StoryM { name: self.name@, story_points: self.story_points@, description: self.description@ }
    }
}

impl Story {
    pub fn new(name: String, story_points: Fixed, description: String) -> (r: Story)
        ensures
            r@ == (StoryM { name: name@, story_points: story_points@, description: description@ }),
    {
        Story { name, story_points, description }
    }
}

/// An objective: a titled, ordered list of stories, owned by one feature.
#[derive(Clone, Debug)]
pub struct Objective {
    pub title: String,
    pub stories: Vec<Story>,
}

impl View for Objective {
    type V = ObjectiveM;

    open spec fn view(&self) -> ObjectiveM {
        ObjectiveM { title: self.title@, stories: self.stories@.map_values(|s: Story| s@) }
    }
}

impl Objective {
    pub fn new(title: String) -> (r: Objective)
        ensures
            r@.title == title@,
            r@.stories == Seq::<StoryM>::empty(),
    {
        let r = Objective { title, stories: Vec::new() };
        proof {
            assert(r@.stories =~= Seq::<StoryM>::empty());
        }
        r
    }

    /// Appends a story to this objective.
    pub fn add_story(&mut self, story: Story)
        ensures
            final(self)@.title == old(self)@.title,
            final(self)@.stories == old(self)@.stories.push(story@),
    {
        let ghost before = self@.stories;
        self.stories.push(story);
        proof {
            assert(self@.stories =~= before.push(story@));
        }
    }

    /// Objectives are equal by title alone.
    pub fn eq(&self, other: &Objective) -> (r: bool)
        ensures
            r == (self@.title == other@.title),
    {
        str_eq(self.title.as_str(), other.title.as_str())
    }
}

/// `i` is the position of the first objective of `os` titled `title`.
pub open spec fn objective_first_at(os: Seq<ObjectiveM>, title: Seq<char>, i: int) -> bool {
    &&& 0 <= i < os.len()
    &&& os[i].title == title
    &&& forall|k: int| 0 <= k < i ==> #[trigger] os[k].title != title
}

/// Some objective of `os` is titled `title`.
pub open spec fn has_objective(os: Seq<ObjectiveM>, title: Seq<char>) -> bool {
    exists|i: int| 0 <= i < os.len() && #[trigger] os[i].title == title
}

/// A feature: a named, ordered list of objectives.
#[derive(Clone, Debug)]
pub struct Feature {
    pub name: String,
    pub objectives: Vec<Objective>,
}

impl View for Feature {
    type V = FeatureM;

    open spec fn view(&self) -> FeatureM {
        FeatureM { name: self.name@, objectives: self.objectives@.map_values(|o: Objective| o@) }
    }
}

impl Feature {
    pub fn new(name: String) -> (r: Feature)
        ensures
            r@.name == name@,
            r@.objectives == Seq::<ObjectiveM>::empty(),
    {
        let r = Feature { name, objectives: Vec::new() };
        proof {
            assert(r@.objectives =~= Seq::<ObjectiveM>::empty());
        }
        r
    }

    pub fn get_title(&self) -> (r: String)
        ensures
            r@ == self@.name,
    {
        self.name.clone()
    }

    /// Appends an objective to this feature.
    pub fn add_objective(&mut self, objective: Objective)
        ensures
            final(self)@.name == old(self)@.name,
            final(self)@.objectives == old(self)@.objectives.push(objective@),
    {
        let ghost before = self@.objectives;
        self.objectives.push(objective);
        proof {
            assert(self@.objectives =~= before.push(objective@));
        }
    }

    /// The first objective with the given title, or `None` where the feature
    /// holds no such objective.
    pub fn get_objective(&self, name: &str) -> (r: Option<&Objective>)
        ensures
            match r {
                Some(o) => exists|i: int|
                    objective_first_at(self@.objectives, name@, i) && o@ == self@.objectives[i],
                None => !has_objective(self@.objectives, name@),
            },
    {
        let mut j: usize = 0;
        while j < self.objectives.len()
            invariant
                j <= self.objectives.len(),
                forall|k: int| 0 <= k < j ==> #[trigger] self@.objectives[k].title != name@,
            decreases self.objectives.len() - j,
        {
            if str_eq(self.objectives[j].title.as_str(), name) {
                proof {
                    assert(objective_first_at(self@.objectives, name@, j as int));
                }
                return Some(&self.objectives[j]);
            }
            j = j + 1;
        }
        None
    }

    /// Features are equal by name alone, whatever their objective lists hold.
    pub fn eq(&self, other: &Feature) -> (r: bool)
        ensures
            r == (self@.name == other@.name),
    {
        str_eq(self.name.as_str(), other.name.as_str())
    }
}

/// `i` is the position of the first feature of `fs` named `name`.
pub open spec fn feature_first_at(fs: Seq<FeatureM>, name: Seq<char>, i: int) -> bool {
    &&& 0 <= i < fs.len()
    &&& fs[i].name == name
    &&& forall|k: int| 0 <= k < i ==> #[trigger] fs[k].name != name
}

/// Some feature of `fs` is named `name`.
pub open spec fn has_feature(fs: Seq<FeatureM>, name: Seq<char>) -> bool {
    exists|i: int| 0 <= i < fs.len() && #[trigger] fs[i].name == name
}

/// `i` is the position of the first role of `rs` named `name`.
pub open spec fn role_first_at(rs: Seq<RoleM>, name: Seq<char>, i: int) -> bool {
    &&& 0 <= i < rs.len()
    &&& rs[i].name == name
    &&& forall|k: int| 0 <= k < i ==> #[trigger] rs[k].name != name
}

/// Some role of `rs` is named `name`.
pub open spec fn has_role(rs: Seq<RoleM>, name: Seq<char>) -> bool {
    exists|i: int| 0 <= i < rs.len() && #[trigger] rs[i].name == name
}

} // verus!
