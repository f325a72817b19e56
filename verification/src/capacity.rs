//! Named capacity buckets combined by addition.
//!
//! A [`Capacities`] value is a mapping from a label to a non-negative
//! quantity, held in insertion order with each label at most once. Combining
//! two of them unions the label sets; a label present in both holds the sum
//! of the two values (saturating at the largest representable quantity), and
//! a label present in only one holds that value unchanged. Under the map
//! view this combination is commutative and associative, with the empty
//! mapping as identity.

use vstd::prelude::*;
use crate::fixed::{Fixed, sat_add};
use crate::str_eq;

verus! {

/// One named bucket.
#[derive(Debug)]
pub struct Capacity {
    pub label: String,
    pub capacity: Fixed,
}

/// Model of a [`Capacity`].
#[verifier::ext_equal]
pub ghost struct CapacityM {
    pub label: Seq<char>,
    pub value: int,
}

impl View for Capacity {
    type V = CapacityM;

    open spec fn view(&self) -> CapacityM {
        CapacityM { label: self.label@, value: self.capacity@ }
    }
}

/// Some bucket of `s` carries the label `l`.
pub open spec fn caps_has(s: Seq<CapacityM>, l: Seq<char>) -> bool {
    exists|i: int| 0 <= i < s.len() && #[trigger] s[i].label == l
}

/// The value of the bucket of `s` labelled `l`, or zero where there is none.
pub open spec fn caps_value(s: Seq<CapacityM>, l: Seq<char>) -> int {
    if caps_has(s, l) {
        s[choose|i: int| 0 <= i < s.len() && #[trigger] s[i].label == l].value
    } else {
        0
    }
}

/// The buckets of `s` read as a label-to-value mapping.
pub open spec fn caps_map(s: Seq<CapacityM>) -> Map<Seq<char>, int> {
    Map::new(|l: Seq<char>| caps_has(s, l), |l: Seq<char>| caps_value(s, l))
}

/// No label occurs twice in `s`.
pub open spec fn caps_labels_unique(s: Seq<CapacityM>) -> bool {
    forall|i: int, j: int| 0 <= i < j < s.len() ==> #[trigger] s[i].label != #[trigger] s[j].label
}

/// Every value of `m` is a representable quantity.
pub open spec fn bounded(m: Map<Seq<char>, int>) -> bool {
    forall|l: Seq<char>| m.dom().contains(l) ==> 0 <= #[trigger] m[l] <= u64::MAX
}

/// The value of `m` at `l`, or zero where `l` is not a label of `m`.
pub open spec fn value_or_zero(m: Map<Seq<char>, int>, l: Seq<char>) -> int {
    if m.dom().contains(l) {
        m[l]
    } else {
        0
    }
}

/// The combination of two label-to-value mappings: labels are unioned, and
/// each label holds the saturating sum of what the two operands hold for it.
pub open spec fn combined(m1: Map<Seq<char>, int>, m2: Map<Seq<char>, int>) -> Map<
    Seq<char>,
    int,
> {
    Map::new(
        |l: Seq<char>| m1.dom().contains(l) || m2.dom().contains(l),
        |l: Seq<char>| sat_add(value_or_zero(m1, l), value_or_zero(m2, l)),
    )
}

/// An ordered collection of uniquely labelled buckets.
#[derive(Debug)]
pub struct Capacities {
    capacities: Vec<Capacity>,
}

impl View for Capacities {
    type V = Map<Seq<char>, int>;

    closed spec fn view(&self) -> Map<Seq<char>, int> {
        caps_map(self.models())
    }
}

impl Capacities {
    /// The models of the buckets, in insertion order.
    pub closed spec fn models(&self) -> Seq<CapacityM> {
        self.capacities@.map_values(|c: Capacity| c@)
    }

    /// Each label occurs at most once.
    pub open spec fn wf(&self) -> bool {
        caps_labels_unique(self.models())
    }

    /// The empty collection.
    pub fn new() -> (r: Capacities)
        ensures
            r.wf(),
            r@ == Map::<Seq<char>, int>::empty(),
    {
        let r = Capacities { capacities: Vec::new() };
        proof {
            assert(r.models() =~= Seq::<CapacityM>::empty());
            assert(r@ =~= Map::<Seq<char>, int>::empty());
        }
        r
    }

    /// Position of the bucket labelled `label`, where there is one.
    fn position_of(&self, label: &str) -> (r: Option<usize>)
        ensures
            match r {
                Some(i) => i < self.models().len() && self.models()[i as int].label == label@,
                None => !caps_has(self.models(), label@),
            },
    {
        let mut j: usize = 0;
        while j < self.capacities.len()
            invariant
                j <= self.capacities.len(),
                forall|k: int| 0 <= k < j ==> #[trigger] self.models()[k].label != label@,
            decreases self.capacities.len() - j,
        {
            if str_eq(self.capacities[j].label.as_str(), label) {
                return Some(j);
            }
            j = j + 1;
        }
        None
    }

    /// The bucket labelled `name`, or `None` where there is none.
    pub fn get_capacity_by_name(&self, name: &str) -> (r: Option<&Capacity>)
        requires
            self.wf(),
        ensures
            match r {
                Some(c) => self@.contains_key(name@) && c@.label == name@ && c@.value == self@[
                    name@],
                None => !self@.contains_key(name@),
            },
    {
        match self.position_of(name) {
            Some(i) => {
                proof {
                    lemma_caps_value_at(self.models(), name@, i as int);
                }
                Some(&self.capacities[i])
            },
            None => None,
        }
    }

    /// The bucket labelled `Feature`, or a zero bucket of that label where
    /// there is none.
    pub fn get_feature_capacity(&self) -> (r: Capacity)
        requires
            self.wf(),
        ensures
            r@.label == "Feature"@,
            r@.value == value_or_zero(self@, "Feature"@),
    {
        match self.get_capacity_by_name("Feature") {
            Some(c) => Capacity { label: c.label.clone(), capacity: c.capacity },
            None => Capacity { label: String::from_str("Feature"), capacity: Fixed::zero() },
        }
    }

    /// Adds `amount` into the bucket `label`, appending the bucket where the
    /// label is new.
    pub fn add_capacity(&mut self, label: String, amount: Fixed)
        requires
            old(self).wf(),
        ensures
            final(self).wf(),
            final(self)@ == combined(old(self)@, Map::<Seq<char>, int>::empty().insert(label@, amount@)),
    {
        let ghost pre = self.models();
        proof {
            assert forall|k: int| 0 <= k < pre.len() implies 0 <= #[trigger] pre[k].value
                <= u64::MAX by {
                assert(pre[k] == self.capacities@[k]@);
            }
        }
        match self.position_of(label.as_str()) {
            Some(i) => {
                let newv = self.capacities[i].capacity.saturating_add(amount);
                self.capacities[i].capacity = newv;
                proof {
                    assert(self.models() =~= pre.update(
                        i as int,
                        CapacityM { label: label@, value: sat_add(pre[i as int].value, amount@) },
                    ));
                    lemma_upsert_map(pre, label@, amount@, i as int);
                }
            },
            None => {
                self.capacities.push(Capacity { label, capacity: amount });
                proof {
                    assert(self.models() =~= pre.push(CapacityM { label: label@, value: amount@ }));
                    lemma_append_map(pre, label@, amount@);
                }
            },
        }
    }

    /// Folds `other` into `self`: labels are unioned and matching labels hold
    /// the saturating sum of the two values.
    pub fn combine_assign(&mut self, other: Capacities)
        requires
            old(self).wf(),
            other.wf(),
        ensures
            final(self).wf(),
            final(self)@ == combined(old(self)@, other@),
    {
        let ghost base = self@;
        let ghost om = other.models();
        proof {
            assert forall|k: int| 0 <= k < om.len() implies 0 <= #[trigger] om[k].value
                <= u64::MAX by {
                assert(om[k] == other.capacities@[k]@);
            }
            assert forall|k: int| 0 <= k < self.models().len() implies 0
                <= #[trigger] self.models()[k].value <= u64::MAX by {
                assert(self.models()[k] == self.capacities@[k]@);
            }
            lemma_caps_map_bounded(self.models());
        }
        let mut j: usize = 0;
        while j < other.capacities.len()
            invariant
                j <= other.capacities.len(),
                om == other.models(),
                caps_labels_unique(om),
                forall|k: int| 0 <= k < om.len() ==> 0 <= #[trigger] om[k].value <= u64::MAX,
                bounded(base),
                self.wf(),
                self@ == combined(base, caps_map(om.take(j as int))),
            decreases other.capacities.len() - j,
        {
            let label = other.capacities[j].label.clone();
            let amount = other.capacities[j].capacity;
            self.add_capacity(label, amount);
            proof {
                assert(om.take(j + 1) =~= om.take(j as int).push(om[j as int]));
                lemma_take_no_label(om, j as int);
                lemma_append_map(om.take(j as int), om[j as int].label, om[j as int].value);
                lemma_caps_map_bounded(om.take(j as int));
                lemma_combined_layered(
                    base,
                    caps_map(om.take(j as int)),
                    om[j as int].label,
                    om[j as int].value,
                );
            }
            j = j + 1;
        }
        proof {
            assert(om.take(other.capacities@.len() as int) =~= om);
        }
    }

    /// The combination of two collections, as [`Self::combine_assign`] folds
    /// them together.
    pub fn combine(self, other: Capacities) -> (r: Capacities)
        requires
            self.wf(),
            other.wf(),
        ensures
            r.wf(),
            r@ == combined(self@, other@),
    {
        let mut r = self;
        r.combine_assign(other);
        r
    }
}

/// Under unique labels, the bucket found at a matching position carries the
/// mapping's value for that label.
proof fn lemma_caps_value_at(s: Seq<CapacityM>, l: Seq<char>, i: int)
    requires
        caps_labels_unique(s),
        0 <= i < s.len(),
        s[i].label == l,
    ensures
        caps_has(s, l),
        caps_value(s, l) == s[i].value,
{
    let w = choose|k: int| 0 <= k < s.len() && #[trigger] s[k].label == l;
    assert(w == i);
}

/// Every value a bucket sequence maps to is a representable quantity.
proof fn lemma_caps_map_bounded(s: Seq<CapacityM>)
    requires
        forall|i: int| 0 <= i < s.len() ==> 0 <= #[trigger] s[i].value <= u64::MAX,
    ensures
        bounded(caps_map(s)),
{
}

/// Updating the bucket at the label's position is, under the map view, a
/// combination with the one-label mapping.
proof fn lemma_upsert_map(s: Seq<CapacityM>, l: Seq<char>, v: int, i: int)
    requires
        caps_labels_unique(s),
        forall|k: int| 0 <= k < s.len() ==> 0 <= #[trigger] s[k].value <= u64::MAX,
        0 <= i < s.len(),
        s[i].label == l,
    ensures
        caps_labels_unique(s.update(i, CapacityM { label: l, value: sat_add(s[i].value, v) })),
        caps_map(s.update(i, CapacityM { label: l, value: sat_add(s[i].value, v) })) == combined(
            caps_map(s),
            Map::<Seq<char>, int>::empty().insert(l, v),
        ),
{
    let t = s.update(i, CapacityM { label: l, value: sat_add(s[i].value, v) });
    let single = Map::<Seq<char>, int>::empty().insert(l, v);
    lemma_caps_value_at(s, l, i);
    assert(forall|k: int| 0 <= k < t.len() ==> #[trigger] t[k].label == s[k].label);
    assert(caps_labels_unique(t));
    assert forall|l2: Seq<char>| caps_has(t, l2) <==> caps_has(s, l2) by {
        if caps_has(t, l2) {
            let k = choose|k: int| 0 <= k < t.len() && #[trigger] t[k].label == l2;
            assert(s[k].label == l2);
        }
        if caps_has(s, l2) {
            let k = choose|k: int| 0 <= k < s.len() && #[trigger] s[k].label == l2;
            assert(t[k].label == l2);
        }
    }
    assert forall|l2: Seq<char>| caps_has(t, l2) implies caps_value(t, l2) == sat_add(
        value_or_zero(caps_map(s), l2),
        value_or_zero(single, l2),
    ) by {
        if l2 == l {
            lemma_caps_value_at(t, l, i);
        } else {
            let k = choose|k: int| 0 <= k < t.len() && #[trigger] t[k].label == l2;
            assert(s[k].label == l2);
            assert(k != i);
            lemma_caps_value_at(s, l2, k);
            lemma_caps_value_at(t, l2, k);
        }
    }
    assert(caps_map(t) =~= combined(caps_map(s), single));
}

/// Appending a bucket with a fresh label is, under the map view, a
/// combination with the one-label mapping.
proof fn lemma_append_map(s: Seq<CapacityM>, l: Seq<char>, v: int)
    requires
        caps_labels_unique(s),
        forall|k: int| 0 <= k < s.len() ==> 0 <= #[trigger] s[k].value <= u64::MAX,
        0 <= v <= u64::MAX,
        !caps_has(s, l),
    ensures
        caps_labels_unique(s.push(CapacityM { label: l, value: v })),
        caps_map(s.push(CapacityM { label: l, value: v })) == combined(
            caps_map(s),
            Map::<Seq<char>, int>::empty().insert(l, v),
        ),
{
    let t = s.push(CapacityM { label: l, value: v });
    let single = Map::<Seq<char>, int>::empty().insert(l, v);
    assert forall|i: int, j: int| 0 <= i < j < t.len() implies t[i].label != t[j].label by {
        if j < s.len() {
            assert(s[i].label != s[j].label);
        } else {
            assert(t[i] == s[i]);
        }
    }
    assert forall|l2: Seq<char>| caps_has(t, l2) <==> caps_has(s, l2) || l2 == l by {
        if caps_has(t, l2) {
            let k = choose|k: int| 0 <= k < t.len() && #[trigger] t[k].label == l2;
            if k < s.len() {
                assert(s[k].label == l2);
            } else {
                assert(l2 == l);
            }
        }
        if caps_has(s, l2) {
            let k = choose|k: int| 0 <= k < s.len() && #[trigger] s[k].label == l2;
            assert(t[k].label == l2);
        }
        if l2 == l {
            assert(t[s.len() as int].label == l2);
        }
    }
    assert forall|l2: Seq<char>| caps_has(t, l2) implies caps_value(t, l2) == sat_add(
        value_or_zero(caps_map(s), l2),
        value_or_zero(single, l2),
    ) by {
        if l2 == l {
            lemma_caps_value_at(t, l, s.len() as int);
        } else {
            let k = choose|k: int| 0 <= k < t.len() && #[trigger] t[k].label == l2;
            assert(k < s.len());
            assert(s[k].label == l2);
            lemma_caps_value_at(s, l2, k);
            lemma_caps_value_at(t, l2, k);
        }
    }
    assert(caps_map(t) =~= combined(caps_map(s), single));
}

/// A prefix of a uniquely labelled sequence does not hold the next label.
proof fn lemma_take_no_label(s: Seq<CapacityM>, j: int)
    requires
        caps_labels_unique(s),
        0 <= j < s.len(),
    ensures
        caps_labels_unique(s.take(j)),
        !caps_has(s.take(j), s[j].label),
{
    assert forall|k: int| 0 <= k < j implies s.take(j)[k].label != s[j].label by {
        assert(s[k].label != s[j].label);
    }
}

/// Folding one more label into an accumulated combination is the same as
/// first extending the right-hand mapping by it.
proof fn lemma_combined_layered(base: Map<Seq<char>, int>, m: Map<Seq<char>, int>, l: Seq<char>, v: int)
    requires
        bounded(base),
        bounded(m),
        0 <= v <= u64::MAX,
        !m.dom().contains(l),
    ensures
        combined(combined(base, m), Map::<Seq<char>, int>::empty().insert(l, v)) == combined(
            base,
            combined(m, Map::<Seq<char>, int>::empty().insert(l, v)),
        ),
{
    let single = Map::<Seq<char>, int>::empty().insert(l, v);
    assert(combined(combined(base, m), single) =~= combined(base, combined(m, single)));
}

/// Combination is commutative: the two operands contribute symmetrically.
///
/// The collections themselves may list their labels in different orders; the
/// statement is about the label-to-value mappings they denote.
pub proof fn lemma_combine_commutative(a: Map<Seq<char>, int>, b: Map<Seq<char>, int>)
    ensures
        combined(a, b) == combined(b, a),
{
    assert(combined(a, b) =~= combined(b, a));
}

/// Combination is associative over representable values.
pub proof fn lemma_combine_associative(
    a: Map<Seq<char>, int>,
    b: Map<Seq<char>, int>,
    c: Map<Seq<char>, int>,
)
    requires
        bounded(a),
        bounded(b),
        bounded(c),
    ensures
        combined(combined(a, b), c) == combined(a, combined(b, c)),
{
    assert(combined(combined(a, b), c) =~= combined(a, combined(b, c)));
}

/// The empty mapping is the identity of combination.
pub proof fn lemma_combine_identity(a: Map<Seq<char>, int>)
    requires
        bounded(a),
    ensures
        combined(a, Map::<Seq<char>, int>::empty()) == a,
{
    assert(combined(a, Map::<Seq<char>, int>::empty()) =~= a);
}

/// What a [`Capacities`] value denotes is always a bounded mapping, so the
/// combination laws above apply to it.
pub proof fn lemma_view_bounded(c: &Capacities)
    ensures
        bounded(c@),
{
    lemma_caps_map_bounded(c.models());
}

} // verus!
