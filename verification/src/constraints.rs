//! The constraint registry: which particles are anchored, and which are
//! tied to a partner.
//!
//! Both tables are keyed by particle identifier and kept apart from the
//! particle records. An identifier need not belong to a particle: an entry
//! for one that no particle carries is simply never looked up.

use std::collections::HashMap;
use std::collections::HashSet;
use vstd::prelude::*;

verus! {

broadcast use vstd::std_specs::hash::group_hash_axioms;

/// Mathematical model of the registry: the set of anchored identifiers and
/// the partner of each tied identifier.
pub struct Constraints {
    pub fixed: Set<u64>,
    pub links: Map<u64, u64>,
}

impl Constraints {
    /// No particle is anchored and none is tied.
    pub open spec fn empty() -> Constraints {
        Constraints { fixed: Set::empty(), links: Map::empty() }
    }

    /// Whether `id` is an anchor.
    pub open spec fn is_fixed(self, id: u64) -> bool {
        self.fixed.contains(id)
    }

    /// The partner recorded for `id`, if it has one.
    pub open spec fn partner(self, id: u64) -> Option<u64> {
        if self.links.contains_key(id) {
            Some(self.links[id])
        } else {
            None
        }
    }

    /// Whether `id` has a partner and that partner is exactly `other`.
    pub open spec fn links_to(self, id: u64, other: u64) -> bool {
        self.partner(id) == Some(other)
    }

    /// The registry after anchoring `id`.
    pub open spec fn with_fixed(self, id: u64) -> Constraints {
        Constraints { fixed: self.fixed.insert(id), links: self.links }
    }

    /// The registry after tying `first` and `second` to each other. Each
    /// of the two forgets the partner it had before.
    pub open spec fn with_link(self, first: u64, second: u64) -> Constraints {
        Constraints {
            fixed: self.fixed,
            links: self.links.insert(first, second).insert(second, first),
        }
    }
}

/// Anchoring an identifier a second time changes nothing.
pub proof fn lemma_fix_idempotent(constraints: Constraints, id: u64)
    ensures
        constraints.with_fixed(id).with_fixed(id) == constraints.with_fixed(id),
        constraints.is_fixed(id) ==> constraints.with_fixed(id) == constraints,
{
    assert(constraints.fixed.insert(id).insert(id) =~= constraints.fixed.insert(id));
    if constraints.is_fixed(id) {
        assert(constraints.fixed.insert(id) =~= constraints.fixed);
    }
}

/// Tying two identifiers records each as the partner of the other, leaves
/// every other identifier's partner as it was, and anchors nothing.
pub proof fn lemma_link_symmetric(constraints: Constraints, first: u64, second: u64)
    ensures
        constraints.with_link(first, second).links_to(first, second),
        constraints.with_link(first, second).links_to(second, first),
        forall|id: u64|
            id != first && id != second ==> constraints.with_link(first, second).partner(id)
                == constraints.partner(id),
        constraints.with_link(first, second).fixed == constraints.fixed,
{
}

/// A later tie replaces an earlier one: the identifier that is tied again
/// has the new partner only, while its former partner still points back.
pub proof fn lemma_link_overwrites(constraints: Constraints, id: u64, former: u64, latter: u64)
    requires
        former != id,
        former != latter,
    ensures
        constraints.with_link(id, former).with_link(id, latter).partner(id) == Some(latter),
        constraints.with_link(id, former).with_link(id, latter).partner(former) == Some(id),
{
}

/// The anchored set and the link map of a universe.
pub struct ConstraintRegistry {
    fixed: HashSet<u64>,
    links: HashMap<u64, u64>,
}

impl View for ConstraintRegistry {
    type V = Constraints;

    closed spec fn view(&self) -> Constraints {
        Constraints { fixed: self.fixed@, links: self.links@ }
    }
}

impl ConstraintRegistry {
    /// A registry with no anchor and no tie.
    pub fn new() -> (registry: ConstraintRegistry)
        ensures
            registry@ == Constraints::empty(),
    {
        ConstraintRegistry { fixed: HashSet::new(), links: HashMap::new() }
    }

    /// Anchors `id`. Anchoring an anchor again changes nothing.
    pub fn fix(&mut self, id: u64)
        ensures
            final(self)@ == old(self)@.with_fixed(id),
            old(self)@.is_fixed(id) ==> final(self)@ == old(self)@,
    {
        proof {
            lemma_fix_idempotent(self@, id);
        }
        self.fixed.insert(id);
    }

    /// Ties `first` and `second` to each other, in both directions at
    /// once.
    pub fn link(&mut self, first: u64, second: u64)
        ensures
            final(self)@ == old(self)@.with_link(first, second),
            final(self)@.links_to(first, second),
            final(self)@.links_to(second, first),
    {
        self.links.insert(first, second);
        self.links.insert(second, first);
    }

    /// Whether `id` is an anchor.
    pub fn is_fixed(&self, id: u64) -> (fixed: bool)
        ensures
            fixed == self@.is_fixed(id),
    {
        self.fixed.contains(&id)
    }

    /// The partner recorded for `id`, if it has one.
    pub fn partner(&self, id: u64) -> (partner: Option<u64>)
        ensures
            partner == self@.partner(id),
    {
        match self.links.get(&id) {
            Some(other) => Some(*other),
            None => None,
        }
    }

    /// Whether `id` has a partner and that partner is exactly `other`.
    pub fn links_to(&self, id: u64, other: u64) -> (linked: bool)
        ensures
            linked == self@.links_to(id, other),
    {
        match self.links.get(&id) {
            Some(partner) => *partner == other,
            None => false,
        }
    }

    /// Forgets every anchor and every tie.
    pub fn clear(&mut self)
        ensures
            final(self)@ == Constraints::empty(),
    {
        self.fixed.clear();
        self.links.clear();
    }
}

} // verus!
