//! The bundle that brings the hierarchy system and the transform system into
//! a schedule.
use vstd::prelude::*;

verus! {

/// The name under which the hierarchy system runs.
pub const HIERARCHY_SYSTEM: &'static str = "parent_hierarchy_system";

/// The name under which the transform system runs.
pub const TRANSFORM_SYSTEM: &'static str = "transform_system";

/// One system of a schedule: its name, and the names of the systems that
/// have to run before it.
pub struct Registration<'a> {
    pub name: &'static str,
    pub after: Vec<&'a str>,
}

/// The systems of the transform pass, and the systems that have to run
/// before them.
pub struct TransformBundle<'a> {
    dep: &'a [&'a str],
}

impl<'a> TransformBundle<'a> {
    /// The systems that have to run before the hierarchy system.
    pub closed spec fn dependencies(&self) -> Seq<&'a str> {
        self.dep@
    }

    /// A bundle whose systems wait for no other.
    pub fn new() -> (bundle: Self)
        ensures
            bundle.dependencies() == Seq::<&'a str>::empty(),
    {
        let none: &'a [&'a str] = &[];
        assert(none@ =~= Seq::<&'a str>::empty());
        TransformBundle { dep: none }
    }

    /// The bundle with `dep` as the systems that have to run before the
    /// hierarchy system.
    pub fn with_dep(self, dep: &'a [&'a str]) -> (bundle: Self)
        ensures
            bundle.dependencies() == dep@,
    {
        let mut bundle = self;
        bundle.dep = dep;
        bundle
    }

    /// The systems that the bundle adds to a schedule, in the order in which
    /// they are added: the hierarchy system, which waits for the systems this
    /// bundle was given, and the transform system, which waits for the
    /// hierarchy system.
    pub fn build(self) -> (entries: Vec<Registration<'a>>)
        ensures
            entries@.len() == 2,
            entries@[0].name@ == HIERARCHY_SYSTEM@,
            entries@[0].after@ == self.dependencies(),
            entries@[1].name@ == TRANSFORM_SYSTEM@,
            entries@[1].after@.len() == 1,
            entries@[1].after@[0]@ == HIERARCHY_SYSTEM@,
    {
        let mut before_hierarchy: Vec<&'a str> = Vec::new();
        let mut i: usize = 0;
        while i < self.dep.len()
            invariant
                i <= self.dep@.len(),
                before_hierarchy@ == self.dep@.take(i as int),
            decreases self.dep@.len() - i,
        {
            before_hierarchy.push(self.dep[i]);
            proof {
                assert(self.dep@.take(i + 1) =~= self.dep@.take(i as int).push(self.dep@[i as int]));
            }
            i += 1;
        }
        proof {
            assert(self.dep@.take(self.dep@.len() as int) =~= self.dep@);
        }
        let mut before_transform: Vec<&'a str> = Vec::new();
        before_transform.push(HIERARCHY_SYSTEM);
        let mut entries: Vec<Registration<'a>> = Vec::new();
        entries.push(Registration { name: HIERARCHY_SYSTEM, after: before_hierarchy });
        entries.push(Registration { name: TRANSFORM_SYSTEM, after: before_transform });
        entries
    }

    /// The systems that have to run before the hierarchy system.
    pub fn dep(&self) -> (dep: &'a [&'a str])
        ensures
            dep@ == self.dependencies(),
    {
        self.dep
    }
}

impl<'a> Default for TransformBundle<'a> {
    fn default() -> (bundle: Self)
        ensures
            bundle.dependencies() == Seq::<&'a str>::empty(),
    {
        TransformBundle::new()
    }
}

} // verus!
