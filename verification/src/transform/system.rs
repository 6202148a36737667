//! The transform system: the change tracker and the two phases of a pass.
use vstd::prelude::*;
use crate::transform::bits::{
    bit_set_add, bit_set_clear, bit_set_contains, bit_set_members, bit_set_new, index_limit,
};
use crate::transform::entity::{Entity, HierarchyEvent};
use crate::transform::plan::{
    after_removals, is_seed, locally_modified, pass_marks, pass_steps, removal_failures,
    removal_requested, reparented, seed_steps, seeds, sweep_marks, sweep_step, sweep_steps,
    Source, Step,
};
use crate::transform::scene::{alive_in, occupant, retired, Node, NotAlive, Scene};

verus! {

/// What a pass hands back: the recomputations to carry out, in order, and the
/// removals that failed because their entity was not alive.
pub struct Pass {
    pub steps: Vec<Step>,
    pub failed: Vec<NotAlive>,
}

/// Every index in `ids` fits into a bit set.
pub open spec fn indices_in_range(ids: Seq<u32>) -> bool {
    forall|i: int| 0 <= i < ids.len() ==> #[trigger] ids[i] < index_limit()
}

/// Every entity that `events` reports as modified has an index that fits
/// into a bit set.
pub open spec fn events_in_range(events: Seq<HierarchyEvent>) -> bool {
    forall|k: int|
        0 <= k < events.len() ==> (#[trigger] events[k] matches HierarchyEvent::Modified(e)
            ==> e.id < index_limit())
}

/// Puts every index of `ids` into `set`.
fn mark_all(set: &mut hibitset::BitSet, ids: &Vec<u32>)
    requires
        indices_in_range(ids@),
    ensures
        bit_set_members(*final(set)) == Set::new(
            |id: u32| bit_set_members(*old(set)).contains(id) || ids@.contains(id),
        ),
{
    let ghost before = bit_set_members(*set);
    let mut i: usize = 0;
    while i < ids.len()
        invariant
            i <= ids.len(),
            indices_in_range(ids@),
            bit_set_members(*set) == Set::new(
                |id: u32| before.contains(id) || ids@.take(i as int).contains(id),
            ),
        decreases ids.len() - i,
    {
        let ghost so_far = bit_set_members(*set);
        bit_set_add(set, ids[i]);
        proof {
            let next = ids@.take(i + 1);
            assert(next.drop_last() == ids@.take(i as int));
            assert forall|id: u32|
                so_far.insert(ids@[i as int]).contains(id) == (before.contains(id)
                    || next.contains(id)) by {
                if ids@.take(i as int).contains(id) {
                    let j = choose|j: int|
                        0 <= j < ids@.take(i as int).len() && ids@.take(i as int)[j] == id;
                    assert(next[j] == id);
                }
                if id == ids@[i as int] {
                    assert(next[i as int] == id);
                }
                if next.contains(id) {
                    let j = choose|j: int| 0 <= j < next.len() && next[j] == id;
                    if j < i {
                        assert(ids@.take(i as int)[j] == id);
                    }
                }
            }
            assert(bit_set_members(*set) =~= Set::new(
                |id: u32| before.contains(id) || next.contains(id),
            ));
        }
        i += 1;
    }
    proof {
        assert(ids@.take(ids@.len() as int) == ids@);
    }
}

/// Handling one more event changes the scene only if the event removes a
/// living entity, and then only in that entity's slot.
proof fn lemma_one_more_removal(nodes: Seq<Node>, events: Seq<HierarchyEvent>)
    requires
        events.len() > 0,
        nodes.len() <= index_limit(),
    ensures
        after_removals(nodes, events) == (match events.last() {
            HierarchyEvent::Removed(e) => {
                let earlier = after_removals(nodes, events.drop_last());
                if alive_in(earlier, e) {
                    earlier.update(e.id as int, retired(earlier[e.id as int]))
                } else {
                    earlier
                }
            },
            HierarchyEvent::Modified(_) => after_removals(nodes, events.drop_last()),
        }),
{
    let before = events.drop_last();
    let earlier = after_removals(nodes, before);
    let expected = match events.last() {
        HierarchyEvent::Removed(e) => {
            if alive_in(earlier, e) {
                earlier.update(e.id as int, retired(earlier[e.id as int]))
            } else {
                earlier
            }
        },
        HierarchyEvent::Modified(_) => earlier,
    };
    assert forall|i: int| 0 <= i < nodes.len() implies after_removals(nodes, events)[i]
        == expected[i] by {
        let who = occupant(nodes, i);
        assert(who.id == i);
        if removal_requested(before, who) {
            let k = choose|k: int|
                0 <= k < before.len() && #[trigger] before[k] == HierarchyEvent::Removed(who);
            assert(events[k] == HierarchyEvent::Removed(who));
        }
        if removal_requested(events, who) {
            let k = choose|k: int|
                0 <= k < events.len() && #[trigger] events[k] == HierarchyEvent::Removed(who);
            if k < before.len() {
                assert(before[k] == HierarchyEvent::Removed(who));
            }
        }
        if events.last() == HierarchyEvent::Removed(who) {
            assert(events[events.len() - 1] == HierarchyEvent::Removed(who));
        }
    }
    assert(after_removals(nodes, events) =~= expected);
}

/// One more event marks one more index if it reports a modification, and
/// none otherwise.
proof fn lemma_one_more_mark(events: Seq<HierarchyEvent>)
    requires
        events.len() > 0,
    ensures
        reparented(events) == (match events.last() {
            HierarchyEvent::Modified(e) => reparented(events.drop_last()).insert(e.id),
            HierarchyEvent::Removed(_) => reparented(events.drop_last()),
        }),
{
    let before = events.drop_last();
    let expected = match events.last() {
        HierarchyEvent::Modified(e) => reparented(before).insert(e.id),
        HierarchyEvent::Removed(_) => reparented(before),
    };
    assert forall|id: u32| reparented(events).contains(id) == expected.contains(id) by {
        if reparented(before).contains(id) {
            let k = choose|k: int|
                0 <= k < before.len() && (#[trigger] before[k] matches HierarchyEvent::Modified(e)
                    && e.id == id);
            assert(events[k] == before[k]);
        }
        if reparented(events).contains(id) {
            let k = choose|k: int|
                0 <= k < events.len() && (#[trigger] events[k] matches HierarchyEvent::Modified(e)
                    && e.id == id);
            if k < before.len() {
                assert(before[k] == events[k]);
            }
        }
        if let HierarchyEvent::Modified(e) = events.last() {
            if e.id == id {
                assert(events[events.len() - 1] == events.last());
            }
        }
    }
    assert(reparented(events) =~= expected);
}

/// The propagator with its change tracker: the indices marked as locally
/// modified in the current pass, and the indices whose global transform the
/// pass has written.
pub struct TransformSystem {
    local_modified: hibitset::BitSet,
    global_modified: hibitset::BitSet,
}

impl TransformSystem {
    /// The indices marked as locally modified.
    pub closed spec fn local_marks(&self) -> Set<u32> {
        bit_set_members(self.local_modified)
    }

    /// The indices whose global transform was written.
    pub closed spec fn global_marks(&self) -> Set<u32> {
        bit_set_members(self.global_modified)
    }

    /// A system that has marked nothing.
    pub fn new() -> (system: TransformSystem)
        ensures
            system.local_marks() == Set::<u32>::empty(),
            system.global_marks() == Set::<u32>::empty(),
    {
        TransformSystem { local_modified: bit_set_new(), global_modified: bit_set_new() }
    }

    /// Starts a pass: forgets the marks of the pass before, marks every
    /// index in `inserted` and `modified`, and handles the events in order.
    /// An event that reports a modification marks its entity's index; one
    /// that reports a removal deletes its entity from the scene at once.
    /// Returns the removals that failed.
    fn collect(
        &mut self,
        scene: &mut Scene,
        inserted: &Vec<u32>,
        modified: &Vec<u32>,
        events: &Vec<HierarchyEvent>,
    ) -> (failed: Vec<NotAlive>)
        requires
            old(scene).wf(),
            indices_in_range(inserted@),
            indices_in_range(modified@),
            events_in_range(events@),
        ensures
            final(scene).wf(),
            final(scene)@ == after_removals(old(scene)@, events@),
            failed@ == removal_failures(old(scene)@, events@),
            final(self).local_marks() == locally_modified(inserted@, modified@, events@),
            final(self).global_marks() == Set::<u32>::empty(),
    {
        bit_set_clear(&mut self.local_modified);
        bit_set_clear(&mut self.global_modified);
        mark_all(&mut self.local_modified, inserted);
        mark_all(&mut self.local_modified, modified);
        let ghost start = scene@;
        let ghost logged = bit_set_members(self.local_modified);
        let mut failed: Vec<NotAlive> = Vec::new();
        let mut k: usize = 0;
        proof {
            assert(after_removals(start, events@.take(0)) =~= start);
            assert(reparented(events@.take(0)) =~= Set::<u32>::empty());
            assert(bit_set_members(self.local_modified) =~= logged.union(
                reparented(events@.take(0)),
            ));
        }
        while k < events.len()
            invariant
                k <= events.len(),
                start.len() <= index_limit(),
                events_in_range(events@),
                scene@ == after_removals(start, events@.take(k as int)),
                failed@ == removal_failures(start, events@.take(k as int)),
                bit_set_members(self.local_modified) == logged.union(
                    reparented(events@.take(k as int)),
                ),
                bit_set_members(self.global_modified) == Set::<u32>::empty(),
            decreases events.len() - k,
        {
            proof {
                let next = events@.take(k + 1);
                assert(next.drop_last() == events@.take(k as int));
                assert(next.last() == events@[k as int]);
                lemma_one_more_removal(start, next);
                lemma_one_more_mark(next);
            }
            match events[k] {
                HierarchyEvent::Removed(e) => {
                    match scene.delete(e) {
                        Ok(_) => {},
                        Err(failure) => {
                            failed.push(failure);
                        },
                    }
                },
                HierarchyEvent::Modified(e) => {
                    bit_set_add(&mut self.local_modified, e.id);
                },
            }
            proof {
                assert(bit_set_members(self.local_modified) =~= logged.union(
                    reparented(events@.take(k + 1)),
                ));
            }
            k += 1;
        }
        proof {
            assert(events@.take(events@.len() as int) == events@);
            assert(bit_set_members(self.local_modified) =~= locally_modified(
                inserted@,
                modified@,
                events@,
            ));
        }
        failed
    }

    /// Recomputes the roots: every marked entity that has both transforms
    /// and no parent that resolves gets a step that takes its global
    /// transform from its local one, and its index is recorded as written.
    fn seed_roots(&mut self, scene: &Scene, steps: &mut Vec<Step>)
        requires
            scene.wf(),
        ensures
            final(self).local_marks() == old(self).local_marks(),
            final(self).global_marks() == old(self).global_marks().union(
                seeds(scene@, old(self).local_marks()),
            ),
            final(steps)@ == old(steps)@ + seed_steps(
                scene@,
                old(self).local_marks(),
                scene@.len(),
            ),
    {
        let ghost marked = bit_set_members(self.local_modified);
        let ghost written = bit_set_members(self.global_modified);
        let ghost planned = steps@;
        let n: usize = scene.len();
        let mut i: usize = 0;
        proof {
            assert(steps@ =~= planned + seed_steps(scene@, marked, 0));
        }
        while i < n
            invariant
                i <= n,
                n == scene@.len(),
                n <= index_limit(),
                bit_set_members(self.local_modified) == marked,
                bit_set_members(self.global_modified) == Set::new(
                    |id: u32| written.contains(id) || (id < i && is_seed(scene@, marked, id as int)),
                ),
                steps@ == planned + seed_steps(scene@, marked, i as nat),
            decreases n - i,
        {
            let id: u32 = i as u32;
            let node = scene.node(id);
            let unresolved = match node.parent {
                None => true,
                Some(p) => !scene.has_global(p),
            };
            let ghost earlier = bit_set_members(self.global_modified);
            if bit_set_contains(&self.local_modified, id) && node.alive && node.has_local
                && node.has_global && unresolved {
                bit_set_add(&mut self.global_modified, id);
                steps.push(
                    Step {
                        entity: Entity { id, generation: node.generation },
                        source: Source::Local,
                    },
                );
                proof {
                    assert(is_seed(scene@, marked, i as int));
                    assert(steps@ =~= planned + seed_steps(scene@, marked, (i + 1) as nat));
                }
            } else {
                proof {
                    assert(!is_seed(scene@, marked, i as int));
                }
            }
            proof {
                assert(bit_set_members(self.global_modified) =~= Set::new(
                    |id: u32|
                        written.contains(id) || (id < i + 1 && is_seed(scene@, marked, id as int)),
                ));
            }
            i += 1;
        }
        proof {
            assert(bit_set_members(self.global_modified) =~= written.union(seeds(scene@, marked)));
        }
    }

    /// Walks `order` front to back and recomputes every entity that has a
    /// parent link and both transforms, if it is marked itself or its
    /// parent's global transform was written earlier in this pass.
    fn propagate(&mut self, scene: &Scene, order: &Vec<Entity>, steps: &mut Vec<Step>)
        requires
            scene.wf(),
        ensures
            final(self).local_marks() == old(self).local_marks(),
            final(self).global_marks() == sweep_marks(
                scene@,
                old(self).local_marks(),
                old(self).global_marks(),
                order@,
            ),
            final(steps)@ == old(steps)@ + sweep_steps(
                scene@,
                old(self).local_marks(),
                old(self).global_marks(),
                order@,
            ),
    {
        let ghost marked = bit_set_members(self.local_modified);
        let ghost written = bit_set_members(self.global_modified);
        let ghost planned = steps@;
        let mut k: usize = 0;
        proof {
            assert(order@.take(0) =~= Seq::<Entity>::empty());
            assert(steps@ =~= planned + sweep_steps(scene@, marked, written, order@.take(0)));
        }
        while k < order.len()
            invariant
                k <= order.len(),
                scene.wf(),
                bit_set_members(self.local_modified) == marked,
                bit_set_members(self.global_modified) == sweep_marks(
                    scene@,
                    marked,
                    written,
                    order@.take(k as int),
                ),
                steps@ == planned + sweep_steps(scene@, marked, written, order@.take(k as int)),
            decreases order.len() - k,
        {
            let e = order[k];
            let ghost so_far = bit_set_members(self.global_modified);
            proof {
                let next = order@.take(k + 1);
                assert(next.drop_last() == order@.take(k as int));
                assert(next.last() == e);
            }
            let self_dirty = bit_set_contains(&self.local_modified, e.id);
            match scene.parent(e) {
                Some(p) => {
                    if scene.has_local(e) {
                        let parent_dirty = bit_set_contains(&self.global_modified, p.id);
                        if parent_dirty || self_dirty {
                            let source = if scene.has_global(p) {
                                Source::Parent(p)
                            } else {
                                Source::Local
                            };
                            if scene.has_global(e) {
                                bit_set_add(&mut self.global_modified, e.id);
                                steps.push(Step { entity: e, source });
                                proof {
                                    assert(sweep_step(scene@, marked, so_far, e) == Some(
                                        Step { entity: e, source },
                                    ));
                                }
                            }
                        }
                    }
                },
                None => {},
            }
            proof {
                assert(steps@ =~= planned + sweep_steps(
                    scene@,
                    marked,
                    written,
                    order@.take(k + 1),
                ));
            }
            k += 1;
        }
        proof {
            assert(order@.take(order@.len() as int) == order@);
        }
    }

    /// Runs one pass over `scene`.
    ///
    /// First the marks of the pass before are forgotten, every index in
    /// `inserted` and `modified` is marked, and the events are handled in
    /// order: a removal deletes its entity at once, a modification marks its
    /// entity's index. Then the marked roots are recomputed, and last the
    /// hierarchy is walked in `order`, which recomputes every entity that is
    /// marked itself or whose parent was recomputed before it.
    ///
    /// The pass hands back the recomputations in the order in which they have
    /// to be carried out, and the removals that failed.
    pub fn run(
        &mut self,
        scene: &mut Scene,
        inserted: &Vec<u32>,
        modified: &Vec<u32>,
        events: &Vec<HierarchyEvent>,
        order: &Vec<Entity>,
    ) -> (pass: Pass)
        requires
            old(scene).wf(),
            indices_in_range(inserted@),
            indices_in_range(modified@),
            events_in_range(events@),
        ensures
            final(scene).wf(),
            final(scene)@ == after_removals(old(scene)@, events@),
            pass.failed@ == removal_failures(old(scene)@, events@),
            final(self).local_marks() == locally_modified(inserted@, modified@, events@),
            final(self).global_marks() == pass_marks(
                final(scene)@,
                final(self).local_marks(),
                order@,
            ),
            pass.steps@ == pass_steps(final(scene)@, final(self).local_marks(), order@),
    {
        let failed = self.collect(scene, inserted, modified, events);
        let mut steps: Vec<Step> = Vec::new();
        self.seed_roots(scene, &mut steps);
        proof {
            assert(bit_set_members(self.global_modified) =~= seeds(
                scene@,
                bit_set_members(self.local_modified),
            ));
        }
        self.propagate(scene, order, &mut steps);
        Pass { steps, failed }
    }

    /// Whether `id` is marked as locally modified.
    pub fn is_locally_modified(&self, id: u32) -> (r: bool)
        ensures
            r == self.local_marks().contains(id),
    {
        bit_set_contains(&self.local_modified, id)
    }

    /// Whether the global transform of `id` was written.
    pub fn is_globally_modified(&self, id: u32) -> (r: bool)
        ensures
            r == self.global_marks().contains(id),
    {
        bit_set_contains(&self.global_modified, id)
    }
}

} // verus!
