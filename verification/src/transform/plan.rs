//! What one pass over a scene amounts to, as mathematics: which entities are
//! marked, which are deleted, and which global transforms are recomputed, in
//! which order and from which source.
use vstd::prelude::*;
use crate::transform::entity::{Entity, HierarchyEvent};
use crate::transform::scene::{
    alive_in, global_in, local_in, occupant, parent_in, retired, Node, NotAlive,
};

verus! {

/// Where a recomputed global transform comes from.
#[derive(Clone, Copy, Debug, PartialEq, Eq, Structural)]
pub enum Source {
    /// The matrix of the entity's own local transform.
    Local,
    /// The global transform of the given parent, composed with the matrix of
    /// the entity's own local transform.
    Parent(Entity),
}

/// One recomputation: the global transform of `entity` is to be overwritten
/// with what `source` describes.
#[derive(Clone, Copy, Debug, PartialEq, Eq, Structural)]
pub struct Step {
    pub entity: Entity,
    pub source: Source,
}

/// The indices that structural events mark: those of the entities reported as
/// modified.
pub open spec fn reparented(events: Seq<HierarchyEvent>) -> Set<u32> {
    Set::new(
        |id: u32|
            exists|k: int|
                0 <= k < events.len() && (#[trigger] events[k] matches HierarchyEvent::Modified(e)
                    && e.id == id),
    )
}

/// The indices marked as locally modified in a pass: every index whose local
/// transform was inserted or changed, and every index of an entity whose
/// place in the hierarchy changed.
pub open spec fn locally_modified(
    inserted: Seq<u32>,
    modified: Seq<u32>,
    events: Seq<HierarchyEvent>,
) -> Set<u32> {
    Set::new(
        |id: u32| inserted.contains(id) || modified.contains(id) || reparented(events).contains(id),
    )
}

/// Some event asks for `e` to be removed.
pub open spec fn removal_requested(events: Seq<HierarchyEvent>, e: Entity) -> bool {
    exists|k: int| 0 <= k < events.len() && #[trigger] events[k] == HierarchyEvent::Removed(e)
}

/// The scene once every removal that `events` asks for is carried out: the
/// slot of each living entity that is named by a removal is retired, and no
/// other slot changes.
pub open spec fn after_removals(nodes: Seq<Node>, events: Seq<HierarchyEvent>) -> Seq<Node> {
    Seq::new(
        nodes.len(),
        |i: int|
            if nodes[i].alive && removal_requested(events, occupant(nodes, i)) {
                retired(nodes[i])
            } else {
                nodes[i]
            },
    )
}

/// The removals that fail, in the order of their events: a removal fails when
/// the entity it names is not alive by the time the event is handled.
pub open spec fn removal_failures(nodes: Seq<Node>, events: Seq<HierarchyEvent>) -> Seq<NotAlive>
    decreases events.len(),
{
    if events.len() == 0 {
        Seq::empty()
    } else {
        let earlier = events.drop_last();
        let failures = removal_failures(nodes, earlier);
        match events.last() {
            HierarchyEvent::Removed(e) => if alive_in(after_removals(nodes, earlier), e) {
                failures
            } else {
                failures.push(NotAlive { entity: e })
            },
            HierarchyEvent::Modified(_) => failures,
        }
    }
}

/// The entity in slot `id` is recomputed as a root: it is marked, alive, has
/// both transforms, and either has no parent or has a parent that does not
/// resolve.
pub open spec fn is_seed(nodes: Seq<Node>, marked: Set<u32>, id: int) -> bool {
    &&& 0 <= id < nodes.len()
    &&& marked.contains(id as u32)
    &&& nodes[id].alive
    &&& nodes[id].has_local
    &&& nodes[id].has_global
    &&& match nodes[id].parent {
        None => true,
        Some(p) => !global_in(nodes, p),
    }
}

/// The indices of the entities recomputed as roots.
pub open spec fn seeds(nodes: Seq<Node>, marked: Set<u32>) -> Set<u32> {
    Set::new(|id: u32| is_seed(nodes, marked, id as int))
}

/// The recomputations of roots among the first `n` slots, by rising index.
pub open spec fn seed_steps(nodes: Seq<Node>, marked: Set<u32>, n: nat) -> Seq<Step>
    decreases n,
{
    if n == 0 {
        Seq::empty()
    } else {
        let before = seed_steps(nodes, marked, (n - 1) as nat);
        if is_seed(nodes, marked, n - 1) {
            before.push(Step { entity: occupant(nodes, n - 1), source: Source::Local })
        } else {
            before
        }
    }
}

/// What the sweep does when it reaches `e`, given the indices `written` so
/// far: an entity with a parent link and both transforms is recomputed if it
/// is marked itself or its parent's index was written. It is composed with
/// its parent's global transform where the parent resolves, and is taken from
/// its own local transform alone where the parent does not.
pub open spec fn sweep_step(
    nodes: Seq<Node>,
    marked: Set<u32>,
    written: Set<u32>,
    e: Entity,
) -> Option<Step> {
    match parent_in(nodes, e) {
        Some(p) => if local_in(nodes, e) && global_in(nodes, e) && (marked.contains(e.id)
            || written.contains(p.id)) {
            Some(
                Step {
                    entity: e,
                    source: if global_in(nodes, p) {
                        Source::Parent(p)
                    } else {
                        Source::Local
                    },
                },
            )
        } else {
            None
        },
        None => None,
    }
}

/// The indices written once the sweep has walked `order` front to back,
/// starting from the indices `written` before it.
pub open spec fn sweep_marks(
    nodes: Seq<Node>,
    marked: Set<u32>,
    written: Set<u32>,
    order: Seq<Entity>,
) -> Set<u32>
    decreases order.len(),
{
    if order.len() == 0 {
        written
    } else {
        let so_far = sweep_marks(nodes, marked, written, order.drop_last());
        match sweep_step(nodes, marked, so_far, order.last()) {
            Some(step) => so_far.insert(step.entity.id),
            None => so_far,
        }
    }
}

/// The recomputations that the sweep makes while it walks `order` front to
/// back, in the order in which it makes them.
pub open spec fn sweep_steps(
    nodes: Seq<Node>,
    marked: Set<u32>,
    written: Set<u32>,
    order: Seq<Entity>,
) -> Seq<Step>
    decreases order.len(),
{
    if order.len() == 0 {
        Seq::empty()
    } else {
        let earlier = order.drop_last();
        let steps = sweep_steps(nodes, marked, written, earlier);
        match sweep_step(nodes, marked, sweep_marks(nodes, marked, written, earlier), order.last()) {
            Some(step) => steps.push(step),
            None => steps,
        }
    }
}

/// All recomputations of a pass: first the roots, then the sweep.
pub open spec fn pass_steps(nodes: Seq<Node>, marked: Set<u32>, order: Seq<Entity>) -> Seq<Step> {
    seed_steps(nodes, marked, nodes.len()) + sweep_steps(
        nodes,
        marked,
        seeds(nodes, marked),
        order,
    )
}

/// All indices whose global transform a pass writes.
pub open spec fn pass_marks(nodes: Seq<Node>, marked: Set<u32>, order: Seq<Entity>) -> Set<u32> {
    sweep_marks(nodes, marked, seeds(nodes, marked), order)
}

/// The global transforms once `step` is carried out on `globals`, where
/// `local(id)` is the matrix of the local transform in slot `id` and
/// `compose(p, l)` is the product of a parent's global transform `p` with a
/// local matrix `l`.
pub open spec fn carry_out_step<M>(
    globals: Map<u32, M>,
    step: Step,
    local: spec_fn(u32) -> M,
    compose: spec_fn(M, M) -> M,
) -> Map<u32, M> {
    match step.source {
        Source::Local => globals.insert(step.entity.id, local(step.entity.id)),
        Source::Parent(p) => globals.insert(
            step.entity.id,
            compose(globals[p.id], local(step.entity.id)),
        ),
    }
}

/// The global transforms once `steps` are carried out on `globals`, first to
/// last.
pub open spec fn carry_out<M>(
    globals: Map<u32, M>,
    steps: Seq<Step>,
    local: spec_fn(u32) -> M,
    compose: spec_fn(M, M) -> M,
) -> Map<u32, M>
    decreases steps.len(),
{
    if steps.len() == 0 {
        globals
    } else {
        carry_out_step(carry_out(globals, steps.drop_last(), local, compose), steps.last(), local, compose)
    }
}

} // verus!
