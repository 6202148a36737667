//! What holds of every pass, proved from the definition of a pass.
//!
//! The laws speak of the global transforms that result when the steps of a
//! pass are carried out. They hold whatever the matrices are: `local` gives
//! the matrix of each slot's local transform, `compose` multiplies a parent's
//! global transform with a local matrix, and nothing is assumed of either.
use vstd::prelude::*;
use crate::transform::bits::index_limit;
use crate::transform::entity::{Entity, HierarchyEvent};
use crate::transform::plan::{
    after_removals, carry_out, carry_out_step, is_seed, locally_modified, pass_marks, pass_steps,
    removal_failures, removal_requested, reparented, seed_steps, seeds, sweep_marks, sweep_step,
    sweep_steps, Source, Step,
};
use crate::transform::scene::{alive_in, global_in, local_in, occupant, parent_in, Node, NotAlive};

verus! {

/// Carrying out two runs of steps one after the other is carrying out their
/// concatenation.
proof fn lemma_carry_out_concat<M>(
    globals: Map<u32, M>,
    first: Seq<Step>,
    second: Seq<Step>,
    local: spec_fn(u32) -> M,
    compose: spec_fn(M, M) -> M,
)
    ensures
        carry_out(globals, first + second, local, compose) == carry_out(
            carry_out(globals, first, local, compose),
            second,
            local,
            compose,
        ),
    decreases second.len(),
{
    if second.len() == 0 {
        assert(first + second =~= first);
    } else {
        assert((first + second).drop_last() =~= first + second.drop_last());
        assert((first + second).last() == second.last());
        lemma_carry_out_concat(globals, first, second.drop_last(), local, compose);
    }
}

/// Steps leave alone every slot that none of them names.
proof fn lemma_untouched<M>(
    globals: Map<u32, M>,
    steps: Seq<Step>,
    local: spec_fn(u32) -> M,
    compose: spec_fn(M, M) -> M,
    id: u32,
)
    requires
        forall|i: int| 0 <= i < steps.len() ==> (#[trigger] steps[i]).entity.id != id,
    ensures
        carry_out(globals, steps, local, compose)[id] == globals[id],
    decreases steps.len(),
{
    if steps.len() > 0 {
        let earlier = steps.drop_last();
        assert forall|i: int| 0 <= i < earlier.len() implies (#[trigger] earlier[i]).entity.id
            != id by {
            assert(earlier[i] == steps[i]);
        }
        lemma_untouched(globals, earlier, local, compose, id);
        assert(steps.last() == steps[steps.len() - 1]);
    }
}

/// Where every step that names a slot takes its value from the local
/// transform, the slot ends up with the local matrix, provided some step
/// names it or it held the local matrix to begin with.
proof fn lemma_only_local<M>(
    globals: Map<u32, M>,
    steps: Seq<Step>,
    local: spec_fn(u32) -> M,
    compose: spec_fn(M, M) -> M,
    id: u32,
)
    requires
        forall|i: int|
            0 <= i < steps.len() && (#[trigger] steps[i]).entity.id == id ==> steps[i].source
                == Source::Local,
        globals[id] == local(id) || exists|i: int|
            0 <= i < steps.len() && (#[trigger] steps[i]).entity.id == id,
    ensures
        carry_out(globals, steps, local, compose)[id] == local(id),
    decreases steps.len(),
{
    if steps.len() > 0 {
        let earlier = steps.drop_last();
        let last = steps[steps.len() - 1];
        assert(steps.last() == last);
        if last.entity.id != id {
            assert forall|i: int|
                0 <= i < earlier.len() && (#[trigger] earlier[i]).entity.id == id implies earlier[i].source
                == Source::Local by {
                assert(earlier[i] == steps[i]);
            }
            if globals[id] != local(id) {
                let i = choose|i: int| 0 <= i < steps.len() && (#[trigger] steps[i]).entity.id == id;
                assert(earlier[i] == steps[i]);
            }
            lemma_only_local(globals, earlier, local, compose, id);
        }
    }
}

/// Every root step names a seed among the first `n` slots and takes its
/// value from the local transform, and every seed among them has its step.
proof fn lemma_seed_steps(nodes: Seq<Node>, marked: Set<u32>, n: nat)
    requires
        n <= nodes.len() <= index_limit(),
    ensures
        forall|i: int|
            0 <= i < seed_steps(nodes, marked, n).len() ==> {
                let step = #[trigger] seed_steps(nodes, marked, n)[i];
                &&& step.source == Source::Local
                &&& step.entity.id < n
                &&& is_seed(nodes, marked, step.entity.id as int)
            },
        forall|id: int|
            0 <= id < n && is_seed(nodes, marked, id) ==> exists|i: int|
                0 <= i < seed_steps(nodes, marked, n).len() && (#[trigger] seed_steps(
                    nodes,
                    marked,
                    n,
                )[i]).entity.id == id,
    decreases n,
{
    if n > 0 {
        let before = seed_steps(nodes, marked, (n - 1) as nat);
        let steps = seed_steps(nodes, marked, n);
        lemma_seed_steps(nodes, marked, (n - 1) as nat);
        assert forall|id: int| 0 <= id < n && is_seed(nodes, marked, id) implies exists|i: int|
            0 <= i < steps.len() && (#[trigger] steps[i]).entity.id == id by {
            if id < n - 1 {
                let i = choose|i: int|
                    0 <= i < before.len() && (#[trigger] before[i]).entity.id == id;
                assert(steps[i] == before[i]);
            } else {
                assert(steps[steps.len() - 1].entity.id == id);
            }
        }
    }
}

/// Every root step names the entity that lives in its slot.
proof fn lemma_seed_occupants(nodes: Seq<Node>, marked: Set<u32>, n: nat)
    requires
        n <= nodes.len() <= index_limit(),
    ensures
        forall|i: int|
            0 <= i < seed_steps(nodes, marked, n).len() ==> (#[trigger] seed_steps(
                nodes,
                marked,
                n,
            )[i]).entity == occupant(nodes, seed_steps(nodes, marked, n)[i].entity.id as int),
    decreases n,
{
    if n > 0 {
        lemma_seed_occupants(nodes, marked, (n - 1) as nat);
    }
}

/// What holds of a step of the sweep, where `written` are the indices that
/// the whole pass writes.
spec fn swept(nodes: Seq<Node>, marked: Set<u32>, written: Set<u32>, step: Step) -> bool {
    &&& local_in(nodes, step.entity)
    &&& global_in(nodes, step.entity)
    &&& written.contains(step.entity.id)
    &&& parent_in(nodes, step.entity) matches Some(p) && (marked.contains(step.entity.id)
        || written.contains(p.id)) && step.source == if global_in(nodes, p) {
        Source::Parent(p)
    } else {
        Source::Local
    }
}

/// The sweep only adds to the written indices, and each of its steps is one
/// that the rule of the sweep allows.
proof fn lemma_sweep_steps(
    nodes: Seq<Node>,
    marked: Set<u32>,
    written: Set<u32>,
    order: Seq<Entity>,
)
    ensures
        written.subset_of(sweep_marks(nodes, marked, written, order)),
        forall|i: int|
            0 <= i < sweep_steps(nodes, marked, written, order).len() ==> swept(
                nodes,
                marked,
                sweep_marks(nodes, marked, written, order),
                #[trigger] sweep_steps(nodes, marked, written, order)[i],
            ),
    decreases order.len(),
{
    if order.len() > 0 {
        let earlier = order.drop_last();
        lemma_sweep_steps(nodes, marked, written, earlier);
        let so_far = sweep_marks(nodes, marked, written, earlier);
        let all = sweep_marks(nodes, marked, written, order);
        let before = sweep_steps(nodes, marked, written, earlier);
        let steps = sweep_steps(nodes, marked, written, order);
        assert(so_far.subset_of(all));
        assert forall|i: int| 0 <= i < steps.len() implies swept(
            nodes,
            marked,
            all,
            #[trigger] steps[i],
        ) by {
            if i < before.len() {
                assert(steps[i] == before[i]);
                assert(swept(nodes, marked, so_far, before[i]));
            }
        }
    }
}

/// An entity that has both transforms and no parent
/// that resolves, be it that it has no parent link or that the link points
/// at an entity without a global transform, ends a pass with the matrix of
/// its local transform as its global transform, exactly. This holds if the
/// entity is marked in the pass, and also if it is not but held that matrix
/// before the pass.
pub proof fn law_root_correctness<M>(
    nodes: Seq<Node>,
    marked: Set<u32>,
    order: Seq<Entity>,
    globals: Map<u32, M>,
    local: spec_fn(u32) -> M,
    compose: spec_fn(M, M) -> M,
    e: Entity,
)
    requires
        nodes.len() <= index_limit(),
        local_in(nodes, e),
        global_in(nodes, e),
        parent_in(nodes, e) matches Some(p) ==> !global_in(nodes, p),
        marked.contains(e.id) || globals[e.id] == local(e.id),
    ensures
        carry_out(globals, pass_steps(nodes, marked, order), local, compose)[e.id] == local(e.id),
{
    let roots = seed_steps(nodes, marked, nodes.len());
    let sweep = sweep_steps(nodes, marked, seeds(nodes, marked), order);
    let steps = pass_steps(nodes, marked, order);
    lemma_seed_steps(nodes, marked, nodes.len());
    lemma_sweep_steps(nodes, marked, seeds(nodes, marked), order);
    assert forall|i: int|
        0 <= i < steps.len() && (#[trigger] steps[i]).entity.id == e.id implies steps[i].source
        == Source::Local by {
        if i < roots.len() {
            assert(steps[i] == roots[i]);
        } else {
            assert(steps[i] == sweep[i - roots.len()]);
            assert(steps[i].entity == e);
        }
    }
    if marked.contains(e.id) {
        assert(is_seed(nodes, marked, e.id as int));
        let i = choose|i: int| 0 <= i < roots.len() && (#[trigger] roots[i]).entity.id == e.id;
        assert(steps[i] == roots[i]);
    }
    lemma_only_local(globals, steps, local, compose, e.id);
}

/// Every step of a pass recomputes an entity that is alive and has both
/// transforms. A step that composes with a parent names the entity's own
/// parent, and that parent resolves: no step reads a global transform that is
/// not there.
pub proof fn law_steps_resolve(nodes: Seq<Node>, marked: Set<u32>, order: Seq<Entity>, i: int)
    requires
        nodes.len() <= index_limit(),
        0 <= i < pass_steps(nodes, marked, order).len(),
    ensures
        ({
            let step = pass_steps(nodes, marked, order)[i];
            &&& local_in(nodes, step.entity)
            &&& global_in(nodes, step.entity)
            &&& step.source matches Source::Parent(p) ==> parent_in(nodes, step.entity) == Some(p)
                && global_in(nodes, p)
        }),
{
    let roots = seed_steps(nodes, marked, nodes.len());
    let sweep = sweep_steps(nodes, marked, seeds(nodes, marked), order);
    let steps = pass_steps(nodes, marked, order);
    lemma_seed_steps(nodes, marked, nodes.len());
    lemma_seed_occupants(nodes, marked, nodes.len());
    lemma_sweep_steps(nodes, marked, seeds(nodes, marked), order);
    if i < roots.len() {
        assert(steps[i] == roots[i]);
    } else {
        assert(steps[i] == sweep[i - roots.len()]);
    }
}

/// A pass names in its steps only slots that it records as written.
proof fn lemma_steps_are_recorded(nodes: Seq<Node>, marked: Set<u32>, order: Seq<Entity>)
    requires
        nodes.len() <= index_limit(),
    ensures
        forall|i: int|
            0 <= i < pass_steps(nodes, marked, order).len() ==> pass_marks(
                nodes,
                marked,
                order,
            ).contains((#[trigger] pass_steps(nodes, marked, order)[i]).entity.id),
{
    let roots = seed_steps(nodes, marked, nodes.len());
    let sweep = sweep_steps(nodes, marked, seeds(nodes, marked), order);
    let steps = pass_steps(nodes, marked, order);
    lemma_seed_steps(nodes, marked, nodes.len());
    lemma_sweep_steps(nodes, marked, seeds(nodes, marked), order);
    assert forall|i: int| 0 <= i < steps.len() implies pass_marks(nodes, marked, order).contains(
        (#[trigger] steps[i]).entity.id,
    ) by {
        if i < roots.len() {
            assert(steps[i] == roots[i]);
            assert(seeds(nodes, marked).contains(roots[i].entity.id));
        } else {
            assert(steps[i] == sweep[i - roots.len()]);
        }
    }
}

/// A slot that a pass does not record as written keeps
/// the global transform it had.
pub proof fn law_unwritten_is_untouched<M>(
    nodes: Seq<Node>,
    marked: Set<u32>,
    order: Seq<Entity>,
    globals: Map<u32, M>,
    local: spec_fn(u32) -> M,
    compose: spec_fn(M, M) -> M,
    id: u32,
)
    requires
        nodes.len() <= index_limit(),
        !pass_marks(nodes, marked, order).contains(id),
    ensures
        carry_out(globals, pass_steps(nodes, marked, order), local, compose)[id] == globals[id],
{
    lemma_steps_are_recorded(nodes, marked, order);
    lemma_untouched(globals, pass_steps(nodes, marked, order), local, compose, id);
}

/// A set of slots that holds, with each living entity in it, the slot that
/// the entity's parent link points to.
pub open spec fn closed_under_parents(nodes: Seq<Node>, slots: Set<u32>) -> bool {
    forall|id: int|
        0 <= id < nodes.len() && slots.contains(id as u32) && (#[trigger] nodes[id]).alive
            ==> (nodes[id].parent matches Some(p) ==> slots.contains(p.id))
}

/// The sweep writes no slot of a set that is closed under parent links and
/// holds no marked and no written slot.
proof fn lemma_sweep_spares(
    nodes: Seq<Node>,
    marked: Set<u32>,
    written: Set<u32>,
    order: Seq<Entity>,
    clean: Set<u32>,
)
    requires
        closed_under_parents(nodes, clean),
        clean.disjoint(marked),
        clean.disjoint(written),
    ensures
        clean.disjoint(sweep_marks(nodes, marked, written, order)),
    decreases order.len(),
{
    if order.len() > 0 {
        let earlier = order.drop_last();
        lemma_sweep_spares(nodes, marked, written, earlier, clean);
        let so_far = sweep_marks(nodes, marked, written, earlier);
        let e = order.last();
        if let Some(step) = sweep_step(nodes, marked, so_far, e) {
            if clean.contains(e.id) {
                assert(nodes[e.id as int].alive);
            }
        }
    }
}

/// Take any set of slots that holds no marked slot and is
/// closed under parent links, as the slots of entities are that are neither
/// marked nor descend from a marked one. A pass writes none of them: each
/// keeps the global transform it had.
pub proof fn law_minimality<M>(
    nodes: Seq<Node>,
    marked: Set<u32>,
    order: Seq<Entity>,
    globals: Map<u32, M>,
    local: spec_fn(u32) -> M,
    compose: spec_fn(M, M) -> M,
    clean: Set<u32>,
)
    requires
        nodes.len() <= index_limit(),
        closed_under_parents(nodes, clean),
        clean.disjoint(marked),
    ensures
        clean.disjoint(pass_marks(nodes, marked, order)),
        forall|id: u32| #[trigger]
            clean.contains(id) ==> carry_out(
                globals,
                pass_steps(nodes, marked, order),
                local,
                compose,
            )[id] == globals[id],
{
    lemma_sweep_spares(nodes, marked, seeds(nodes, marked), order, clean);
    assert forall|id: u32| #[trigger] clean.contains(id) implies carry_out(
        globals,
        pass_steps(nodes, marked, order),
        local,
        compose,
    )[id] == globals[id] by {
        law_unwritten_is_untouched(nodes, marked, order, globals, local, compose, id);
    }
}

/// No roots are recomputed where nothing is marked.
proof fn lemma_no_seeds(nodes: Seq<Node>, n: nat)
    ensures
        seed_steps(nodes, Set::<u32>::empty(), n) == Seq::<Step>::empty(),
    decreases n,
{
    if n > 0 {
        lemma_no_seeds(nodes, (n - 1) as nat);
    }
}

/// The sweep does nothing where nothing is marked and nothing was written.
proof fn lemma_no_sweep(nodes: Seq<Node>, order: Seq<Entity>)
    ensures
        sweep_marks(nodes, Set::<u32>::empty(), Set::<u32>::empty(), order) == Set::<u32>::empty(),
        sweep_steps(nodes, Set::<u32>::empty(), Set::<u32>::empty(), order) == Seq::<Step>::empty(),
    decreases order.len(),
{
    if order.len() > 0 {
        lemma_no_sweep(nodes, order.drop_last());
    }
}

/// A pass that is given no change and no event, as the
/// second of two passes with no edit between them is, marks nothing, deletes
/// nothing, fails at nothing and recomputes nothing: every global transform
/// stays as it was.
pub proof fn law_idle_pass<M>(
    nodes: Seq<Node>,
    order: Seq<Entity>,
    globals: Map<u32, M>,
    local: spec_fn(u32) -> M,
    compose: spec_fn(M, M) -> M,
)
    ensures
        locally_modified(Seq::empty(), Seq::empty(), Seq::empty()) == Set::<u32>::empty(),
        after_removals(nodes, Seq::empty()) == nodes,
        removal_failures(nodes, Seq::empty()) == Seq::<NotAlive>::empty(),
        pass_marks(nodes, Set::empty(), order) == Set::<u32>::empty(),
        pass_steps(nodes, Set::empty(), order) == Seq::<Step>::empty(),
        carry_out(globals, pass_steps(nodes, Set::empty(), order), local, compose) == globals,
{
    assert(reparented(Seq::empty()) =~= Set::<u32>::empty());
    assert(locally_modified(Seq::empty(), Seq::empty(), Seq::empty()) =~= Set::<u32>::empty());
    assert(after_removals(nodes, Seq::empty()) =~= nodes);
    assert(seeds(nodes, Set::empty()) =~= Set::<u32>::empty());
    lemma_no_seeds(nodes, nodes.len());
    lemma_no_sweep(nodes, order);
    assert(pass_steps(nodes, Set::empty(), order) =~= Seq::<Step>::empty());
}

/// Once the events of a pass are handled, no entity that one of
/// them removes is alive, whether the removal succeeded or the entity was
/// gone before.
pub proof fn law_removed_is_gone(nodes: Seq<Node>, events: Seq<HierarchyEvent>, e: Entity)
    requires
        removal_requested(events, e),
    ensures
        !alive_in(after_removals(nodes, events), e),
{
    if alive_in(nodes, e) {
        assert(occupant(nodes, e.id as int) == e);
    }
}

/// Let a pass remove `parent`, and let `child` still point at
/// it afterwards. In any later pass over that scene that marks `child`, the
/// child is recomputed as a root: its global transform ends up as the matrix
/// of its local transform.
pub proof fn law_orphan_becomes_root<M>(
    nodes: Seq<Node>,
    events: Seq<HierarchyEvent>,
    parent: Entity,
    child: Entity,
    marked: Set<u32>,
    order: Seq<Entity>,
    globals: Map<u32, M>,
    local: spec_fn(u32) -> M,
    compose: spec_fn(M, M) -> M,
)
    requires
        nodes.len() <= index_limit(),
        removal_requested(events, parent),
        local_in(after_removals(nodes, events), child),
        global_in(after_removals(nodes, events), child),
        parent_in(after_removals(nodes, events), child) == Some(parent),
        marked.contains(child.id),
    ensures
        carry_out(
            globals,
            pass_steps(after_removals(nodes, events), marked, order),
            local,
            compose,
        )[child.id] == local(child.id),
{
    law_removed_is_gone(nodes, events, parent);
    law_root_correctness(
        after_removals(nodes, events),
        marked,
        order,
        globals,
        local,
        compose,
        child,
    );
}

/// The order names no slot twice, and names the slot that a parent link
/// points to before the entity that carries the link.
pub open spec fn parents_first(nodes: Seq<Node>, order: Seq<Entity>) -> bool {
    &&& forall|j: int, k: int|
        0 <= j < order.len() && 0 <= k < order.len() && (#[trigger] order[j]).id
            == (#[trigger] order[k]).id ==> j == k
    &&& forall|j: int, k: int|
        0 <= j < order.len() && 0 <= k < order.len() && (parent_in(
            nodes,
            #[trigger] order[k],
        ) matches Some(p) && p.id == (#[trigger] order[j]).id) ==> j < k
}

/// Every step of the sweep recomputes an entity of the order.
proof fn lemma_sweep_origin(
    nodes: Seq<Node>,
    marked: Set<u32>,
    written: Set<u32>,
    order: Seq<Entity>,
)
    ensures
        forall|i: int|
            0 <= i < sweep_steps(nodes, marked, written, order).len() ==> exists|j: int|
                0 <= j < order.len() && order[j] == (#[trigger] sweep_steps(
                    nodes,
                    marked,
                    written,
                    order,
                )[i]).entity,
    decreases order.len(),
{
    if order.len() > 0 {
        let earlier = order.drop_last();
        lemma_sweep_origin(nodes, marked, written, earlier);
        let before = sweep_steps(nodes, marked, written, earlier);
        let steps = sweep_steps(nodes, marked, written, order);
        assert forall|i: int| 0 <= i < steps.len() implies exists|j: int|
            0 <= j < order.len() && order[j] == (#[trigger] steps[i]).entity by {
            if i < before.len() {
                assert(steps[i] == before[i]);
                let j = choose|j: int| 0 <= j < earlier.len() && earlier[j] == before[i].entity;
                assert(order[j] == earlier[j]);
            } else {
                assert(order[order.len() - 1] == steps[i].entity);
            }
        }
    }
}

/// The global transforms once the roots and the first `n` entities of the
/// order are dealt with.
spec fn partway<M>(
    nodes: Seq<Node>,
    marked: Set<u32>,
    order: Seq<Entity>,
    globals: Map<u32, M>,
    local: spec_fn(u32) -> M,
    compose: spec_fn(M, M) -> M,
    n: int,
) -> Map<u32, M> {
    carry_out(globals, pass_steps(nodes, marked, order.take(n)), local, compose)
}

/// Dealing with one more entity of the order carries out its step, if it has
/// one, and changes nothing if it has none.
proof fn lemma_one_more_entity<M>(
    nodes: Seq<Node>,
    marked: Set<u32>,
    order: Seq<Entity>,
    globals: Map<u32, M>,
    local: spec_fn(u32) -> M,
    compose: spec_fn(M, M) -> M,
    n: int,
)
    requires
        0 <= n < order.len(),
    ensures
        partway(nodes, marked, order, globals, local, compose, n + 1) == (match sweep_step(
            nodes,
            marked,
            pass_marks(nodes, marked, order.take(n)),
            order[n],
        ) {
            Some(step) => carry_out_step(
                partway(nodes, marked, order, globals, local, compose, n),
                step,
                local,
                compose,
            ),
            None => partway(nodes, marked, order, globals, local, compose, n),
        }),
{
    let next = order.take(n + 1);
    assert(next.drop_last() =~= order.take(n));
    assert(next.last() == order[n]);
    let roots = seed_steps(nodes, marked, nodes.len());
    let before = sweep_steps(nodes, marked, seeds(nodes, marked), order.take(n));
    if let Some(step) = sweep_step(
        nodes,
        marked,
        pass_marks(nodes, marked, order.take(n)),
        order[n],
    ) {
        assert(pass_steps(nodes, marked, next) =~= (roots + before).push(step));
        assert(pass_steps(nodes, marked, next).drop_last() =~= roots + before);
    }
}

/// Up to the place of `e` in the order, no step names the slot of `e`, and
/// none names the slot of its parent unless that slot is recorded as
/// written.
proof fn lemma_before_its_turn<M>(
    nodes: Seq<Node>,
    marked: Set<u32>,
    order: Seq<Entity>,
    globals: Map<u32, M>,
    local: spec_fn(u32) -> M,
    compose: spec_fn(M, M) -> M,
    e: Entity,
    p: Entity,
    k: int,
)
    requires
        nodes.len() <= index_limit(),
        parents_first(nodes, order),
        0 <= k < order.len(),
        order[k] == e,
        global_in(nodes, e),
        parent_in(nodes, e) == Some(p),
        global_in(nodes, p),
    ensures
        partway(nodes, marked, order, globals, local, compose, k)[e.id] == globals[e.id],
        !pass_marks(nodes, marked, order.take(k)).contains(p.id) ==> partway(
            nodes,
            marked,
            order,
            globals,
            local,
            compose,
            k,
        )[p.id] == globals[p.id],
{
    let head = order.take(k);
    let roots = seed_steps(nodes, marked, nodes.len());
    let sweep = sweep_steps(nodes, marked, seeds(nodes, marked), head);
    let steps = pass_steps(nodes, marked, head);
    lemma_seed_steps(nodes, marked, nodes.len());
    lemma_sweep_origin(nodes, marked, seeds(nodes, marked), head);
    assert forall|i: int| 0 <= i < steps.len() implies (#[trigger] steps[i]).entity.id
        != e.id by {
        if i < roots.len() {
            assert(steps[i] == roots[i]);
        } else {
            assert(steps[i] == sweep[i - roots.len()]);
            let j = choose|j: int| 0 <= j < head.len() && head[j] == sweep[i - roots.len()].entity;
            assert(order[j] == head[j]);
        }
    }
    lemma_untouched(globals, steps, local, compose, e.id);
    if !pass_marks(nodes, marked, head).contains(p.id) {
        law_unwritten_is_untouched(nodes, marked, head, globals, local, compose, p.id);
    }
}

/// From the place of `e` in the order onwards, the global transform of `e`
/// is that of its parent composed with the matrix of its local transform.
proof fn lemma_after_its_turn<M>(
    nodes: Seq<Node>,
    marked: Set<u32>,
    order: Seq<Entity>,
    globals: Map<u32, M>,
    local: spec_fn(u32) -> M,
    compose: spec_fn(M, M) -> M,
    e: Entity,
    p: Entity,
    k: int,
    n: int,
)
    requires
        nodes.len() <= index_limit(),
        parents_first(nodes, order),
        0 <= k < n <= order.len(),
        order[k] == e,
        local_in(nodes, e),
        global_in(nodes, e),
        parent_in(nodes, e) == Some(p),
        global_in(nodes, p),
        marked.contains(e.id) || globals[e.id] == compose(globals[p.id], local(e.id)),
    ensures
        partway(nodes, marked, order, globals, local, compose, n)[e.id] == compose(
            partway(nodes, marked, order, globals, local, compose, n)[p.id],
            local(e.id),
        ),
    decreases n,
{
    lemma_one_more_entity(nodes, marked, order, globals, local, compose, n - 1);
    if n == k + 1 {
        lemma_before_its_turn(nodes, marked, order, globals, local, compose, e, p, k);
    } else {
        lemma_after_its_turn(nodes, marked, order, globals, local, compose, e, p, k, n - 1);
    }
}

/// An entity whose parent resolves ends a pass with its parent's global
/// transform, composed with the matrix of its own local transform, as its
/// global transform. This holds where the order names parents first and
/// names the entity, if the entity is marked in the pass, and also if it is
/// not but stood in that relation to its parent before the pass.
pub proof fn law_propagation<M>(
    nodes: Seq<Node>,
    marked: Set<u32>,
    order: Seq<Entity>,
    globals: Map<u32, M>,
    local: spec_fn(u32) -> M,
    compose: spec_fn(M, M) -> M,
    e: Entity,
    p: Entity,
)
    requires
        nodes.len() <= index_limit(),
        parents_first(nodes, order),
        order.contains(e),
        local_in(nodes, e),
        global_in(nodes, e),
        parent_in(nodes, e) == Some(p),
        global_in(nodes, p),
        marked.contains(e.id) || globals[e.id] == compose(globals[p.id], local(e.id)),
    ensures
        ({
            let after = carry_out(globals, pass_steps(nodes, marked, order), local, compose);
            after[e.id] == compose(after[p.id], local(e.id))
        }),
{
    let k = choose|k: int| 0 <= k < order.len() && order[k] == e;
    lemma_after_its_turn(nodes, marked, order, globals, local, compose, e, p, k, order.len() as int);
    assert(order.take(order.len() as int) == order);
}

} // verus!
