//! The structural table of a scene: for each slot, which entity lives there,
//! which transforms it carries and which entity it hangs under.
//!
//! The table holds no transform values. It records what the propagator has to
//! know to decide what is recomputed: presence and parent links.
use vstd::prelude::*;
use crate::transform::bits::index_limit;
use crate::transform::entity::Entity;

verus! {

/// One slot of the scene table.
#[derive(Clone, Copy, Debug, PartialEq, Eq, Structural)]
pub struct Node {
    /// The generation of the entity that lives, or last lived, in this slot.
    pub generation: i32,
    /// Whether that entity is alive.
    pub alive: bool,
    /// Whether it has a local transform.
    pub has_local: bool,
    /// Whether it has a global transform.
    pub has_global: bool,
    /// The entity it is placed relative to, if any.
    pub parent: Option<Entity>,
}

/// The slot of an entity that never lived.
pub open spec fn vacant_node() -> Node {
    Node { generation: 0, alive: false, has_local: false, has_global: false, parent: None }
}

/// What is left in a slot once its entity is deleted: the generation stays,
/// so that the deleted entity stays recognisable as stale; everything it
/// carried is gone.
pub open spec fn retired(node: Node) -> Node {
    Node {
        generation: node.generation,
        alive: false,
        has_local: false,
        has_global: false,
        parent: None,
    }
}

/// `e` names the entity that lives in its slot.
pub open spec fn alive_in(nodes: Seq<Node>, e: Entity) -> bool {
    &&& e.id < nodes.len()
    &&& nodes[e.id as int].alive
    &&& nodes[e.id as int].generation == e.generation
}

/// `e` is alive and has a local transform.
pub open spec fn local_in(nodes: Seq<Node>, e: Entity) -> bool {
    alive_in(nodes, e) && nodes[e.id as int].has_local
}

/// `e` is alive and has a global transform: it resolves.
pub open spec fn global_in(nodes: Seq<Node>, e: Entity) -> bool {
    alive_in(nodes, e) && nodes[e.id as int].has_global
}

/// The parent link of `e`, if `e` is alive and has one.
pub open spec fn parent_in(nodes: Seq<Node>, e: Entity) -> Option<Entity> {
    if alive_in(nodes, e) {
        nodes[e.id as int].parent
    } else {
        None
    }
}

/// The entity that lives, or last lived, in slot `id`.
pub open spec fn occupant(nodes: Seq<Node>, id: int) -> Entity
    recommends
        0 <= id < nodes.len() <= u32::MAX,
{
    Entity { id: id as u32, generation: nodes[id].generation }
}

/// The table `nodes` with `node` put in the slot of `e`; where the table was
/// too short to have that slot, vacant slots fill the gap.
pub open spec fn placed(nodes: Seq<Node>, id: u32, node: Node) -> Seq<Node> {
    let padded = if id < nodes.len() {
        nodes
    } else {
        nodes + Seq::new((id + 1 - nodes.len()) as nat, |i: int| vacant_node())
    };
    padded.update(id as int, node)
}

/// Deleting an entity failed because it is not alive: it never lived, was
/// deleted before, or its slot has moved on to a later generation.
#[derive(Clone, Copy, Debug, PartialEq, Eq, Structural)]
pub struct NotAlive {
    pub entity: Entity,
}

/// The scene table, indexed by entity index.
pub struct Scene {
    nodes: Vec<Node>,
}

impl View for Scene {
    type V = Seq<Node>;

    closed spec fn view(&self) -> Seq<Node> {
        self.nodes@
    }
}

impl Scene {
    /// The table has no more slots than a bit set has indices.
    pub open spec fn wf(&self) -> bool {
        self@.len() <= index_limit()
    }

    /// A scene without entities.
    pub fn new() -> (scene: Scene)
        ensures
            scene@ == Seq::<Node>::empty(),
            scene.wf(),
    {
        Scene { nodes: Vec::new() }
    }

    /// Puts `e` into its slot, alive, with the given transforms and parent
    /// link. Whatever was in the slot before is overwritten.
    pub fn place(
        &mut self,
        e: Entity,
        has_local: bool,
        has_global: bool,
        parent: Option<Entity>,
    )
        requires
            old(self).wf(),
            e.id < index_limit(),
        ensures
            final(self).wf(),
            final(self)@ == placed(
                old(self)@,
                e.id,
                Node { generation: e.generation, alive: true, has_local, has_global, parent },
            ),
    {
        let ghost before = self.nodes@;
        let id: usize = e.id as usize;
        while self.nodes.len() <= id
            invariant
                id == e.id,
                e.id < index_limit(),
                before.len() <= self.nodes@.len(),
                self.nodes@.len() <= index_limit(),
                self.nodes@.len() <= before.len() || self.nodes@.len() <= id + 1,
                self.nodes@ =~= before + Seq::new(
                    (self.nodes@.len() - before.len()) as nat,
                    |i: int| vacant_node(),
                ),
            decreases id + 1 - self.nodes@.len(),
        {
            self.nodes.push(
                Node {
                    generation: 0,
                    alive: false,
                    has_local: false,
                    has_global: false,
                    parent: None,
                },
            );
        }
        self.nodes[id] = Node {
            generation: e.generation,
            alive: true,
            has_local,
            has_global,
            parent,
        };
        assert(self.nodes@ =~= placed(
            before,
            e.id,
            Node { generation: e.generation, alive: true, has_local, has_global, parent },
        ));
    }

    /// Deletes `e`: its slot keeps the generation and loses everything else.
    /// Fails, and changes nothing, exactly when `e` is not alive.
    pub fn delete(&mut self, e: Entity) -> (r: Result<(), NotAlive>)
        ensures
            alive_in(old(self)@, e) ==> r.is_ok() && final(self)@ == old(self)@.update(
                e.id as int,
                retired(old(self)@[e.id as int]),
            ),
            !alive_in(old(self)@, e) ==> r == Err::<(), NotAlive>(NotAlive { entity: e })
                && final(self)@ == old(self)@,
            old(self).wf() ==> final(self).wf(),
    {
        if self.is_alive(e) {
            let id: usize = e.id as usize;
            let node = self.nodes[id];
            self.nodes[id] = Node {
                generation: node.generation,
                alive: false,
                has_local: false,
                has_global: false,
                parent: None,
            };
            Ok(())
        } else {
            Err(NotAlive { entity: e })
        }
    }

    /// The number of slots.
    pub fn len(&self) -> (n: usize)
        ensures
            n == self@.len(),
    {
        self.nodes.len()
    }

    /// The slot with index `id`; a slot beyond the table is vacant.
    pub fn node(&self, id: u32) -> (node: Node)
        ensures
            node == if id < self@.len() { self@[id as int] } else { vacant_node() },
    {
        if (id as usize) < self.nodes.len() {
            self.nodes[id as usize]
        } else {
            Node { generation: 0, alive: false, has_local: false, has_global: false, parent: None }
        }
    }

    /// Whether `e` names the entity that lives in its slot.
    pub fn is_alive(&self, e: Entity) -> (r: bool)
        ensures
            r == alive_in(self@, e),
    {
        let node = self.node(e.id);
        node.alive && node.generation == e.generation
    }

    /// Whether `e` is alive and has a local transform.
    pub fn has_local(&self, e: Entity) -> (r: bool)
        ensures
            r == local_in(self@, e),
    {
        let node = self.node(e.id);
        node.alive && node.generation == e.generation && node.has_local
    }

    /// Whether `e` is alive and has a global transform.
    pub fn has_global(&self, e: Entity) -> (r: bool)
        ensures
            r == global_in(self@, e),
    {
        let node = self.node(e.id);
        node.alive && node.generation == e.generation && node.has_global
    }

    /// The parent link of `e`, if `e` is alive and has one.
    pub fn parent(&self, e: Entity) -> (p: Option<Entity>)
        ensures
            p == parent_in(self@, e),
    {
        let node = self.node(e.id);
        if node.alive && node.generation == e.generation {
            node.parent
        } else {
            None
        }
    }
}

} // verus!
