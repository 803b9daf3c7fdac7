//! Layer tagging: moving a resolved target's renderable geometry onto the
//! private visibility layer.
//!
//! For every target of a readiness batch, each live mesh-bearing object
//! belonging to the target — its descendants for a mesh target, its
//! sub-scene instance's objects for a scene target — is tagged with the
//! private layer, so the auxiliary camera, and only it, renders exactly the
//! intended geometry. Re-tagging an already tagged object changes nothing.

use vstd::prelude::*;

use crate::assets::{SceneInstanceView, SceneSpawner};
use crate::ready_checks::{PixelationTarget, PixelationTargetKind, ReadyBatch};
use crate::world::{has_ancestor, lemma_has_ancestor_same_parents, lemma_push_contains, EntityId,
    Node, World};

verus! {

/// The node as it stands after tagging.
pub open spec fn tagged(n: Node) -> Node {
    Node { pixelation_layer: true, ..n }
}

/// Whether one batch entry tags object `i`: the object is a live
/// mesh-bearing one and belongs to the entry's target — a descendant of it
/// for a mesh target, a member of its sub-scene instance for a scene
/// target.
pub open spec fn entry_tags(
    nodes: Seq<Node>,
    spawner: Seq<SceneInstanceView>,
    entry: (EntityId, PixelationTarget),
    i: int,
) -> bool {
    &&& 0 <= i < nodes.len()
    &&& nodes[i].alive
    &&& nodes[i].mesh is Some
    &&& match entry.1.kind {
        PixelationTargetKind::Mesh => has_ancestor(nodes, i, entry.0 as int),
        PixelationTargetKind::Scene => {
            &&& entry.0 < nodes.len()
            &&& nodes[entry.0 as int].scene_instance matches Some(inst)
            &&& inst < spawner.len()
            &&& spawner[inst as int].entities.contains(i as usize)
        },
    }
}

/// Whether some entry of the batch tags object `i`.
pub open spec fn layer_due(
    nodes: Seq<Node>,
    spawner: Seq<SceneInstanceView>,
    batch: Seq<(EntityId, PixelationTarget)>,
    i: int,
) -> bool {
    exists|k: int| 0 <= k < batch.len() && entry_tags(nodes, spawner, #[trigger] batch[k], i)
}

/// The world after tagging every object some batch entry reaches.
pub open spec fn layered(
    nodes: Seq<Node>,
    spawner: Seq<SceneInstanceView>,
    batch: Seq<(EntityId, PixelationTarget)>,
) -> Seq<Node> {
    Seq::new(
        nodes.len(),
        |i: int|
            if layer_due(nodes, spawner, batch, i) {
                tagged(nodes[i])
            } else {
                nodes[i]
            },
    )
}

/// Adds to the marks every live mesh-bearing descendant of `e`.
fn tag_mesh_descendants(world: &World, e: EntityId, marks: &mut Vec<bool>)
    requires
        world.wf(),
        old(marks)@.len() == world@.len(),
    ensures
        final(marks)@.len() == world@.len(),
        forall|x: int|
            0 <= x < world@.len() ==> final(marks)@[x] == (old(marks)@[x] || (world@[x].alive
                && world@[x].mesh is Some && has_ancestor(world@, x, e as int))),
{
    let len = world.len();
    let mut j: usize = 0;
    while j < len
        invariant
            world.wf(),
            len == world@.len(),
            j <= len,
            marks@.len() == len,
            old(marks)@.len() == len,
            forall|x: int|
                0 <= x < j ==> marks@[x] == (old(marks)@[x] || (world@[x].alive && world@[x].mesh
                    is Some && has_ancestor(world@, x, e as int))),
            forall|x: int| j <= x < len ==> marks@[x] == old(marks)@[x],
        decreases len - j,
    {
        let alive_meshed = {
            let node = world.node(j);
            node.alive && node.mesh.is_some()
        };
        if alive_meshed && world.is_descendant_of(j, e) {
            marks.set(j, true);
        }
        j = j + 1;
    }
}

/// Adds to the marks every live mesh-bearing object of instance `inst`.
pub(crate) fn tag_instance_entities(
    world: &World,
    spawner: &SceneSpawner,
    inst: crate::assets::InstanceId,
    marks: &mut Vec<bool>,
)
    requires
        world.wf(),
        inst < spawner@.len(),
        old(marks)@.len() == world@.len(),
    ensures
        final(marks)@.len() == world@.len(),
        forall|x: int|
            0 <= x < world@.len() ==> final(marks)@[x] == (old(marks)@[x] || (world@[x].alive
                && world@[x].mesh is Some && spawner@[inst as int].entities.contains(
                x as usize,
            ))),
{
    let len = world.len();
    let m = spawner.instance_entity_count(inst);
    let ghost ents = spawner@[inst as int].entities;
    proof {
        assert(ents.take(0) =~= Seq::<EntityId>::empty());
    }
    let mut p: usize = 0;
    while p < m
        invariant
            world.wf(),
            len == world@.len(),
            p <= m,
            marks@.len() == len,
            old(marks)@.len() == len,
            inst < spawner@.len(),
            m == ents.len(),
            ents == spawner@[inst as int].entities,
            forall|x: int|
                0 <= x < len ==> marks@[x] == (old(marks)@[x] || (world@[x].alive && world@[x].mesh
                    is Some && ents.take(p as int).contains(x as usize))),
        decreases m - p,
    {
        let ent = spawner.instance_entity(inst, p);
        proof {
            assert(ents.take(p as int + 1) =~= ents.take(p as int).push(ents[p as int]));
        }
        let ghost marks_mid = marks@;
        if ent < len {
            let node = world.node(ent);
            if node.alive && node.mesh.is_some() {
                marks.set(ent, true);
            }
        }
        proof {
            assert forall|x: int|
                0 <= x < len implies marks@[x] == (old(marks)@[x] || (world@[x].alive
                && world@[x].mesh is Some && ents.take(p as int + 1).contains(x as usize))) by {
                lemma_push_contains(ents.take(p as int), ents[p as int], x as usize);
                if x == ent as int && ent < len {
                    assert(ents.take(p as int + 1).contains(ent)) by {
                        assert(ents.take(p as int + 1).last() == ent);
                    }
                }
            }
        }
        p = p + 1;
    }
    proof {
        assert(ents.take(m as int) =~= ents);
    }
}

/// Tags, for every batch entry, each live mesh-bearing object belonging to
/// the entry's target with the private visibility layer.
pub fn recursively_set_layer(world: &mut World, spawner: &SceneSpawner, batch: &ReadyBatch)
    requires
        old(world).wf(),
    ensures
        final(world).wf(),
        final(world)@ == layered(old(world)@, spawner@, batch@),
{
    let ghost nodes0 = world@;
    let len = world.len();
    let mut marks: Vec<bool> = Vec::new();
    let mut i: usize = 0;
    while i < len
        invariant
            i <= len,
            marks@.len() == i,
            forall|j: int| 0 <= j < i ==> !marks@[j],
        decreases len - i,
    {
        marks.push(false);
        i = i + 1;
    }
    let n = batch.len();
    let mut k: usize = 0;
    while k < n
        invariant
            world.wf(),
            world@ == nodes0,
            len == nodes0.len(),
            n == batch@.len(),
            k <= n,
            marks@.len() == len,
            forall|j: int|
                0 <= j < len ==> marks@[j] == layer_due(nodes0, spawner@, batch@.take(k as int), j),
        decreases n - k,
    {
        let ghost marks_before = marks@;
        let entry = batch[k];
        let e = entry.0;
        proof {
            assert(batch@.take(k as int + 1).drop_last() =~= batch@.take(k as int));
            assert(batch@.take(k as int + 1)[k as int] == batch@[k as int]);
        }
        match entry.1.kind {
            PixelationTargetKind::Mesh => {
                tag_mesh_descendants(world, e, &mut marks);
            },
            PixelationTargetKind::Scene => {
                let mut member = false;
                let mut inst: usize = 0;
                if e < len {
                    match world.node(e).scene_instance {
                        Some(x) => {
                            if x < spawner.len() {
                                member = true;
                                inst = x;
                            }
                        },
                        None => {},
                    }
                }
                if member {
                    tag_instance_entities(world, spawner, inst, &mut marks);
                }
            },
        }
        proof {
            assert forall|j: int| 0 <= j < len implies marks@[j] == layer_due(
                nodes0,
                spawner@,
                batch@.take(k as int + 1),
                j,
            ) by {
                let shorter = batch@.take(k as int);
                let longer = batch@.take(k as int + 1);
                assert(marks@[j] == (marks_before[j] || entry_tags(
                    nodes0,
                    spawner@,
                    batch@[k as int],
                    j,
                )));
                if marks@[j] {
                    if marks_before[j] {
                        let w = choose|w: int|
                            0 <= w < shorter.len() && entry_tags(
                                nodes0,
                                spawner@,
                                #[trigger] shorter[w],
                                j,
                            );
                        assert(entry_tags(nodes0, spawner@, longer[w], j));
                    } else {
                        assert(entry_tags(nodes0, spawner@, longer[k as int], j));
                    }
                } else {
                    if layer_due(nodes0, spawner@, longer, j) {
                        let w = choose|w: int|
                            0 <= w < longer.len() && entry_tags(
                                nodes0,
                                spawner@,
                                #[trigger] longer[w],
                                j,
                            );
                        if w < k {
                            assert(entry_tags(nodes0, spawner@, shorter[w], j));
                        }
                    }
                }
            }
        }
        k = k + 1;
    }
    proof {
        assert(batch@.take(n as int) =~= batch@);
    }
    let mut i: usize = 0;
    while i < len
        invariant
            world.wf(),
            world@.len() == len == nodes0.len(),
            i <= len,
            marks@.len() == len,
            forall|j: int| 0 <= j < len ==> marks@[j] == layer_due(nodes0, spawner@, batch@, j),
            forall|j: int|
                0 <= j < i ==> world@[j] == (if marks@[j] {
                    tagged(nodes0[j])
                } else {
                    nodes0[j]
                }),
            forall|j: int| i <= j < len ==> world@[j] == nodes0[j],
        decreases len - i,
    {
        if marks[i] {
            world.set_pixelation_layer(i, true);
        }
        i = i + 1;
    }
    proof {
        assert(world@ =~= layered(nodes0, spawner@, batch@));
    }
}

/// Tagging is idempotent: tagging a world that one pass already tagged
/// changes nothing, whether for the same batch or entry by entry.
pub proof fn lemma_layering_idempotent(
    nodes: Seq<Node>,
    spawner: Seq<SceneInstanceView>,
    batch: Seq<(EntityId, PixelationTarget)>,
)
    ensures
        layered(layered(nodes, spawner, batch), spawner, batch) == layered(nodes, spawner, batch),
{
    let once = layered(nodes, spawner, batch);
    assert forall|entry: (EntityId, PixelationTarget), i: int|
        entry_tags(once, spawner, entry, i) == entry_tags(nodes, spawner, entry, i) by {
        lemma_has_ancestor_same_parents(once, nodes, i, entry.0 as int);
    }
    assert forall|i: int| 0 <= i < once.len() implies layered(once, spawner, batch)[i] == once[i] by {
        assert(layer_due(once, spawner, batch, i) == layer_due(nodes, spawner, batch, i)) by {
            if layer_due(once, spawner, batch, i) {
                let w = choose|w: int|
                    0 <= w < batch.len() && entry_tags(once, spawner, #[trigger] batch[w], i);
                assert(entry_tags(nodes, spawner, batch[w], i));
            }
            if layer_due(nodes, spawner, batch, i) {
                let w = choose|w: int|
                    0 <= w < batch.len() && entry_tags(nodes, spawner, #[trigger] batch[w], i);
                assert(entry_tags(once, spawner, batch[w], i));
            }
        }
    }
    assert(layered(once, spawner, batch) =~= once);
}

} // verus!
