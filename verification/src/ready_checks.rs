//! Readiness tracking: polling the pending set until a requested object's
//! geometry is resolvable.
//!
//! An object with a pixelation request stays pending until its geometry is
//! available: a mesh-backed object until the mesh asset is confirmed loaded,
//! a scene-backed object until the spawned sub-scene instance reports fully
//! spawned and holds at least one mesh-bearing object. Each poll emits one
//! batch of newly resolved targets and removes them from the pending set.

use vstd::prelude::*;

use crate::assets::{first_mesh_in, radius_of, AssetId, MeshAssets, MeshData, SceneInstanceView,
    SceneSpawner};
use crate::world::{EntityId, Node, World};
use crate::PixelationError;

verus! {

/// Whether the resolved geometry is the object's own mesh or a spawned
/// sub-scene.
#[derive(Debug, Copy, Clone, PartialEq, Eq, Structural)]
pub enum PixelationTargetKind {
    /// The object carries its mesh directly.
    Mesh,
    /// The object's geometry comes from an instantiated sub-scene.
    Scene,
}

/// A resolved pixelation target: the representative mesh used for bounding
/// volume computation and the kind of geometry it came from.
#[derive(Debug, Copy, Clone, PartialEq, Eq, Structural)]
pub struct PixelationTarget {
    /// The representative mesh.
    pub mesh_handle: AssetId,
    /// Where the geometry comes from.
    pub kind: PixelationTargetKind,
}

/// One readiness batch: the newly resolved objects, each with its target.
pub type ReadyBatch = Vec<(EntityId, PixelationTarget)>;

/// Whether object `e` still takes part in readiness tracking: it exists, is
/// alive, and still carries a pixelation request.
pub open spec fn tracked_for_pixelation(nodes: Seq<Node>, e: EntityId) -> bool {
    e < nodes.len() && nodes[e as int].alive && nodes[e as int].pixelate.is_some()
}

/// Whether object `e` is an invalid request: tracked but with neither a
/// mesh nor a scene reference, which no amount of waiting can resolve.
pub open spec fn invalid_request(nodes: Seq<Node>, e: EntityId) -> bool {
    &&& tracked_for_pixelation(nodes, e)
    &&& nodes[e as int].mesh is None
    &&& nodes[e as int].scene is None
}

/// Whether the sub-scene of object `e` is resolvable: an instance exists,
/// the host reports it fully spawned, and it holds a live mesh-bearing
/// object.
pub open spec fn scene_ready(nodes: Seq<Node>, spawner: Seq<SceneInstanceView>, e: EntityId) -> bool {
    &&& nodes[e as int].scene_instance matches Some(inst)
    &&& inst < spawner.len()
    &&& spawner[inst as int].ready
    &&& first_mesh_in(nodes, spawner[inst as int].entities) is Some
}

/// Whether tracked object `e` resolves in the current poll. A scene
/// reference takes precedence over a mesh one, as a scene-backed object's
/// root may itself carry a mesh.
pub open spec fn ready_now(
    nodes: Seq<Node>,
    meshes: Seq<MeshData>,
    spawner: Seq<SceneInstanceView>,
    e: EntityId,
) -> bool {
    &&& tracked_for_pixelation(nodes, e)
    &&& if nodes[e as int].scene is Some {
        scene_ready(nodes, spawner, e)
    } else {
        nodes[e as int].mesh matches Some(m) && radius_of(meshes, m) is Some
    }
}

/// The target a resolving object gets: for a scene, the first live
/// mesh-bearing object of its instance; for a mesh, the object's own mesh.
pub open spec fn target_of(nodes: Seq<Node>, spawner: Seq<SceneInstanceView>, e: EntityId)
    -> PixelationTarget {
    if nodes[e as int].scene is Some {
        let inst = nodes[e as int].scene_instance.unwrap();
        PixelationTarget {
            mesh_handle: first_mesh_in(nodes, spawner[inst as int].entities).unwrap().1,
            kind: PixelationTargetKind::Scene,
        }
    } else {
        PixelationTarget {
            mesh_handle: nodes[e as int].mesh.unwrap(),
            kind: PixelationTargetKind::Mesh,
        }
    }
}

/// The batch one poll of the given pending set emits: every pending object
/// that resolves now, in pending order, with its target.
pub open spec fn ready_batch(
    nodes: Seq<Node>,
    meshes: Seq<MeshData>,
    spawner: Seq<SceneInstanceView>,
    pending: Seq<EntityId>,
) -> Seq<(EntityId, PixelationTarget)>
    decreases pending.len(),
{
    if pending.len() == 0 {
        Seq::empty()
    } else {
        let rest = ready_batch(nodes, meshes, spawner, pending.drop_last());
        if ready_now(nodes, meshes, spawner, pending.last()) {
            rest.push((pending.last(), target_of(nodes, spawner, pending.last())))
        } else {
            rest
        }
    }
}

/// The pending set after one poll: the objects still tracked and not yet
/// resolved, in their previous order. Resolved objects leave, and so do
/// objects that died or lost their request while pending.
pub open spec fn still_pending(
    nodes: Seq<Node>,
    meshes: Seq<MeshData>,
    spawner: Seq<SceneInstanceView>,
    pending: Seq<EntityId>,
) -> Seq<EntityId>
    decreases pending.len(),
{
    if pending.len() == 0 {
        Seq::empty()
    } else {
        let rest = still_pending(nodes, meshes, spawner, pending.drop_last());
        if tracked_for_pixelation(nodes, pending.last()) && !ready_now(
            nodes,
            meshes,
            spawner,
            pending.last(),
        ) {
            rest.push(pending.last())
        } else {
            rest
        }
    }
}

/// The first invalid request in the pending set, if any.
pub open spec fn first_invalid(nodes: Seq<Node>, pending: Seq<EntityId>) -> Option<EntityId>
    decreases pending.len(),
{
    if pending.len() == 0 {
        None
    } else if invalid_request(nodes, pending[0]) {
        Some(pending[0])
    } else {
        first_invalid(nodes, pending.drop_first())
    }
}

/// A pending set with no invalid request at any position has no first one.
pub proof fn lemma_first_invalid_none(nodes: Seq<Node>, pending: Seq<EntityId>)
    requires
        forall|j: int| 0 <= j < pending.len() ==> !invalid_request(nodes, #[trigger] pending[j]),
    ensures
        first_invalid(nodes, pending) is None,
    decreases pending.len(),
{
    if pending.len() > 0 {
        lemma_first_invalid_none(nodes, pending.drop_first());
    }
}

/// If every request before position `k` is valid and the one at `k` is
/// not, then that one is the first invalid request.
pub proof fn lemma_first_invalid_at(nodes: Seq<Node>, pending: Seq<EntityId>, k: int)
    requires
        0 <= k < pending.len(),
        forall|j: int| 0 <= j < k ==> !invalid_request(nodes, #[trigger] pending[j]),
        invalid_request(nodes, pending[k]),
    ensures
        first_invalid(nodes, pending) == Some(pending[k]),
    decreases k,
{
    if k > 0 {
        lemma_first_invalid_at(nodes, pending.drop_first(), k - 1);
    }
}


/// A poll resolves at most as many objects as were pending.
pub proof fn lemma_ready_batch_len(
    nodes: Seq<Node>,
    meshes: Seq<MeshData>,
    spawner: Seq<SceneInstanceView>,
    pending: Seq<EntityId>,
)
    ensures
        ready_batch(nodes, meshes, spawner, pending).len() <= pending.len(),
    decreases pending.len(),
{
    if pending.len() > 0 {
        lemma_ready_batch_len(nodes, meshes, spawner, pending.drop_last());
    }
}

/// Noting newly marked objects grows the pending set by at most their
/// number.
pub proof fn lemma_insert_all_len(pending: Seq<EntityId>, added: Seq<EntityId>)
    ensures
        insert_all(pending, added).len() <= pending.len() + added.len(),
    decreases added.len(),
{
    if added.len() > 0 {
        lemma_insert_all_len(pending, added.drop_last());
    }
}

/// The set of objects whose pixelation requests await resolution.
#[derive(Debug, Clone)]
pub struct ToPixelate {
    entities: Vec<EntityId>,
}

impl View for ToPixelate {
    type V = Seq<EntityId>;

    closed spec fn view(&self) -> Seq<EntityId> {
        self.entities@
    }
}

/// The pending set after noting the given newly marked objects, in order:
/// each is appended unless already present.
pub open spec fn insert_all(pending: Seq<EntityId>, added: Seq<EntityId>) -> Seq<EntityId>
    decreases added.len(),
{
    if added.len() == 0 {
        pending
    } else {
        let prev = insert_all(pending, added.drop_last());
        if prev.contains(added.last()) {
            prev
        } else {
            prev.push(added.last())
        }
    }
}

/// An object is in the noted set exactly when it was pending before or is
/// among the newly marked ones.
pub proof fn lemma_insert_all_contains(pending: Seq<EntityId>, added: Seq<EntityId>, e: EntityId)
    ensures
        insert_all(pending, added).contains(e) == (pending.contains(e) || added.contains(e)),
    decreases added.len(),
{
    if added.len() > 0 {
        lemma_insert_all_contains(pending, added.drop_last(), e);
        crate::world::lemma_drop_last_contains(added, e);
        let prev = insert_all(pending, added.drop_last());
        if !prev.contains(added.last()) {
            crate::world::lemma_push_contains(prev, added.last(), e);
        }
    }
}

impl ToPixelate {
    /// No object is pending twice.
    pub open spec fn wf(self) -> bool {
        forall|a: int, b: int| 0 <= a < b < self@.len() ==> self@[a] != self@[b]
    }

    /// An empty pending set.
    pub fn new() -> (s: ToPixelate)
        ensures
            s@ =~= Seq::<EntityId>::empty(),
            s.wf(),
    {
        ToPixelate { entities: Vec::new() }
    }

    /// The number of pending objects.
    pub fn len(&self) -> (n: usize)
        ensures
            n == self@.len(),
    {
        self.entities.len()
    }

    /// The pending object at position `k`.
    pub fn get(&self, k: usize) -> (e: EntityId)
        requires
            k < self@.len(),
        ensures
            e == self@[k as int],
    {
        self.entities[k]
    }

    /// Whether object `e` is pending.
    pub fn contains(&self, e: EntityId) -> (r: bool)
        ensures
            r == self@.contains(e),
    {
        let len = self.entities.len();
        let mut i: usize = 0;
        while i < len
            invariant
                len == self@.len(),
                i <= len,
                forall|k: int| 0 <= k < i ==> self@[k] != e,
            decreases len - i,
        {
            if self.entities[i] == e {
                return true;
            }
            i = i + 1;
        }
        false
    }

    /// Notes object `e` as pending, unless it already is.
    pub fn insert(&mut self, e: EntityId)
        requires
            old(self).wf(),
        ensures
            final(self).wf(),
            final(self)@ == (if old(self)@.contains(e) {
                old(self)@
            } else {
                old(self)@.push(e)
            }),
    {
        if !self.contains(e) {
            self.entities.push(e);
        }
    }

    /// Replaces the whole pending set; used by the readiness poll.
    fn replace(&mut self, entities: Vec<EntityId>)
        ensures
            final(self)@ == entities@,
    {
        self.entities = entities;
    }
}

/// Notes every newly marked object in the pending set, skipping those
/// already pending.
pub fn mark_for_pixelation(to_pixelate: &mut ToPixelate, added: &Vec<EntityId>)
    requires
        old(to_pixelate).wf(),
    ensures
        final(to_pixelate).wf(),
        final(to_pixelate)@ == insert_all(old(to_pixelate)@, added@),
{
    let len = added.len();
    let mut i: usize = 0;
    while i < len
        invariant
            to_pixelate.wf(),
            len == added@.len(),
            i <= len,
            to_pixelate@ == insert_all(old(to_pixelate)@, added@.take(i as int)),
        decreases len - i,
    {
        proof {
            assert(added@.take(i as int + 1).drop_last() =~= added@.take(i as int));
        }
        to_pixelate.insert(added[i]);
        i = i + 1;
    }
    proof {
        assert(added@.take(len as int) =~= added@);
    }
}

/// Polls every pending object once and emits the readiness batch of this
/// cycle: all newly resolved targets, in pending order. Resolved objects
/// leave the pending set, as do objects that died or lost their request
/// while pending. A tracked object with neither mesh nor scene is an
/// invalid request: the poll reports the first such object as a fatal
/// configuration error and changes nothing.
pub fn get_ready_pixelation_targets(
    world: &World,
    meshes: &MeshAssets,
    spawner: &SceneSpawner,
    to_pixelate: &mut ToPixelate,
) -> (r: Result<ReadyBatch, PixelationError>)
    requires
        world.wf(),
        old(to_pixelate).wf(),
    ensures
        final(to_pixelate).wf(),
        (r is Err) == (first_invalid(world@, old(to_pixelate)@) is Some),
        r matches Ok(batch) ==> {
            &&& batch@ == ready_batch(world@, meshes@, spawner@, old(to_pixelate)@)
            &&& final(to_pixelate)@ == still_pending(world@, meshes@, spawner@, old(to_pixelate)@)
        },
        r matches Err(err) ==> {
            &&& err matches PixelationError::InvalidRequest { entity: e }
            &&& first_invalid(world@, old(to_pixelate)@) == Some(e)
            &&& final(to_pixelate)@ == old(to_pixelate)@
        },
{
    let ghost pending0 = to_pixelate@;
    let len = to_pixelate.len();
    let mut batch: ReadyBatch = Vec::new();
    let mut keep: Vec<EntityId> = Vec::new();
    let mut i: usize = 0;
    while i < len
        invariant
            world.wf(),
            to_pixelate.wf(),
            pending0 == to_pixelate@,
            len == pending0.len(),
            i <= len,
            batch@ == ready_batch(world@, meshes@, spawner@, pending0.take(i as int)),
            keep@ == still_pending(world@, meshes@, spawner@, pending0.take(i as int)),
            forall|j: int| 0 <= j < i ==> !invalid_request(world@, #[trigger] pending0[j]),
        decreases len - i,
    {
        let e = to_pixelate.get(i);
        proof {
            assert(pending0.take(i as int + 1).drop_last() =~= pending0.take(i as int));
            assert(pending0.take(i as int + 1).last() == pending0[i as int]);
        }
        let mut resolved = false;
        let mut watched = false;
        if e < world.len() {
            let node = world.node(e);
            if node.alive && node.pixelate.is_some() {
                watched = true;
                if node.scene.is_some() {
                    match node.scene_instance {
                        Some(inst) => {
                            if inst < spawner.len() && spawner.instance_is_ready(inst) {
                                match spawner.first_mesh_entity(world, inst) {
                                    Some((_me, m)) => {
                                        batch.push(
                                            (
                                                e,
                                                PixelationTarget {
                                                    mesh_handle: m,
                                                    kind: PixelationTargetKind::Scene,
                                                },
                                            ),
                                        );
                                        resolved = true;
                                    },
                                    None => {},
                                }
                            }
                        },
                        None => {},
                    }
                } else {
                    match node.mesh {
                        Some(m) => {
                            if meshes.loaded_radius(m).is_some() {
                                batch.push(
                                    (
                                        e,
                                        PixelationTarget {
                                            mesh_handle: m,
                                            kind: PixelationTargetKind::Mesh,
                                        },
                                    ),
                                );
                                resolved = true;
                            }
                        },
                        None => {
                            proof {
                                lemma_first_invalid_at(world@, pending0, i as int);
                            }
                            return Err(PixelationError::InvalidRequest { entity: e });
                        },
                    }
                }
            }
        }
        if watched && !resolved {
            keep.push(e);
        }
        i = i + 1;
    }
    proof {
        assert(pending0.take(len as int) =~= pending0);
        lemma_first_invalid_none(world@, pending0);
    }
    to_pixelate.replace(keep);
    proof {
        lemma_still_pending_wf(world@, meshes@, spawner@, pending0);
    }
    Ok(batch)
}

/// A poll keeps the pending set free of duplicates: what stays pending is a
/// subsequence of what was pending.
pub proof fn lemma_still_pending_sub(
    nodes: Seq<Node>,
    meshes: Seq<MeshData>,
    spawner: Seq<SceneInstanceView>,
    pending: Seq<EntityId>,
    e: EntityId,
)
    ensures
        still_pending(nodes, meshes, spawner, pending).contains(e) == (pending.contains(e)
            && tracked_for_pixelation(nodes, e) && !ready_now(nodes, meshes, spawner, e)),
    decreases pending.len(),
{
    if pending.len() > 0 {
        lemma_still_pending_sub(nodes, meshes, spawner, pending.drop_last(), e);
        crate::world::lemma_drop_last_contains(pending, e);
        let rest = still_pending(nodes, meshes, spawner, pending.drop_last());
        if tracked_for_pixelation(nodes, pending.last()) && !ready_now(
            nodes,
            meshes,
            spawner,
            pending.last(),
        ) {
            crate::world::lemma_push_contains(rest, pending.last(), e);
        }
    }
}

/// A poll of a duplicate-free pending set leaves a duplicate-free one.
pub proof fn lemma_still_pending_wf(
    nodes: Seq<Node>,
    meshes: Seq<MeshData>,
    spawner: Seq<SceneInstanceView>,
    pending: Seq<EntityId>,
)
    requires
        forall|a: int, b: int| 0 <= a < b < pending.len() ==> pending[a] != pending[b],
    ensures
        forall|a: int, b: int|
            0 <= a < b < still_pending(nodes, meshes, spawner, pending).len() ==> still_pending(
                nodes,
                meshes,
                spawner,
                pending,
            )[a] != still_pending(nodes, meshes, spawner, pending)[b],
    decreases pending.len(),
{
    if pending.len() > 0 {
        let prev = still_pending(nodes, meshes, spawner, pending.drop_last());
        lemma_still_pending_wf(nodes, meshes, spawner, pending.drop_last());
        let cur = still_pending(nodes, meshes, spawner, pending);
        if cur != prev {
            assert forall|a: int| 0 <= a < prev.len() implies prev[a] != pending.last() by {
                lemma_still_pending_sub(
                    nodes,
                    meshes,
                    spawner,
                    pending.drop_last(),
                    prev[a],
                );
                let k = choose|k: int|
                    0 <= k < pending.drop_last().len() && pending.drop_last()[k] == prev[a];
                assert(pending[k] == prev[a]);
            }
        }
    }
}

/// Every batch entry is a pending object that resolved in this poll, with
/// its target; and every pending object that resolved has its entry.
pub proof fn lemma_ready_batch_membership(
    nodes: Seq<Node>,
    meshes: Seq<MeshData>,
    spawner: Seq<SceneInstanceView>,
    pending: Seq<EntityId>,
    e: EntityId,
)
    ensures
        ready_batch(nodes, meshes, spawner, pending).contains(
            (e, target_of(nodes, spawner, e)),
        ) == (pending.contains(e) && ready_now(nodes, meshes, spawner, e)),
        forall|k: int|
            0 <= k < ready_batch(nodes, meshes, spawner, pending).len() ==> {
                let entry = #[trigger] ready_batch(nodes, meshes, spawner, pending)[k];
                &&& pending.contains(entry.0)
                &&& ready_now(nodes, meshes, spawner, entry.0)
                &&& entry.1 == target_of(nodes, spawner, entry.0)
            },
    decreases pending.len(),
{
    if pending.len() > 0 {
        lemma_ready_batch_membership(nodes, meshes, spawner, pending.drop_last(), e);
        crate::world::lemma_drop_last_contains(pending, e);
        let prev = ready_batch(nodes, meshes, spawner, pending.drop_last());
        let cur = ready_batch(nodes, meshes, spawner, pending);
        if ready_now(nodes, meshes, spawner, pending.last()) {
            crate::world::lemma_push_contains(
                prev,
                (pending.last(), target_of(nodes, spawner, pending.last())),
                (e, target_of(nodes, spawner, e)),
            );
        }
        assert forall|k: int| 0 <= k < cur.len() implies {
            let entry = #[trigger] cur[k];
            &&& pending.contains(entry.0)
            &&& ready_now(nodes, meshes, spawner, entry.0)
            &&& entry.1 == target_of(nodes, spawner, entry.0)
        } by {
            if k < prev.len() {
                assert(cur[k] == prev[k]);
                crate::world::lemma_drop_last_contains(pending, prev[k].0);
            } else {
                assert(pending[pending.len() - 1] == pending.last());
            }
        }
    }
}

/// An object whose mesh is already confirmed loaded resolves in the very
/// next poll: one cycle after the request appears in the pending set, the
/// emitted batch carries it and it leaves the set.
pub proof fn lemma_loaded_mesh_resolves_in_one_cycle(
    nodes: Seq<Node>,
    meshes: Seq<MeshData>,
    spawner: Seq<SceneInstanceView>,
    pending: Seq<EntityId>,
    e: EntityId,
)
    requires
        pending.contains(e),
        tracked_for_pixelation(nodes, e),
        nodes[e as int].scene is None,
        nodes[e as int].mesh matches Some(m) && radius_of(meshes, m) is Some,
    ensures
        ready_batch(nodes, meshes, spawner, pending).contains(
            (
                e,
                PixelationTarget {
                    mesh_handle: nodes[e as int].mesh.unwrap(),
                    kind: PixelationTargetKind::Mesh,
                },
            ),
        ),
        !still_pending(nodes, meshes, spawner, pending).contains(e),
{
    lemma_ready_batch_membership(nodes, meshes, spawner, pending, e);
    lemma_still_pending_sub(nodes, meshes, spawner, pending, e);
}

/// A scene-backed object resolves in no poll before its sub-scene instance
/// reports fully spawned with a live mesh-bearing object in it: until then
/// no batch carries it and it stays pending.
pub proof fn lemma_scene_waits_for_instance(
    nodes: Seq<Node>,
    meshes: Seq<MeshData>,
    spawner: Seq<SceneInstanceView>,
    pending: Seq<EntityId>,
    e: EntityId,
)
    requires
        pending.contains(e),
        tracked_for_pixelation(nodes, e),
        nodes[e as int].scene is Some,
        !scene_ready(nodes, spawner, e),
    ensures
        forall|k: int|
            0 <= k < ready_batch(nodes, meshes, spawner, pending).len() ==> (
            #[trigger] ready_batch(nodes, meshes, spawner, pending)[k]).0 != e,
        still_pending(nodes, meshes, spawner, pending).contains(e),
{
    lemma_ready_batch_membership(nodes, meshes, spawner, pending, e);
    lemma_still_pending_sub(nodes, meshes, spawner, pending, e);
    assert forall|k: int|
        0 <= k < ready_batch(nodes, meshes, spawner, pending).len() implies (
    #[trigger] ready_batch(nodes, meshes, spawner, pending)[k]).0 != e by {
        if ready_batch(nodes, meshes, spawner, pending)[k].0 == e {
            assert(ready_now(nodes, meshes, spawner, e));
        }
    }
}

} // verus!
