//! Shadow duplication: invisible geometry clones that keep the main scene's
//! shadows correct.
//!
//! Once a source is resolved, its true geometry leaves the main camera's
//! layer and would stop casting shadows. For a mesh target the whole
//! descendant hierarchy is cloned under a fresh child of the source, every
//! mesh-bearing clone getting the constant shadow-only material. For a scene
//! target the same scene asset is instantiated a second time as a child of
//! the source, and the material replacement waits, in a pending set of its
//! own, until that duplicate instance reports fully spawned.

use vstd::prelude::*;

use crate::assets::{AlphaMode, AssetId, InstanceId, MaterialAssets, MaterialData,
    SceneInstanceView, SceneSpawner};
use crate::ready_checks::{PixelationTarget, PixelationTargetKind, ReadyBatch};
use crate::recursive_layering::tag_instance_entities;
use crate::world::{has_ancestor, in_subtree, node_wf, EntityId, Node, World};

verus! {

/// The shadow-only material: fully transparent base color, unlit, masked at
/// the full threshold, so it never reaches the color output yet still
/// rasterizes into shadow maps.
pub open spec fn shadow_material_data() -> MaterialData {
    MaterialData {
        base_color_texture: None,
        base_color_transparent: true,
        unlit: true,
        alpha_mode: AlphaMode::MaskFull,
    }
}

/// Creates the constant shadow-only material, once, as the pipeline starts.
pub fn create_shadow_material(materials: &mut MaterialAssets) -> (id: AssetId)
    ensures
        id == old(materials)@.len(),
        final(materials)@ == old(materials)@.push(shadow_material_data()),
{
    materials.add(
        MaterialData {
            base_color_texture: None,
            base_color_transparent: true,
            unlit: true,
            alpha_mode: AlphaMode::MaskFull,
        },
    )
}

/// The duplicate sub-scene instances whose material replacement still waits
/// for the host to finish spawning them.
#[derive(Debug, Clone)]
pub struct SetSceneShadow {
    instances: Vec<InstanceId>,
}

impl View for SetSceneShadow {
    type V = Seq<InstanceId>;

    closed spec fn view(&self) -> Seq<InstanceId> {
        self.instances@
    }
}

impl SetSceneShadow {
    /// An empty pending set.
    pub fn new() -> (s: SetSceneShadow)
        ensures
            s@ =~= Seq::<InstanceId>::empty(),
    {
        SetSceneShadow { instances: Vec::new() }
    }

    /// The number of duplicate instances still waiting.
    pub fn len(&self) -> (n: usize)
        ensures
            n == self@.len(),
    {
        self.instances.len()
    }

    /// The waiting instance at position `k`.
    pub fn get(&self, k: usize) -> (id: InstanceId)
        requires
            k < self@.len(),
        ensures
            id == self@[k as int],
    {
        self.instances[k]
    }

    /// Notes a freshly spawned duplicate instance as waiting.
    fn push_id(&mut self, id: InstanceId)
        ensures
            final(self)@ == old(self)@.push(id),
    {
        self.instances.push(id);
    }

    /// Replaces the whole pending set; used when ready instances leave.
    fn replace(&mut self, instances: Vec<InstanceId>)
        ensures
            final(self)@ == instances@,
    {
        self.instances = instances;
    }
}

/// An ancestor is always an earlier index than its descendant.
pub proof fn lemma_ancestor_smaller(nodes: Seq<Node>, e: int, anc: int)
    requires
        has_ancestor(nodes, e, anc),
    ensures
        anc < e,
    decreases e,
{
    match nodes[e].parent {
        Option::None => {},
        Option::Some(p) => {
            if (p as int) != anc {
                lemma_ancestor_smaller(nodes, p as int, anc);
            }
        },
    }
}

/// How many members the subtree of `root` has among the indices below
/// `upto` (no member lies below `root` itself).
pub open spec fn subtree_count(nodes: Seq<Node>, root: EntityId, upto: int) -> nat
    decreases upto,
{
    if upto <= root {
        0
    } else {
        subtree_count(nodes, root, upto - 1) + if in_subtree(nodes, upto - 1, root as int) {
            1nat
        } else {
            0nat
        }
    }
}

/// The clone of subtree member `i`: a fresh object under the clone of `i`'s
/// parent (or under the shadow root at index `root_id`, for the source
/// itself), carrying `i`'s mesh with the shadow-only material if `i` bears
/// one, and nothing else.
pub open spec fn clone_node(
    nodes: Seq<Node>,
    root: EntityId,
    root_id: int,
    mat: AssetId,
    i: int,
) -> Node {
    let parent_clone = if i == root {
        root_id
    } else {
        root_id + 1 + subtree_count(nodes, root, nodes[i].parent.unwrap() as int)
    };
    Node {
        mesh: nodes[i].mesh,
        material: if nodes[i].mesh is Some {
            Some(mat)
        } else {
            None
        },
        ..Node::blank_spec(Some(parent_clone as usize))
    }
}

/// The clones of the subtree members below `upto`, in index order.
pub open spec fn shadow_clones(
    nodes: Seq<Node>,
    root: EntityId,
    root_id: int,
    mat: AssetId,
    upto: int,
) -> Seq<Node>
    decreases upto,
{
    if upto <= root {
        Seq::empty()
    } else {
        shadow_clones(nodes, root, root_id, mat, upto - 1) + if in_subtree(
            nodes,
            upto - 1,
            root as int,
        ) {
            seq![clone_node(nodes, root, root_id, mat, upto - 1)]
        } else {
            Seq::empty()
        }
    }
}

/// Subtree membership counts grow with the scanned range.
pub proof fn lemma_subtree_count_mono(nodes: Seq<Node>, root: EntityId, a: int, b: int)
    requires
        a <= b,
    ensures
        subtree_count(nodes, root, a) <= subtree_count(nodes, root, b),
    decreases b,
{
    if a < b && b > root {
        lemma_subtree_count_mono(nodes, root, a, b - 1);
    }
}

/// There are as many clones as subtree members.
pub proof fn lemma_shadow_clones_len(
    nodes: Seq<Node>,
    root: EntityId,
    root_id: int,
    mat: AssetId,
    upto: int,
)
    ensures
        shadow_clones(nodes, root, root_id, mat, upto).len() == subtree_count(nodes, root, upto),
    decreases upto,
{
    if upto > root {
        lemma_shadow_clones_len(nodes, root, root_id, mat, upto - 1);
    }
}

/// The world after duplicating the subtree of `e` for shadows: the old
/// objects, then the fresh shadow root under `e`, then the clones of the
/// subtree members in index order.
pub open spec fn shadow_for_mesh(nodes: Seq<Node>, e: EntityId, mat: AssetId) -> Seq<Node> {
    nodes + seq![Node::blank_spec(Some(e))] + shadow_clones(
        nodes,
        e,
        nodes.len() as int,
        mat,
        nodes.len() as int,
    )
}

/// Clones the whole subtree of `e` under a fresh shadow-root child of `e`:
/// structure is preserved clone for clone, every mesh-bearing member's
/// clone carries its mesh with the shadow-only material, and every other
/// clone is bare.
pub fn duplicate_children(world: &mut World, e: EntityId, shadow_material: AssetId)
    requires
        old(world).wf(),
        e < old(world)@.len(),
    ensures
        final(world).wf(),
        final(world)@ == shadow_for_mesh(old(world)@, e, shadow_material),
{
    let ghost nodes0 = world@;
    let len0 = world.len();
    let marks = world.subtree_marks(e);
    let root_id = world.spawn_node(Node::blank(Some(e)));
    let mut clone_map: Vec<EntityId> = Vec::new();
    let mut f: usize = 0;
    while f < len0
        invariant
            f <= len0,
            clone_map@.len() == f,
        decreases len0 - f,
    {
        clone_map.push(0);
        f = f + 1;
    }
    proof {
        assert(world@ =~= nodes0 + seq![Node::blank_spec(Some(e))] + shadow_clones(
            nodes0,
            e,
            len0 as int,
            shadow_material,
            e as int,
        ));
    }
    let mut i: usize = e;
    while i < len0
        invariant
            world.wf(),
            e < len0,
            len0 == nodes0.len(),
            root_id == len0,
            e <= i <= len0,
            marks@.len() == len0,
            forall|x: int| 0 <= x < len0 ==> marks@[x] == in_subtree(nodes0, x, e as int),
            clone_map@.len() == len0,
            world@ == nodes0 + seq![Node::blank_spec(Some(e))] + shadow_clones(
                nodes0,
                e,
                len0 as int,
                shadow_material,
                i as int,
            ),
            world@.len() == len0 + 1 + subtree_count(nodes0, e, i as int),
            forall|s: int|
                e <= s < i && in_subtree(nodes0, s, e as int) ==> clone_map@[s] == len0 + 1
                    + subtree_count(nodes0, e, s),
        decreases len0 - i,
    {
        proof {
            lemma_shadow_clones_len(nodes0, e, len0 as int, shadow_material, i as int);
        }
        if marks[i] {
            let parent_clone = if i == e {
                root_id
            } else {
                proof {
                    assert(world@[i as int] == nodes0[i as int]);
                    assert(has_ancestor(nodes0, i as int, e as int));
                }
                let p = world.node(i).parent.unwrap();
                proof {
                    assert(p == nodes0[i as int].parent.unwrap());
                    assert(in_subtree(nodes0, p as int, e as int));
                    if p != e {
                        lemma_ancestor_smaller(nodes0, p as int, e as int);
                    }
                    assert(node_wf(world@[i as int], i as int));
                    assert(p < i);
                    assert(clone_map@[p as int] == len0 + 1 + subtree_count(nodes0, e, p as int));
                    lemma_subtree_count_mono(nodes0, e, p as int + 1, i as int);
                    assert(subtree_count(nodes0, e, p as int + 1) == subtree_count(
                        nodes0,
                        e,
                        p as int,
                    ) + 1);
                }
                clone_map[p]
            };
            proof {
                assert(world@[i as int] == nodes0[i as int]);
            }
            let src_mesh = world.node(i).mesh;
            let mut clone = Node::blank(Some(parent_clone));
            clone.mesh = src_mesh;
            if src_mesh.is_some() {
                clone.material = Some(shadow_material);
            }
            let cid = world.spawn_node(clone);
            clone_map.set(i, cid);
            proof {
                assert(clone == clone_node(nodes0, e, len0 as int, shadow_material, i as int));
                assert(shadow_clones(nodes0, e, len0 as int, shadow_material, i as int + 1)
                    =~= shadow_clones(nodes0, e, len0 as int, shadow_material, i as int).push(
                    clone_node(nodes0, e, len0 as int, shadow_material, i as int),
                ));
                assert(world@ =~= nodes0 + seq![Node::blank_spec(Some(e))] + shadow_clones(
                    nodes0,
                    e,
                    len0 as int,
                    shadow_material,
                    i as int + 1,
                ));
            }
        } else {
            proof {
                assert(shadow_clones(nodes0, e, len0 as int, shadow_material, i as int + 1)
                    =~= shadow_clones(nodes0, e, len0 as int, shadow_material, i as int));
            }
        }
        i = i + 1;
    }
}

/// Everything shadow duplication touches, gathered for its contract: the
/// scene world, the spawner, and the set of duplicate instances still
/// waiting for their material.
pub struct ShadowState {
    /// The scene world.
    pub nodes: Seq<Node>,
    /// The sub-scene instances requested so far.
    pub instances: Seq<SceneInstanceView>,
    /// The duplicate instances whose material replacement still waits.
    pub pending: Seq<InstanceId>,
}

/// What shadow duplication does for one resolved target: a mesh target's
/// subtree is cloned at once; a scene target's scene is instantiated a
/// second time as a child of the source, and the fresh instance joins the
/// waiting set.
pub open spec fn shadow_one(
    state: ShadowState,
    mat: AssetId,
    entry: (EntityId, PixelationTarget),
) -> ShadowState {
    let e = entry.0;
    match entry.1.kind {
        PixelationTargetKind::Mesh => {
            if e < state.nodes.len() {
                ShadowState { nodes: shadow_for_mesh(state.nodes, e, mat), ..state }
            } else {
                state
            }
        },
        PixelationTargetKind::Scene => {
            if e < state.nodes.len() && state.nodes[e as int].scene is Some {
                ShadowState {
                    instances: state.instances.push(
                        SceneInstanceView {
                            scene: state.nodes[e as int].scene.unwrap(),
                            parent: Some(e),
                            ready: false,
                            entities: Seq::empty(),
                        },
                    ),
                    pending: state.pending.push(state.instances.len() as usize),
                    ..state
                }
            } else {
                state
            }
        },
    }
}

/// The state after shadow duplication for a whole batch, in batch order.
pub open spec fn shadow_batch(
    state: ShadowState,
    mat: AssetId,
    batch: Seq<(EntityId, PixelationTarget)>,
) -> ShadowState
    decreases batch.len(),
{
    if batch.len() == 0 {
        state
    } else {
        shadow_one(shadow_batch(state, mat, batch.drop_last()), mat, batch.last())
    }
}

/// Builds the shadow duplicate of every target of one readiness batch: a
/// mesh target's subtree is cloned at once under a fresh child of the
/// source; a scene target's scene asset is instantiated a second time as a
/// child of the source, the fresh instance joining the waiting set for
/// deferred material replacement.
pub fn add_shadow_caster(
    world: &mut World,
    spawner: &mut SceneSpawner,
    set_scene_shadow: &mut SetSceneShadow,
    shadow_material: AssetId,
    batch: &ReadyBatch,
)
    requires
        old(world).wf(),
    ensures
        final(world).wf(),
        ({
            let done = shadow_batch(
                ShadowState {
                    nodes: old(world)@,
                    instances: old(spawner)@,
                    pending: old(set_scene_shadow)@,
                },
                shadow_material,
                batch@,
            );
            &&& final(world)@ == done.nodes
            &&& final(spawner)@ == done.instances
            &&& final(set_scene_shadow)@ == done.pending
        }),
{
    let ghost start = ShadowState {
        nodes: old(world)@,
        instances: old(spawner)@,
        pending: old(set_scene_shadow)@,
    };
    let n = batch.len();
    let mut k: usize = 0;
    while k < n
        invariant
            world.wf(),
            n == batch@.len(),
            k <= n,
            shadow_batch(start, shadow_material, batch@.take(k as int)) == (ShadowState {
                nodes: world@,
                instances: spawner@,
                pending: set_scene_shadow@,
            }),
        decreases n - k,
    {
        proof {
            assert(batch@.take(k as int + 1).drop_last() =~= batch@.take(k as int));
            assert(batch@.take(k as int + 1).last() == batch@[k as int]);
        }
        let ghost prev = ShadowState { nodes: world@, instances: spawner@, pending: set_scene_shadow@ };
        let entry = batch[k];
        let e = entry.0;
        match entry.1.kind {
            PixelationTargetKind::Mesh => {
                if e < world.len() {
                    duplicate_children(world, e, shadow_material);
                }
            },
            PixelationTargetKind::Scene => {
                if e < world.len() {
                    match world.node(e).scene {
                        Some(sc) => {
                            let inst = spawner.spawn(sc, Some(e));
                            set_scene_shadow.push_id(inst);
                        },
                        None => {},
                    }
                }
            },
        }
        proof {
            assert(shadow_batch(start, shadow_material, batch@.take(k as int + 1))
                == (ShadowState {
                nodes: world@,
                instances: spawner@,
                pending: set_scene_shadow@,
            }));
        }
        k = k + 1;
    }
    proof {
        assert(batch@.take(n as int) =~= batch@);
    }
}

/// The node as it stands after receiving the shadow-only material: it keeps
/// its geometry, stops receiving shadows, and stops showing color.
pub open spec fn shadow_applied(n: Node, mat: AssetId) -> Node {
    Node { material: Some(mat), not_shadow_receiver: true, ..n }
}

/// Whether waiting instance `id` applies the shadow material to object `x`:
/// the instance is known and ready, and `x` is one of its live mesh-bearing
/// objects.
pub open spec fn pending_applies(
    nodes: Seq<Node>,
    instances: Seq<SceneInstanceView>,
    id: InstanceId,
    x: int,
) -> bool {
    &&& id < instances.len()
    &&& instances[id as int].ready
    &&& 0 <= x < nodes.len()
    &&& nodes[x].alive
    &&& nodes[x].mesh is Some
    &&& instances[id as int].entities.contains(x as usize)
}

/// Whether some waiting instance applies the shadow material to object `x`.
pub open spec fn scene_shadow_due(
    nodes: Seq<Node>,
    instances: Seq<SceneInstanceView>,
    pending: Seq<InstanceId>,
    x: int,
) -> bool {
    exists|k: int| 0 <= k < pending.len() && pending_applies(nodes, instances, #[trigger] pending[k], x)
}

/// The waiting set after one pass: the instances the host has not finished
/// spawning yet, in their previous order.
pub open spec fn still_shadow_pending(
    instances: Seq<SceneInstanceView>,
    pending: Seq<InstanceId>,
) -> Seq<InstanceId>
    decreases pending.len(),
{
    if pending.len() == 0 {
        Seq::empty()
    } else {
        let rest = still_shadow_pending(instances, pending.drop_last());
        if pending.last() < instances.len() && instances[pending.last() as int].ready {
            rest
        } else {
            rest.push(pending.last())
        }
    }
}


/// The world after one material-replacement pass over the waiting
/// duplicate instances.
pub open spec fn scene_shadowed(
    nodes: Seq<Node>,
    instances: Seq<SceneInstanceView>,
    pending: Seq<InstanceId>,
    mat: AssetId,
) -> Seq<Node> {
    Seq::new(
        nodes.len(),
        |x: int|
            if scene_shadow_due(nodes, instances, pending, x) {
                shadow_applied(nodes[x], mat)
            } else {
                nodes[x]
            },
    )
}

/// Polls the waiting duplicate instances once: each instance the host now
/// reports fully spawned leaves the waiting set, and every live
/// mesh-bearing object of it receives the shadow-only material and stops
/// receiving shadows.
pub fn set_scene_shadow(
    world: &mut World,
    spawner: &SceneSpawner,
    shadow_material: AssetId,
    pending: &mut SetSceneShadow,
)
    requires
        old(world).wf(),
    ensures
        final(world).wf(),
        final(pending)@ == still_shadow_pending(spawner@, old(pending)@),
        final(world)@.len() == old(world)@.len(),
        forall|x: int|
            0 <= x < old(world)@.len() ==> final(world)@[x] == (if scene_shadow_due(
                old(world)@,
                spawner@,
                old(pending)@,
                x,
            ) {
                shadow_applied(old(world)@[x], shadow_material)
            } else {
                old(world)@[x]
            }),
{
    let ghost nodes0 = world@;
    let ghost pending0 = pending@;
    let len = world.len();
    let mut marks: Vec<bool> = Vec::new();
    let mut f: usize = 0;
    while f < len
        invariant
            f <= len,
            marks@.len() == f,
            forall|j: int| 0 <= j < f ==> !marks@[j],
        decreases len - f,
    {
        marks.push(false);
        f = f + 1;
    }
    let m = pending.len();
    let mut keep: Vec<InstanceId> = Vec::new();
    let mut k: usize = 0;
    while k < m
        invariant
            world.wf(),
            world@ == nodes0,
            len == nodes0.len(),
            pending0 == pending@,
            m == pending0.len(),
            k <= m,
            marks@.len() == len,
            keep@ == still_shadow_pending(spawner@, pending0.take(k as int)),
            forall|x: int|
                0 <= x < len ==> marks@[x] == scene_shadow_due(
                    nodes0,
                    spawner@,
                    pending0.take(k as int),
                    x,
                ),
        decreases m - k,
    {
        let ghost marks_before = marks@;
        let id = pending.get(k);
        proof {
            assert(pending0.take(k as int + 1).drop_last() =~= pending0.take(k as int));
            assert(pending0.take(k as int + 1).last() == pending0[k as int]);
        }
        let mut applies = false;
        if id < spawner.len() {
            if spawner.instance_is_ready(id) {
                applies = true;
                tag_instance_entities(world, spawner, id, &mut marks);
            }
        }
        if !applies {
            keep.push(id);
        }
        proof {
            assert forall|x: int| 0 <= x < len implies marks@[x] == scene_shadow_due(
                nodes0,
                spawner@,
                pending0.take(k as int + 1),
                x,
            ) by {
                let shorter = pending0.take(k as int);
                let longer = pending0.take(k as int + 1);
                if marks@[x] {
                    if marks_before[x] {
                        let w = choose|w: int|
                            0 <= w < shorter.len() && pending_applies(
                                nodes0,
                                spawner@,
                                #[trigger] shorter[w],
                                x,
                            );
                        assert(pending_applies(nodes0, spawner@, longer[w], x));
                    } else {
                        assert(pending_applies(nodes0, spawner@, longer[k as int], x));
                    }
                } else {
                    if scene_shadow_due(nodes0, spawner@, longer, x) {
                        let w = choose|w: int|
                            0 <= w < longer.len() && pending_applies(
                                nodes0,
                                spawner@,
                                #[trigger] longer[w],
                                x,
                            );
                        if w < k {
                            assert(pending_applies(nodes0, spawner@, shorter[w], x));
                        }
                    }
                }
            }
        }
        k = k + 1;
    }
    proof {
        assert(pending0.take(m as int) =~= pending0);
    }
    pending.replace(keep);
    let mut x: usize = 0;
    while x < len
        invariant
            world.wf(),
            world@.len() == len == nodes0.len(),
            x <= len,
            marks@.len() == len,
            forall|j: int|
                0 <= j < len ==> marks@[j] == scene_shadow_due(nodes0, spawner@, pending0, j),
            forall|j: int|
                0 <= j < x ==> world@[j] == (if marks@[j] {
                    shadow_applied(nodes0[j], shadow_material)
                } else {
                    nodes0[j]
                }),
            forall|j: int| x <= j < len ==> world@[j] == nodes0[j],
        decreases len - x,
    {
        if marks[x] {
            world.apply_shadow_material(x, shadow_material);
        }
        x = x + 1;
    }
}

} // verus!
