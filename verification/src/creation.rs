//! Rig building: turning one readiness batch into auxiliary cameras and
//! canvases.
//!
//! For each resolved target the builder allocates an off-screen buffer at
//! the requested resolution, a square canvas quad sized to the source's
//! bounding sphere, and a material sampling the buffer; spawns the auxiliary
//! camera (rendering before the main pass at a fresh, strictly decreasing
//! order) and the canvas with its quad-bearing child; and tags the source
//! object with the private visibility layer, caching its bounding radius.

use vstd::prelude::*;

use crate::assets::{radius_of, AlphaMode, AssetId, ImageAssets, ImageData, MaterialAssets,
    MaterialData, MeshAssets, MeshData};
use crate::ready_checks::{tracked_for_pixelation, PixelationTarget, ReadyBatch};
use crate::world::{CameraSettings, EntityId, Node, World};
use crate::{Pixelate, PixelationError};

verus! {

/// The source of strictly decreasing compositing orders. Every auxiliary
/// camera renders before the main pass (order below zero) and no two ever
/// share an order.
#[derive(Debug, Clone)]
pub struct CameraOrdering {
    /// The order most recently handed out; zero before the first.
    pub last_order: i64,
}

impl CameraOrdering {
    /// The counter as the pipeline starts.
    pub fn new() -> (c: CameraOrdering)
        ensures
            c.last_order == 0,
    {
        CameraOrdering { last_order: 0 }
    }

    /// Hands out the next compositing order, strictly below every earlier
    /// one.
    pub fn next(&mut self) -> (order: i64)
        requires
            old(self).last_order > i64::MIN,
        ensures
            order == old(self).last_order - 1,
            final(self).last_order == order,
    {
        self.last_order = self.last_order - 1;
        self.last_order
    }
}

/// The canvas material: it samples the off-screen buffer, is alpha blended,
/// and skips main-scene lighting so lighting does not apply twice.
pub open spec fn canvas_material_data(image: AssetId) -> MaterialData {
    MaterialData {
        base_color_texture: Some(image),
        base_color_transparent: false,
        unlit: true,
        alpha_mode: AlphaMode::Blend,
    }
}

/// Creates the canvas material sampling the given off-screen buffer.
pub fn create_canvas_material(materials: &mut MaterialAssets, image: AssetId) -> (id: AssetId)
    ensures
        id == old(materials)@.len(),
        final(materials)@ == old(materials)@.push(canvas_material_data(image)),
{
    materials.add(
        MaterialData {
            base_color_texture: Some(image),
            base_color_transparent: false,
            unlit: true,
            alpha_mode: AlphaMode::Blend,
        },
    )
}

/// Allocates the off-screen buffer at the requested resolution.
pub fn create_canvas_image(images: &mut ImageAssets, pixelate: Pixelate) -> (id: AssetId)
    ensures
        id == old(images)@.len(),
        final(images)@ == old(images)@.push(
            ImageData { width: pixelate.horizontal_pixels, height: pixelate.vertical_pixels },
        ),
{
    images.add(ImageData { width: pixelate.horizontal_pixels, height: pixelate.vertical_pixels })
}

/// Creates the canvas quad: a square of twice the source's bounding-sphere
/// radius, so the whole sphere projects inside it.
pub fn create_canvas_mesh(meshes: &mut MeshAssets, radius: u32) -> (id: AssetId)
    ensures
        id == old(meshes)@.len(),
        final(meshes)@ == old(meshes)@.push(MeshData::Quad { size: (radius * 2) as u64 }),
{
    meshes.add_quad((radius as u64) * 2)
}

/// Every batch entry names a live object that still carries its pixelation
/// request.
pub open spec fn batch_wf(nodes: Seq<Node>, batch: Seq<(EntityId, PixelationTarget)>) -> bool {
    forall|k: int|
        0 <= k < batch.len() ==> tracked_for_pixelation(nodes, (#[trigger] batch[k]).0)
}

/// The first batch entry whose mesh is missing from the asset store, if
/// any; the readiness contract rules this out, so finding one is fatal.
pub open spec fn first_missing_mesh(
    meshes: Seq<MeshData>,
    batch: Seq<(EntityId, PixelationTarget)>,
) -> Option<(EntityId, AssetId)>
    decreases batch.len(),
{
    if batch.len() == 0 {
        None
    } else if radius_of(meshes, batch[0].1.mesh_handle) is None {
        Some((batch[0].0, batch[0].1.mesh_handle))
    } else {
        first_missing_mesh(meshes, batch.drop_first())
    }
}

/// A batch whose every mesh resolves has no missing one.
pub proof fn lemma_first_missing_none(
    meshes: Seq<MeshData>,
    batch: Seq<(EntityId, PixelationTarget)>,
)
    requires
        forall|j: int|
            0 <= j < batch.len() ==> radius_of(meshes, (#[trigger] batch[j]).1.mesh_handle)
                is Some,
    ensures
        first_missing_mesh(meshes, batch) is None,
    decreases batch.len(),
{
    if batch.len() > 0 {
        lemma_first_missing_none(meshes, batch.drop_first());
    }
}

/// If every mesh before position `k` resolves and the one at `k` does not,
/// that one is the first missing mesh.
pub proof fn lemma_first_missing_at(
    meshes: Seq<MeshData>,
    batch: Seq<(EntityId, PixelationTarget)>,
    k: int,
)
    requires
        0 <= k < batch.len(),
        forall|j: int|
            0 <= j < k ==> radius_of(meshes, (#[trigger] batch[j]).1.mesh_handle) is Some,
        radius_of(meshes, batch[k].1.mesh_handle) is None,
    ensures
        first_missing_mesh(meshes, batch) == Some((batch[k].0, batch[k].1.mesh_handle)),
    decreases k,
{
    if k > 0 {
        lemma_first_missing_at(meshes, batch.drop_first(), k - 1);
    }
}

/// Everything the rig builder touches, gathered for its contract: the scene
/// world, the three asset stores, and the ordering counter.
pub struct BuildState {
    /// The scene world.
    pub nodes: Seq<Node>,
    /// The mesh store.
    pub meshes: Seq<MeshData>,
    /// The off-screen buffers.
    pub images: Seq<ImageData>,
    /// The materials.
    pub materials: Seq<MaterialData>,
    /// The order most recently handed out.
    pub last_order: int,
}

/// What building one rig does: allocate quad, buffer, and material; spawn
/// the camera (order one below the last) and the canvas with its
/// quad-bearing child; and tag the source with the layer and its radius.
pub open spec fn build_one(state: BuildState, entry: (EntityId, PixelationTarget)) -> BuildState {
    let e = entry.0;
    let radius = radius_of(state.meshes, entry.1.mesh_handle).unwrap();
    let px = state.nodes[e as int].pixelate.unwrap();
    let quad_id = state.meshes.len() as usize;
    let image_id = state.images.len() as usize;
    let material_id = state.materials.len() as usize;
    let canvas_id = (state.nodes.len() + 1) as usize;
    let camera_node = Node {
        camera: Some(CameraSettings { order: (state.last_order - 1) as i64, image: image_id }),
        camera_target: Some(e),
        pixelation_layer: true,
        ..Node::blank_spec(None)
    };
    let canvas_node = Node { canvas_target: Some(e), ..Node::blank_spec(None) };
    let canvas_mesh_node = Node {
        mesh: Some(quad_id),
        material: Some(material_id),
        rotated_half_turn: true,
        not_shadow_caster: true,
        not_shadow_receiver: true,
        ..Node::blank_spec(Some(canvas_id))
    };
    BuildState {
        nodes: state.nodes.update(
            e as int,
            Node { pixelation_layer: true, cached_radius: Some(radius), ..state.nodes[e as int] },
        ) + seq![camera_node, canvas_node, canvas_mesh_node],
        meshes: state.meshes.push(MeshData::Quad { size: (radius * 2) as u64 }),
        images: state.images.push(
            ImageData { width: px.horizontal_pixels, height: px.vertical_pixels },
        ),
        materials: state.materials.push(canvas_material_data(image_id)),
        last_order: state.last_order - 1,
    }
}

/// The state after building rigs for a whole batch, in batch order.
pub open spec fn built_state(state: BuildState, batch: Seq<(EntityId, PixelationTarget)>)
    -> BuildState
    decreases batch.len(),
{
    if batch.len() == 0 {
        state
    } else {
        build_one(built_state(state, batch.drop_last()), batch.last())
    }
}

/// Builds the rig of every target of one readiness batch: per target, one
/// auxiliary camera at a fresh strictly decreasing order, one canvas with a
/// quad-bearing child sampling a fresh off-screen buffer at the requested
/// resolution, and the source tagged with the private layer and its cached
/// bounding radius. A target whose mesh is missing from the store is an
/// invariant violation: the builder reports the first such target as fatal
/// and changes nothing.
pub fn add_pixelation(
    world: &mut World,
    meshes: &mut MeshAssets,
    images: &mut ImageAssets,
    materials: &mut MaterialAssets,
    ordering: &mut CameraOrdering,
    batch: &ReadyBatch,
) -> (r: Result<(), PixelationError>)
    requires
        old(world).wf(),
        batch_wf(old(world)@, batch@),
        old(ordering).last_order as int - batch@.len() >= i64::MIN as int,
    ensures
        final(world).wf(),
        (r is Err) == (first_missing_mesh(old(meshes)@, batch@) is Some),
        r matches Err(err) ==> {
            &&& err matches PixelationError::MissingMesh { entity, mesh }
            &&& first_missing_mesh(old(meshes)@, batch@) == Some((entity, mesh))
            &&& final(world)@ == old(world)@
            &&& final(meshes)@ == old(meshes)@
            &&& final(images)@ == old(images)@
            &&& final(materials)@ == old(materials)@
            &&& final(ordering).last_order == old(ordering).last_order
        },
        r is Ok ==> {
            let built = built_state(
                BuildState {
                    nodes: old(world)@,
                    meshes: old(meshes)@,
                    images: old(images)@,
                    materials: old(materials)@,
                    last_order: old(ordering).last_order as int,
                },
                batch@,
            );
            &&& final(world)@ == built.nodes
            &&& final(meshes)@ == built.meshes
            &&& final(images)@ == built.images
            &&& final(materials)@ == built.materials
            &&& final(ordering).last_order as int == built.last_order
        },
{
    let ghost start = BuildState {
        nodes: old(world)@,
        meshes: old(meshes)@,
        images: old(images)@,
        materials: old(materials)@,
        last_order: old(ordering).last_order as int,
    };
    let n = batch.len();
    let mut k: usize = 0;
    while k < n
        invariant
            n == batch@.len(),
            k <= n,
            world.wf(),
            world@ == old(world)@,
            meshes@ == old(meshes)@,
            images@ == old(images)@,
            materials@ == old(materials)@,
            ordering.last_order == old(ordering).last_order,
            meshes@ == start.meshes,
            forall|j: int|
                0 <= j < k ==> radius_of(start.meshes, (#[trigger] batch@[j]).1.mesh_handle)
                    is Some,
        decreases n - k,
    {
        let entry = batch[k];
        if meshes.loaded_radius(entry.1.mesh_handle).is_none() {
            proof {
                lemma_first_missing_at(start.meshes, batch@, k as int);
            }
            return Err(
                PixelationError::MissingMesh { entity: entry.0, mesh: entry.1.mesh_handle },
            );
        }
        k = k + 1;
    }
    proof {
        lemma_first_missing_none(start.meshes, batch@);
    }
    let mut k: usize = 0;
    while k < n
        invariant
            world.wf(),
            n == batch@.len(),
            k <= n,
            batch_wf(start.nodes, batch@),
            forall|j: int|
                0 <= j < n ==> radius_of(start.meshes, (#[trigger] batch@[j]).1.mesh_handle)
                    is Some,
            built_state(start, batch@.take(k as int)) == (BuildState {
                nodes: world@,
                meshes: meshes@,
                images: images@,
                materials: materials@,
                last_order: ordering.last_order as int,
            }),
            ordering.last_order as int == start.last_order - k,
            start.last_order - n >= i64::MIN as int,
            world@.len() == start.nodes.len() + 3 * k,
            forall|m: AssetId|
                #[trigger] radius_of(meshes@, m) == radius_of(start.meshes, m),
            forall|i: int|
                0 <= i < start.nodes.len() ==> {
                    &&& (#[trigger] world@[i]).pixelate == start.nodes[i].pixelate
                    &&& world@[i].alive == start.nodes[i].alive
                },
        decreases n - k,
    {
        let ghost prev = BuildState {
            nodes: world@,
            meshes: meshes@,
            images: images@,
            materials: materials@,
            last_order: ordering.last_order as int,
        };
        proof {
            assert(batch@.take(k as int + 1).drop_last() =~= batch@.take(k as int));
            assert(batch@.take(k as int + 1).last() == batch@[k as int]);
            assert(tracked_for_pixelation(start.nodes, batch@[k as int].0));
        }
        let entry = batch[k];
        let e = entry.0;
        let radius = match meshes.loaded_radius(entry.1.mesh_handle) {
            Some(radius) => radius,
            None => {
                proof {
                    assert(false);
                }
                0
            },
        };
        let quad_id = create_canvas_mesh(meshes, radius);
        let px = world.node(e).pixelate.unwrap();
        let image_id = create_canvas_image(images, px);
        let material_id = create_canvas_material(materials, image_id);
        let order = ordering.next();
        world.cache_pixelation_source(e, radius);
        let mut camera_node = Node::blank(None);
        camera_node.camera = Some(CameraSettings { order, image: image_id });
        camera_node.camera_target = Some(e);
        camera_node.pixelation_layer = true;
        let _camera_id = world.spawn_node(camera_node);
        let mut canvas_node = Node::blank(None);
        canvas_node.canvas_target = Some(e);
        let canvas_id = world.spawn_node(canvas_node);
        let mut canvas_mesh_node = Node::blank(Some(canvas_id));
        canvas_mesh_node.mesh = Some(quad_id);
        canvas_mesh_node.material = Some(material_id);
        canvas_mesh_node.rotated_half_turn = true;
        canvas_mesh_node.not_shadow_caster = true;
        canvas_mesh_node.not_shadow_receiver = true;
        let _canvas_mesh_id = world.spawn_node(canvas_mesh_node);
        proof {
            let stepped = build_one(prev, batch@[k as int]);
            assert forall|m: AssetId|
                #[trigger] radius_of(meshes@, m) == radius_of(start.meshes, m) by {
                assert(radius_of(prev.meshes, m) == radius_of(start.meshes, m));
                if m < prev.meshes.len() {
                    assert(meshes@[m as int] == prev.meshes[m as int]);
                }
            }
            assert(world@ =~= stepped.nodes);
            assert(meshes@ =~= stepped.meshes);
            assert(images@ =~= stepped.images);
            assert(materials@ =~= stepped.materials);
            assert(built_state(start, batch@.take(k as int + 1)) == (BuildState {
                nodes: world@,
                meshes: meshes@,
                images: images@,
                materials: materials@,
                last_order: ordering.last_order as int,
            }));
        }
        k = k + 1;
    }
    proof {
        assert(batch@.take(n as int) =~= batch@);
    }
    Ok(())
}

/// How building one rig changes the rig counts of any target: the entry's
/// own target gains one camera and one canvas; every other target keeps its
/// counts.
pub proof fn lemma_build_one_counts(state: BuildState, entry: (EntityId, PixelationTarget), t: EntityId)
    requires
        entry.0 < state.nodes.len(),
    ensures
        crate::world::count_cameras_for(build_one(state, entry).nodes, t)
            == crate::world::count_cameras_for(state.nodes, t) + if t == entry.0 {
            1nat
        } else {
            0nat
        },
        crate::world::count_canvases_for(build_one(state, entry).nodes, t)
            == crate::world::count_canvases_for(state.nodes, t) + if t == entry.0 {
            1nat
        } else {
            0nat
        },
{
    let e = entry.0;
    let radius = radius_of(state.meshes, entry.1.mesh_handle).unwrap();
    let upd = state.nodes.update(
        e as int,
        Node { pixelation_layer: true, cached_radius: Some(radius), ..state.nodes[e as int] },
    );
    let built = build_one(state, entry).nodes;
    let cam = built[upd.len() as int];
    let canvas = built[upd.len() as int + 1];
    let cmesh = built[upd.len() as int + 2];
    assert(built =~= upd.push(cam).push(canvas).push(cmesh));
    let pcam: spec_fn(Node) -> bool = |n: Node| crate::world::is_camera_for(n, t);
    let pcan: spec_fn(Node) -> bool = |n: Node| crate::world::is_canvas_for(n, t);
    crate::world::lemma_count_nodes_update(
        state.nodes,
        pcam,
        e as int,
        Node { pixelation_layer: true, cached_radius: Some(radius), ..state.nodes[e as int] },
    );
    crate::world::lemma_count_nodes_update(
        state.nodes,
        pcan,
        e as int,
        Node { pixelate: state.nodes[e as int].pixelate, pixelation_layer: true, cached_radius: Some(radius), ..state.nodes[e as int] },
    );
    crate::world::lemma_count_nodes_push(upd, pcam, cam);
    crate::world::lemma_count_nodes_push(upd.push(cam), pcam, canvas);
    crate::world::lemma_count_nodes_push(upd.push(cam).push(canvas), pcam, cmesh);
    crate::world::lemma_count_nodes_push(upd, pcan, cam);
    crate::world::lemma_count_nodes_push(upd.push(cam), pcan, canvas);
    crate::world::lemma_count_nodes_push(upd.push(cam).push(canvas), pcan, cmesh);
}

/// Rig building leaves the rig counts of every object outside the batch
/// untouched.
pub proof fn lemma_built_counts_other(
    start: BuildState,
    batch: Seq<(EntityId, PixelationTarget)>,
    t: EntityId,
)
    requires
        forall|k: int| 0 <= k < batch.len() ==> (#[trigger] batch[k]).0 < start.nodes.len(),
        forall|k: int| 0 <= k < batch.len() ==> (#[trigger] batch[k]).0 != t,
    ensures
        crate::world::count_cameras_for(built_state(start, batch).nodes, t)
            == crate::world::count_cameras_for(start.nodes, t),
        crate::world::count_canvases_for(built_state(start, batch).nodes, t)
            == crate::world::count_canvases_for(start.nodes, t),
    decreases batch.len(),
{
    if batch.len() > 0 {
        lemma_built_counts_other(start, batch.drop_last(), t);
        lemma_built_state_shape(start, batch.drop_last());
        lemma_build_one_counts(built_state(start, batch.drop_last()), batch.last(), t);
    }
}

/// The lengths and the appended rig nodes of a built state: each batch
/// entry `k` contributes its camera at a fixed index with compositing order
/// `k + 1` below the starting order, and its canvas right after it, both
/// referencing the entry's source.
pub proof fn lemma_built_state_shape(start: BuildState, batch: Seq<(EntityId, PixelationTarget)>)
    requires
        forall|k: int| 0 <= k < batch.len() ==> (#[trigger] batch[k]).0 < start.nodes.len(),
    ensures
        built_state(start, batch).nodes.len() == start.nodes.len() + 3 * batch.len(),
        built_state(start, batch).meshes.len() == start.meshes.len() + batch.len(),
        built_state(start, batch).images.len() == start.images.len() + batch.len(),
        built_state(start, batch).materials.len() == start.materials.len() + batch.len(),
        built_state(start, batch).last_order == start.last_order - batch.len(),
        i64::MIN <= start.last_order - batch.len() && start.last_order <= i64::MAX ==> forall|
            k: int,
        |
            0 <= k < batch.len() ==> {
                let cam = #[trigger] built_state(start, batch).nodes[start.nodes.len() + 3 * k];
                let canvas = built_state(start, batch).nodes[start.nodes.len() + 3 * k + 1];
                &&& cam.alive
                &&& cam.camera_target == Some(batch[k].0)
                &&& cam.camera is Some
                &&& cam.camera.unwrap().order as int == start.last_order - k - 1
                &&& canvas.alive
                &&& canvas.canvas_target == Some(batch[k].0)
            },
    decreases batch.len(),
{
    if batch.len() > 0 {
        lemma_built_state_shape(start, batch.drop_last());
        let prev = built_state(start, batch.drop_last());
        let cur = built_state(start, batch);
        let e = batch.last().0;
        if i64::MIN <= start.last_order - batch.len() && start.last_order <= i64::MAX {
            assert forall|k: int| 0 <= k < batch.len() implies {
                let cam = #[trigger] cur.nodes[start.nodes.len() + 3 * k];
                let canvas = cur.nodes[start.nodes.len() + 3 * k + 1];
                &&& cam.alive
                &&& cam.camera_target == Some(batch[k].0)
                &&& cam.camera is Some
                &&& cam.camera.unwrap().order as int == start.last_order - k - 1
                &&& canvas.alive
                &&& canvas.canvas_target == Some(batch[k].0)
            } by {
                if k < batch.len() - 1 {
                    assert(batch.drop_last()[k] == batch[k]);
                    assert(cur.nodes[start.nodes.len() + 3 * k] == prev.nodes[start.nodes.len()
                        + 3 * k]);
                    assert(cur.nodes[start.nodes.len() + 3 * k + 1] == prev.nodes[
                        start.nodes.len() + 3 * k + 1]);
                } else {
                    assert(cur.nodes[start.nodes.len() + 3 * k] == cur.nodes[prev.nodes.len()
                        as int]);
                }
            }
        }
    }
}

/// Camera ordering: the compositing orders assigned to the rigs of one
/// batch of N concurrently resolved targets are N distinct, strictly
/// decreasing values, whatever position each target holds in the batch.
pub proof fn lemma_camera_orders_strictly_decreasing(
    start: BuildState,
    batch: Seq<(EntityId, PixelationTarget)>,
)
    requires
        forall|k: int| 0 <= k < batch.len() ==> (#[trigger] batch[k]).0 < start.nodes.len(),
        i64::MIN <= start.last_order - batch.len(),
        start.last_order <= i64::MAX,
    ensures
        forall|k1: int, k2: int|
            0 <= k1 < k2 < batch.len() ==> #[trigger] built_state(start, batch).nodes[
                start.nodes.len() + 3 * k1].camera.unwrap().order > #[trigger] built_state(
                start,
                batch,
            ).nodes[start.nodes.len() + 3 * k2].camera.unwrap().order,
{
    lemma_built_state_shape(start, batch);
}

/// After rig building, each batch target owns exactly one more auxiliary
/// camera and one more canvas than before, both referencing it; in
/// particular a target without a rig before the batch has exactly one
/// camera and one canvas afterwards.
pub proof fn lemma_one_rig_per_target(start: BuildState, batch: Seq<(EntityId, PixelationTarget)>)
    requires
        forall|k: int| 0 <= k < batch.len() ==> (#[trigger] batch[k]).0 < start.nodes.len(),
        forall|k1: int, k2: int| 0 <= k1 < k2 < batch.len() ==> batch[k1].0 != batch[k2].0,
    ensures
        forall|k: int|
            0 <= k < batch.len() ==> crate::world::count_cameras_for(
                built_state(start, batch).nodes,
                (#[trigger] batch[k]).0,
            ) == crate::world::count_cameras_for(start.nodes, batch[k].0) + 1,
        forall|k: int|
            0 <= k < batch.len() ==> crate::world::count_canvases_for(
                built_state(start, batch).nodes,
                (#[trigger] batch[k]).0,
            ) == crate::world::count_canvases_for(start.nodes, batch[k].0) + 1,
    decreases batch.len(),
{
    if batch.len() > 0 {
        lemma_one_rig_per_target(start, batch.drop_last());
        let prev = built_state(start, batch.drop_last());
        let e = batch.last().0;
        assert forall|j: int|
            0 <= j < batch.drop_last().len() implies (#[trigger] batch.drop_last()[j]).0 != e by {
            assert(batch.drop_last()[j] == batch[j]);
        }
        lemma_built_counts_other(start, batch.drop_last(), e);
        lemma_built_state_shape(start, batch.drop_last());
        assert(batch[batch.len() - 1].0 < start.nodes.len());
        assert forall|k: int| 0 <= k < batch.len() implies crate::world::count_cameras_for(
            built_state(start, batch).nodes,
            (#[trigger] batch[k]).0,
        ) == crate::world::count_cameras_for(start.nodes, batch[k].0) + 1
            && crate::world::count_canvases_for(
            built_state(start, batch).nodes,
            batch[k].0,
        ) == crate::world::count_canvases_for(start.nodes, batch[k].0) + 1 by {
            lemma_build_one_counts(prev, batch.last(), batch[k].0);
            if k < batch.len() - 1 {
                assert(batch.drop_last()[k] == batch[k]);
            }
        }
    }
}

} // verus!
