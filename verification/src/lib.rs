//! Pixelation effect core: verified bookkeeping for rendering a marked 3D
//! object to a low-resolution off-screen buffer shown on a viewer-facing
//! billboard ("canvas").
//!
//! The crate models the scene world, asset stores, and the frame pipeline
//! (readiness polling, rig building, layer tagging, shadow duplication,
//! per-frame synchronization, and teardown) over plain values; an engine
//! adapter mirrors these decisions into the host renderer.

use vstd::prelude::*;

pub mod assets;
pub mod creation;
pub mod ready_checks;
pub mod recursive_layering;
pub mod runtime;
pub mod shadow;
pub mod world;

verus! {

/// The fatal errors of the pipeline. Everything else the pipeline recovers
/// from by itself: unloaded geometry stays pending, dangling rig objects are
/// reaped.
#[derive(Debug, Copy, Clone, PartialEq, Eq, Structural)]
pub enum PixelationError {
    /// A pixelation request sits on an object with neither a mesh nor a
    /// scene reference; the caller's scene construction is wrong.
    InvalidRequest {
        /// The offending object.
        entity: world::EntityId,
    },
    /// A resolved target's mesh was not in the asset store at rig build
    /// time, which the readiness contract rules out.
    MissingMesh {
        /// The object whose rig was being built.
        entity: world::EntityId,
        /// The mesh reference that failed to resolve.
        mesh: assets::AssetId,
    },
}

/// Marks an object to be pixelated: the requested resolution of the
/// off-screen buffer, in pixels. Both fields are positive.
#[derive(Debug, Copy, Clone, PartialEq, Eq, Structural)]
pub struct Pixelate {
    /// How many pixels wide the final pixelated image should be.
    pub horizontal_pixels: u32,
    /// How many pixels tall the final pixelated image should be.
    pub vertical_pixels: u32,
}

impl Pixelate {
    /// A well-formed request has a positive resolution on both axes.
    pub open spec fn wf(self) -> bool {
        self.horizontal_pixels >= 1 && self.vertical_pixels >= 1
    }

    /// Creates a new `Pixelate` component with the given dimensions.
    pub fn splat(horizontal_and_vertical_pixels: u32) -> (r: Self)
        ensures
            r.horizontal_pixels == horizontal_and_vertical_pixels,
            r.vertical_pixels == horizontal_and_vertical_pixels,
    {
        Self {
            horizontal_pixels: horizontal_and_vertical_pixels,
            vertical_pixels: horizontal_and_vertical_pixels,
        }
    }
}

/// The private visibility layer on which pixelated geometry and the
/// auxiliary cameras live, keeping them out of the main pass.
pub const PIXELATION_RENDER_LAYER: u32 = 1;

/// What the engine hands the pipeline each frame: the request lifecycle
/// events observed since the last frame, and whether a primary viewer
/// exists right now.
#[derive(Debug, Clone)]
pub struct FrameInputs {
    /// The objects whose pixelation request first appeared this frame.
    pub added: Vec<world::EntityId>,
    /// The objects whose request changed its resolution this frame.
    pub changed: Vec<world::EntityId>,
    /// The objects whose request was removed this frame.
    pub removed: Vec<world::EntityId>,
    /// Whether a primary viewer exists this frame.
    pub primary_present: bool,
}

/// What one frame hands back: the placement directives of the two sync
/// passes, for the engine adapter to turn into transforms.
#[derive(Debug, Clone)]
pub struct FrameOutputs {
    /// The canvas placements of this frame's canvas pass.
    pub canvas_placements: Vec<runtime::RigPlacement>,
    /// The camera placements of this frame's camera pass.
    pub camera_placements: Vec<runtime::RigPlacement>,
}

/// Runs one frame of the pipeline in its fixed order: readiness polling,
/// rig building, layer tagging, shadow duplication (with the deferred
/// material pass for duplicate sub-scenes), resolution changes, the camera
/// and canvas sync passes, and the lifecycle reaper. The two fatal errors — an invalid
/// request, and a resolved mesh missing at build time — abort the frame
/// where they arise.
pub fn run_frame(
    world: &mut world::World,
    meshes: &mut assets::MeshAssets,
    images: &mut assets::ImageAssets,
    materials: &mut assets::MaterialAssets,
    spawner: &mut assets::SceneSpawner,
    to_pixelate: &mut ready_checks::ToPixelate,
    ordering: &mut creation::CameraOrdering,
    scene_shadow: &mut shadow::SetSceneShadow,
    shadow_material: assets::AssetId,
    inputs: &FrameInputs,
) -> (r: Result<FrameOutputs, PixelationError>)
    requires
        old(world).wf(),
        old(to_pixelate).wf(),
        old(ordering).last_order as int - (old(to_pixelate)@.len() + inputs.added@.len())
            >= i64::MIN as int,
    ensures
        final(world).wf(),
        final(to_pixelate).wf(),
        ({
            let nodes0 = old(world)@;
            let pending1 = ready_checks::insert_all(old(to_pixelate)@, inputs.added@);
            let batch = ready_checks::ready_batch(nodes0, old(meshes)@, old(spawner)@, pending1);
            match r {
                Result::Err(err) => {
                    &&& final(meshes)@ == old(meshes)@
                    &&& final(images)@ == old(images)@
                    &&& final(materials)@ == old(materials)@
                    &&& final(spawner)@ == old(spawner)@
                    &&& final(scene_shadow)@ == old(scene_shadow)@
                    &&& final(ordering).last_order == old(ordering).last_order
                    &&& final(world)@ == nodes0
                    &&& match err {
                        PixelationError::InvalidRequest { entity } => {
                            &&& ready_checks::first_invalid(nodes0, pending1) == Some(entity)
                            &&& final(to_pixelate)@ == pending1
                        },
                        PixelationError::MissingMesh { entity, mesh } => {
                            &&& creation::first_missing_mesh(old(meshes)@, batch) == Some(
                                (entity, mesh),
                            )
                            &&& final(to_pixelate)@ == ready_checks::still_pending(
                                nodes0,
                                old(meshes)@,
                                old(spawner)@,
                                pending1,
                            )
                        },
                    }
                },
                Result::Ok(out) => {
                    let built = creation::built_state(
                        creation::BuildState {
                            nodes: nodes0,
                            meshes: old(meshes)@,
                            images: old(images)@,
                            materials: old(materials)@,
                            last_order: old(ordering).last_order as int,
                        },
                        batch,
                    );
                    let tagged = recursive_layering::layered(built.nodes, old(spawner)@, batch);
                    let shadowed = shadow::shadow_batch(
                        shadow::ShadowState {
                            nodes: tagged,
                            instances: old(spawner)@,
                            pending: old(scene_shadow)@,
                        },
                        shadow_material,
                        batch,
                    );
                    let lit = shadow::scene_shadowed(
                        shadowed.nodes,
                        shadowed.instances,
                        shadowed.pending,
                        shadow_material,
                    );
                    let updated = runtime::update_batch(
                        runtime::UpdateState {
                            nodes: lit,
                            images: built.images,
                            materials: built.materials,
                        },
                        inputs.changed@,
                    );
                    let after_camera = if inputs.primary_present {
                        runtime::rigs_synced(updated.nodes, true)
                    } else {
                        updated.nodes
                    };
                    let after_canvas = runtime::rigs_synced(after_camera, false);
                    &&& final(world)@ == runtime::reaped(after_canvas, inputs.removed@)
                    &&& final(meshes)@ == built.meshes
                    &&& final(images)@ == updated.images
                    &&& final(materials)@ == updated.materials
                    &&& final(spawner)@ == shadowed.instances
                    &&& final(scene_shadow)@ == shadow::still_shadow_pending(
                        shadowed.instances,
                        shadowed.pending,
                    )
                    &&& final(ordering).last_order as int == built.last_order
                    &&& final(to_pixelate)@ == ready_checks::still_pending(
                        nodes0,
                        old(meshes)@,
                        old(spawner)@,
                        pending1,
                    )
                    &&& out.camera_placements@ == (if inputs.primary_present {
                        runtime::rig_placements(updated.nodes, true, updated.nodes.len() as int)
                    } else {
                        Seq::<runtime::RigPlacement>::empty()
                    })
                    &&& out.canvas_placements@ == (if inputs.primary_present {
                        runtime::rig_placements(after_camera, false, after_camera.len() as int)
                    } else {
                        Seq::<runtime::RigPlacement>::empty()
                    })
                },
            }
        }),
{
    ready_checks::mark_for_pixelation(to_pixelate, &inputs.added);
    let ghost nodes0 = world@;
    let ghost pending1 = to_pixelate@;
    let batch = match ready_checks::get_ready_pixelation_targets(
        world,
        meshes,
        spawner,
        to_pixelate,
    ) {
        Ok(b) => b,
        Err(err) => {
            return Err(err);
        },
    };
    proof {
        ready_checks::lemma_ready_batch_membership(nodes0, meshes@, spawner@, pending1, 0);
        ready_checks::lemma_ready_batch_len(nodes0, meshes@, spawner@, pending1);
        ready_checks::lemma_insert_all_len(old(to_pixelate)@, inputs.added@);
        assert forall|k: int|
            0 <= k < batch@.len() implies ready_checks::tracked_for_pixelation(
            nodes0,
            (#[trigger] batch@[k]).0,
        ) by {
            assert(ready_checks::ready_now(nodes0, meshes@, spawner@, batch@[k].0));
        }
    }
    match creation::add_pixelation(world, meshes, images, materials, ordering, &batch) {
        Ok(()) => {},
        Err(err) => {
            return Err(err);
        },
    }
    recursive_layering::recursively_set_layer(world, spawner, &batch);
    shadow::add_shadow_caster(world, spawner, scene_shadow, shadow_material, &batch);
    let ghost before_lit = world@;
    let ghost instances_now = spawner@;
    let ghost shadow_pending_now = scene_shadow@;
    shadow::set_scene_shadow(world, spawner, shadow_material, scene_shadow);
    proof {
        assert(world@ =~= shadow::scene_shadowed(
            before_lit,
            instances_now,
            shadow_pending_now,
            shadow_material,
        ));
    }
    runtime::update_pixelation(world, images, materials, &inputs.changed);
    let camera_placements = runtime::sync_cameras(world, inputs.primary_present);
    let canvas_placements = runtime::position_canvas(world, inputs.primary_present);
    runtime::despawn_dependent_types(world, &inputs.removed);
    Ok(FrameOutputs { canvas_placements, camera_placements })
}

/// Returns the private visibility layer used by every auxiliary camera.
pub fn get_pixelation_render_layer() -> (r: u32)
    ensures
        r == PIXELATION_RENDER_LAYER,
{
    PIXELATION_RENDER_LAYER
}

} // verus!
