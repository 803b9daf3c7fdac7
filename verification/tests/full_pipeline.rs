//! Whole frames through the fixed pipeline order.

use pixelate_mesh::assets::{ImageAssets, MaterialAssets, MeshAssets, SceneSpawner};
use pixelate_mesh::creation::CameraOrdering;
use pixelate_mesh::ready_checks::ToPixelate;
use pixelate_mesh::shadow::{create_shadow_material, SetSceneShadow};
use pixelate_mesh::world::World;
use pixelate_mesh::{run_frame, FrameInputs, Pixelate, PixelationError};

struct Rigging {
    world: World,
    meshes: MeshAssets,
    images: ImageAssets,
    materials: MaterialAssets,
    spawner: SceneSpawner,
    pending: ToPixelate,
    ordering: CameraOrdering,
    scene_shadow: SetSceneShadow,
    shadow_material: usize,
}

fn rigging() -> Rigging {
    let mut materials = MaterialAssets::new();
    let shadow_material = create_shadow_material(&mut materials);
    Rigging {
        world: World::new(),
        meshes: MeshAssets::new(),
        images: ImageAssets::new(),
        materials,
        spawner: SceneSpawner::new(),
        pending: ToPixelate::new(),
        ordering: CameraOrdering::new(),
        scene_shadow: SetSceneShadow::new(),
        shadow_material,
    }
}

fn frame(
    r: &mut Rigging,
    inputs: &FrameInputs,
) -> Result<pixelate_mesh::FrameOutputs, PixelationError> {
    run_frame(
        &mut r.world,
        &mut r.meshes,
        &mut r.images,
        &mut r.materials,
        &mut r.spawner,
        &mut r.pending,
        &mut r.ordering,
        &mut r.scene_shadow,
        r.shadow_material,
        inputs,
    )
}

fn quiet_frame(primary_present: bool) -> FrameInputs {
    FrameInputs { added: vec![], changed: vec![], removed: vec![], primary_present }
}

#[test]
fn one_frame_builds_and_places_a_mesh_rig() {
    let mut r = rigging();
    let m = r.meshes.insert_loaded(1);
    let e = r.world.spawn(None);
    r.world.set_mesh(e, Some(m));
    r.world.insert_pixelate(e, Pixelate::splat(64));

    let out = frame(
        &mut r,
        &FrameInputs { added: vec![e], changed: vec![], removed: vec![], primary_present: true },
    )
    .unwrap();

    // The rig was built and both sync passes placed it this same frame.
    assert_eq!(r.world.cameras_targeting(e), 1);
    assert_eq!(r.world.canvases_targeting(e), 1);
    assert_eq!(r.images.len(), 1);
    assert_eq!(out.canvas_placements.len(), 1);
    assert_eq!(out.camera_placements.len(), 1);
    assert_eq!(out.camera_placements[0].source, e);
    assert_eq!(out.camera_placements[0].radius, 1);
    assert_eq!(r.pending.len(), 0);
    // A shadow duplicate of the one-object hierarchy exists too: the shadow
    // root and the clone of the source.
    assert_eq!(r.world.len(), 1 + 3 + 2);

    // A later frame with no viewer emits nothing and despawns nothing.
    let out = frame(&mut r, &quiet_frame(false)).unwrap();
    assert_eq!(out.canvas_placements.len(), 0);
    assert_eq!(out.camera_placements.len(), 0);
    assert_eq!(r.world.cameras_targeting(e), 1);

    // Removing the request reaps the whole rig within one frame.
    r.world.remove_pixelate(e);
    let out = frame(
        &mut r,
        &FrameInputs { added: vec![], changed: vec![], removed: vec![e], primary_present: true },
    )
    .unwrap();
    assert_eq!(out.canvas_placements.len(), 1);
    assert_eq!(r.world.cameras_targeting(e), 0);
    assert_eq!(r.world.canvases_targeting(e), 0);
    assert!(r.world.node(e).alive);
}

#[test]
fn a_frame_surfaces_the_invalid_request() {
    let mut r = rigging();
    let e = r.world.spawn(None);
    r.world.insert_pixelate(e, Pixelate::splat(64));
    let got = frame(
        &mut r,
        &FrameInputs { added: vec![e], changed: vec![], removed: vec![], primary_present: true },
    );
    assert_eq!(got.unwrap_err(), PixelationError::InvalidRequest { entity: e });
    assert_eq!(r.world.len(), 1);
}

#[test]
fn an_unloaded_mesh_waits_across_frames() {
    let mut r = rigging();
    let e = r.world.spawn(None);
    r.world.set_mesh(e, Some(77));
    r.world.insert_pixelate(e, Pixelate::splat(64));

    let out = frame(
        &mut r,
        &FrameInputs { added: vec![e], changed: vec![], removed: vec![], primary_present: true },
    )
    .unwrap();
    assert_eq!(out.camera_placements.len(), 0);
    assert_eq!(r.pending.len(), 1);
    assert_eq!(r.world.cameras_targeting(e), 0);

    // The asset arrives; rebind the reference and poll again.
    let m = r.meshes.insert_loaded(3);
    r.world.set_mesh(e, Some(m));
    let out = frame(&mut r, &quiet_frame(true)).unwrap();
    assert_eq!(r.pending.len(), 0);
    assert_eq!(r.world.cameras_targeting(e), 1);
    assert_eq!(out.camera_placements.len(), 1);
    assert_eq!(out.camera_placements[0].radius, 3);
}

#[test]
fn a_scene_resolves_and_its_shadow_duplicate_waits() {
    let mut r = rigging();
    let m = r.meshes.insert_loaded(2);
    let e = r.world.spawn(None);
    r.world.set_scene(e, Some(4));
    r.world.insert_pixelate(e, Pixelate::splat(32));

    // Frame: the scene has not spawned yet, so nothing resolves.
    let out = frame(
        &mut r,
        &FrameInputs { added: vec![e], changed: vec![], removed: vec![], primary_present: true },
    )
    .unwrap();
    assert_eq!(out.camera_placements.len(), 0);
    assert_eq!(r.pending.len(), 1);

    // The host spawns the instance and reports it ready with one meshed
    // member; the next frame resolves and builds the rig.
    let inst = r.spawner.spawn(4, None);
    r.world.set_scene_instance(e, Some(inst));
    let member = r.world.spawn(Some(e));
    r.world.set_mesh(member, Some(m));
    r.spawner.mark_ready(inst, vec![member]);
    let out = frame(&mut r, &quiet_frame(true)).unwrap();
    assert_eq!(r.pending.len(), 0);
    assert_eq!(r.world.cameras_targeting(e), 1);
    assert_eq!(r.world.canvases_targeting(e), 1);
    assert_eq!(out.camera_placements.len(), 1);
    assert_eq!(out.camera_placements[0].radius, 2);
    // The member moved onto the private layer.
    assert!(r.world.node(member).pixelation_layer);
    // The shadow pass asked for a second instance of the same scene, under
    // the source, and still waits for it.
    assert_eq!(r.spawner.len(), 2);
    assert_eq!(r.spawner.instance(1).scene, 4);
    assert_eq!(r.spawner.instance(1).parent, Some(e));
    assert_eq!(r.scene_shadow.len(), 1);

    // The duplicate finishes spawning; the next frame paints it with the
    // shadow-only material.
    let dup_member = r.world.spawn(Some(e));
    r.world.set_mesh(dup_member, Some(m));
    r.spawner.mark_ready(1, vec![dup_member]);
    frame(&mut r, &quiet_frame(true)).unwrap();
    assert_eq!(r.scene_shadow.len(), 0);
    assert_eq!(r.world.node(dup_member).material, Some(r.shadow_material));
    assert!(r.world.node(dup_member).not_shadow_receiver);
}
