//! Readiness tracking: polling, batches, and the pending set.

use pixelate_mesh::assets::{MeshAssets, SceneSpawner};
use pixelate_mesh::ready_checks::{
    get_ready_pixelation_targets, mark_for_pixelation, PixelationTargetKind, ToPixelate,
};
use pixelate_mesh::world::World;
use pixelate_mesh::{Pixelate, PixelationError};

#[test]
fn loaded_mesh_resolves_within_one_cycle() {
    let mut world = World::new();
    let mut meshes = MeshAssets::new();
    let spawner = SceneSpawner::new();
    let mut pending = ToPixelate::new();

    let m = meshes.insert_loaded(1);
    let e = world.spawn(None);
    world.set_mesh(e, Some(m));
    world.insert_pixelate(e, Pixelate::splat(64));

    mark_for_pixelation(&mut pending, &vec![e]);
    assert_eq!(pending.len(), 1);

    let batch = get_ready_pixelation_targets(&world, &meshes, &spawner, &mut pending).unwrap();
    assert_eq!(batch.len(), 1);
    assert_eq!(batch[0].0, e);
    assert_eq!(batch[0].1.mesh_handle, m);
    assert!(matches!(batch[0].1.kind, PixelationTargetKind::Mesh));
    assert_eq!(pending.len(), 0);
}

#[test]
fn unloaded_mesh_stays_pending() {
    let mut world = World::new();
    let meshes = MeshAssets::new();
    let spawner = SceneSpawner::new();
    let mut pending = ToPixelate::new();

    let e = world.spawn(None);
    world.set_mesh(e, Some(7));
    world.insert_pixelate(e, Pixelate::splat(32));
    mark_for_pixelation(&mut pending, &vec![e]);

    let batch = get_ready_pixelation_targets(&world, &meshes, &spawner, &mut pending).unwrap();
    assert_eq!(batch.len(), 0);
    assert_eq!(pending.len(), 1);
    assert!(pending.contains(e));
}

#[test]
fn scene_waits_for_spawn_and_mesh_descendant() {
    let mut world = World::new();
    let mut meshes = MeshAssets::new();
    let mut spawner = SceneSpawner::new();
    let mut pending = ToPixelate::new();

    let e = world.spawn(None);
    world.set_scene(e, Some(3));
    world.insert_pixelate(e, Pixelate::splat(64));
    mark_for_pixelation(&mut pending, &vec![e]);

    // No instance yet: nothing resolves.
    let batch = get_ready_pixelation_targets(&world, &meshes, &spawner, &mut pending).unwrap();
    assert_eq!(batch.len(), 0);
    assert_eq!(pending.len(), 1);

    // Instance spawned but not ready: nothing resolves.
    let inst = spawner.spawn(3, None);
    world.set_scene_instance(e, Some(inst));
    let batch = get_ready_pixelation_targets(&world, &meshes, &spawner, &mut pending).unwrap();
    assert_eq!(batch.len(), 0);
    assert_eq!(pending.len(), 1);

    // Ready, but no mesh-bearing descendant: still nothing.
    let child = world.spawn(Some(e));
    spawner.mark_ready(inst, vec![child]);
    let batch = get_ready_pixelation_targets(&world, &meshes, &spawner, &mut pending).unwrap();
    assert_eq!(batch.len(), 0);
    assert_eq!(pending.len(), 1);

    // A mesh appears on the descendant: the scene resolves to it.
    let m = meshes.insert_loaded(2);
    world.set_mesh(child, Some(m));
    let batch = get_ready_pixelation_targets(&world, &meshes, &spawner, &mut pending).unwrap();
    assert_eq!(batch.len(), 1);
    assert_eq!(batch[0].0, e);
    assert_eq!(batch[0].1.mesh_handle, m);
    assert!(matches!(batch[0].1.kind, PixelationTargetKind::Scene));
    assert_eq!(pending.len(), 0);
}

#[test]
fn request_with_neither_mesh_nor_scene_is_fatal() {
    let mut world = World::new();
    let meshes = MeshAssets::new();
    let spawner = SceneSpawner::new();
    let mut pending = ToPixelate::new();

    let e = world.spawn(None);
    world.insert_pixelate(e, Pixelate::splat(16));
    mark_for_pixelation(&mut pending, &vec![e]);

    let r = get_ready_pixelation_targets(&world, &meshes, &spawner, &mut pending);
    assert_eq!(r, Err(PixelationError::InvalidRequest { entity: e }));
    // The poll reports the error without touching the pending set.
    assert_eq!(pending.len(), 1);
}

#[test]
fn marking_twice_keeps_one_entry() {
    let mut world = World::new();
    let mut pending = ToPixelate::new();
    let e = world.spawn(None);
    world.insert_pixelate(e, Pixelate::splat(8));
    mark_for_pixelation(&mut pending, &vec![e, e]);
    mark_for_pixelation(&mut pending, &vec![e]);
    assert_eq!(pending.len(), 1);
}

#[test]
fn despawned_object_leaves_the_pending_set() {
    let mut world = World::new();
    let meshes = MeshAssets::new();
    let spawner = SceneSpawner::new();
    let mut pending = ToPixelate::new();

    let e = world.spawn(None);
    world.set_mesh(e, Some(0));
    world.insert_pixelate(e, Pixelate::splat(64));
    mark_for_pixelation(&mut pending, &vec![e]);
    world.despawn_recursive(e);

    let batch = get_ready_pixelation_targets(&world, &meshes, &spawner, &mut pending).unwrap();
    assert_eq!(batch.len(), 0);
    assert_eq!(pending.len(), 0);
}
