//! Per-frame synchronization, resolution changes, visibility restriction,
//! and teardown.

use pixelate_mesh::assets::{ImageAssets, MaterialAssets, MeshAssets, SceneSpawner};
use pixelate_mesh::creation::{add_pixelation, CameraOrdering};
use pixelate_mesh::ready_checks::{PixelationTarget, PixelationTargetKind};
use pixelate_mesh::runtime::{
    despawn_dependent_types, position_canvas, set_visible, sync_cameras, update_pixelation,
    DISTANCE_FACTOR_TENTHS,
};
use pixelate_mesh::world::{EntityId, World};
use pixelate_mesh::Pixelate;

struct Setup {
    world: World,
    meshes: MeshAssets,
    images: ImageAssets,
    materials: MaterialAssets,
    source: EntityId,
}

fn build_rig(radius: u32, px: Pixelate) -> Setup {
    let mut world = World::new();
    let mut meshes = MeshAssets::new();
    let mut images = ImageAssets::new();
    let mut materials = MaterialAssets::new();
    let mut ordering = CameraOrdering::new();
    let m = meshes.insert_loaded(radius);
    let source = world.spawn(None);
    world.set_mesh(source, Some(m));
    world.insert_pixelate(source, px);
    let batch = vec![(
        source,
        PixelationTarget { mesh_handle: m, kind: PixelationTargetKind::Mesh },
    )];
    add_pixelation(&mut world, &mut meshes, &mut images, &mut materials, &mut ordering, &batch)
        .unwrap();
    Setup { world, meshes, images, materials, source }
}

#[test]
fn placements_follow_the_cached_radius() {
    let mut s = build_rig(5, Pixelate::splat(64));
    let camera_placements = sync_cameras(&mut s.world, true);
    assert_eq!(camera_placements.len(), 1);
    assert_eq!(camera_placements[0].source, s.source);
    assert_eq!(camera_placements[0].radius, 5);
    assert!(s.world.node(camera_placements[0].rig).camera_target == Some(s.source));

    let canvas_placements = position_canvas(&mut s.world, true);
    assert_eq!(canvas_placements.len(), 1);
    assert_eq!(canvas_placements[0].source, s.source);
    assert_eq!(canvas_placements[0].radius, 5);
    assert!(s.world.node(canvas_placements[0].rig).canvas_target == Some(s.source));

    // The camera distance an adapter derives from the directive: radius
    // times 3.2, within floating-point tolerance; the canvas offset is the
    // radius itself.
    let distance =
        camera_placements[0].radius as f32 * (DISTANCE_FACTOR_TENTHS as f32) / 10.0;
    assert!((distance - 16.0).abs() < 1e-4);
    let offset = canvas_placements[0].radius as f32;
    assert!((offset - 5.0).abs() < 1e-6);
    // Nothing was despawned: the rig is intact.
    assert_eq!(s.world.cameras_targeting(s.source), 1);
    assert_eq!(s.world.canvases_targeting(s.source), 1);
}

#[test]
fn without_a_primary_viewer_the_camera_pass_idles() {
    let mut s = build_rig(1, Pixelate::splat(64));
    // Break the rig's source so a pass with a viewer would despawn it.
    s.world.despawn_recursive(s.source);
    let placements = sync_cameras(&mut s.world, false);
    assert_eq!(placements.len(), 0);
    assert_eq!(s.world.cameras_targeting(s.source), 1);
}

#[test]
fn despawned_source_orphans_are_reaped_within_one_frame() {
    let mut s = build_rig(2, Pixelate::splat(64));
    s.world.despawn_recursive(s.source);
    // The frame's two sync passes, in their fixed order.
    let camera_placements = sync_cameras(&mut s.world, true);
    let canvas_placements = position_canvas(&mut s.world, true);
    assert_eq!(canvas_placements.len(), 0);
    assert_eq!(camera_placements.len(), 0);
    assert_eq!(s.world.cameras_targeting(s.source), 0);
    assert_eq!(s.world.canvases_targeting(s.source), 0);
}

#[test]
fn removed_request_reaps_camera_and_canvas() {
    let mut s = build_rig(1, Pixelate::splat(64));
    assert_eq!(s.world.cameras_targeting(s.source), 1);
    assert_eq!(s.world.canvases_targeting(s.source), 1);

    s.world.remove_pixelate(s.source);
    despawn_dependent_types(&mut s.world, &vec![s.source]);
    assert_eq!(s.world.cameras_targeting(s.source), 0);
    assert_eq!(s.world.canvases_targeting(s.source), 0);
    // The source itself stays.
    assert!(s.world.node(s.source).alive);

    // Double removal is a no-op.
    despawn_dependent_types(&mut s.world, &vec![s.source]);
    assert_eq!(s.world.cameras_targeting(s.source), 0);
    assert_eq!(s.world.canvases_targeting(s.source), 0);
}

#[test]
fn resolution_change_rebinds_buffer_without_a_second_rig() {
    let mut s = build_rig(1, Pixelate { horizontal_pixels: 64, vertical_pixels: 64 });
    assert_eq!(s.images.len(), 1);
    let nodes_before = s.world.len();

    // The caller doubles the horizontal resolution.
    s.world.insert_pixelate(
        s.source,
        Pixelate { horizontal_pixels: 128, vertical_pixels: 64 },
    );
    update_pixelation(&mut s.world, &mut s.images, &mut s.materials, &vec![s.source]);

    // A fresh buffer at the new size; the old one is abandoned, not resized.
    assert_eq!(s.images.len(), 2);
    let img = s.images.get(1);
    assert_eq!(img.width, 128);
    assert_eq!(img.height, 64);

    // The camera renders into the fresh buffer and the canvas child samples
    // it through a fresh material.
    let mut camera_image = None;
    let mut child_material = None;
    for i in 0..s.world.len() {
        let node = s.world.node(i);
        if node.camera_target == Some(s.source) {
            camera_image = Some(node.camera.unwrap().image);
        }
        if node.parent.is_some() && node.material.is_some() && node.mesh.is_some() {
            child_material = node.material;
        }
    }
    assert_eq!(camera_image, Some(1));
    let mat = s.materials.get(child_material.unwrap());
    assert_eq!(mat.base_color_texture, Some(1));

    // No duplicate rig appeared.
    assert_eq!(s.world.len(), nodes_before);
    assert_eq!(s.world.cameras_targeting(s.source), 1);
    assert_eq!(s.world.canvases_targeting(s.source), 1);
}

#[test]
fn visible_set_restricts_to_source_and_descendants() {
    let mut world = World::new();
    let e = world.spawn(None);
    let child = world.spawn(Some(e));
    let grandchild = world.spawn(Some(child));
    let unrelated = world.spawn(None);

    let visible = vec![unrelated, e, grandchild, child];
    let restricted = set_visible(&world, e, &visible);
    assert_eq!(restricted, vec![e, grandchild, child]);
}
