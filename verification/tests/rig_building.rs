//! Rig building: cameras, canvases, buffers, and compositing orders.

use pixelate_mesh::assets::{ImageAssets, MaterialAssets, MeshAssets, MeshData, SceneSpawner};
use pixelate_mesh::creation::{add_pixelation, CameraOrdering};
use pixelate_mesh::ready_checks::{
    get_ready_pixelation_targets, mark_for_pixelation, PixelationTarget, PixelationTargetKind,
    ToPixelate,
};
use pixelate_mesh::world::World;
use pixelate_mesh::{Pixelate, PixelationError, PIXELATION_RENDER_LAYER};

#[test]
fn one_cycle_builds_one_rig_at_the_requested_size() {
    let mut world = World::new();
    let mut meshes = MeshAssets::new();
    let mut images = ImageAssets::new();
    let mut materials = MaterialAssets::new();
    let mut ordering = CameraOrdering::new();
    let spawner = SceneSpawner::new();
    let mut pending = ToPixelate::new();

    let m = meshes.insert_loaded(1);
    let e = world.spawn(None);
    world.set_mesh(e, Some(m));
    world.insert_pixelate(
        e,
        Pixelate { horizontal_pixels: 64, vertical_pixels: 64 },
    );
    mark_for_pixelation(&mut pending, &vec![e]);

    let batch = get_ready_pixelation_targets(&world, &meshes, &spawner, &mut pending).unwrap();
    add_pixelation(&mut world, &mut meshes, &mut images, &mut materials, &mut ordering, &batch)
        .unwrap();

    // Exactly one off-screen buffer, at 64x64.
    assert_eq!(images.len(), 1);
    let img = images.get(0);
    assert_eq!(img.width, 64);
    assert_eq!(img.height, 64);

    // Exactly one camera and one canvas reference the source.
    assert_eq!(world.cameras_targeting(e), 1);
    assert_eq!(world.canvases_targeting(e), 1);

    // The camera got the first order handed out: -1.
    let mut camera_order = None;
    let mut quad_size = None;
    for i in 0..world.len() {
        let node = world.node(i);
        if node.camera_target == Some(e) {
            camera_order = Some(node.camera.unwrap().order);
            assert!(node.pixelation_layer);
            assert_eq!(node.camera.unwrap().image, 0);
        }
        if let Some(mesh_id) = node.mesh {
            if i != e {
                if let MeshData::Quad { size } = meshes.get(mesh_id) {
                    quad_size = Some(size);
                }
            }
        }
    }
    assert_eq!(camera_order, Some(-1));
    // The canvas quad is twice the bounding radius: 2x2 for radius 1.
    assert_eq!(quad_size, Some(2));

    // The source sits on the private layer with its radius cached.
    let src = world.node(e);
    assert!(src.pixelation_layer);
    assert_eq!(src.cached_radius, Some(1));
    assert_eq!(PIXELATION_RENDER_LAYER, 1);
}

#[test]
fn concurrent_rigs_get_distinct_decreasing_orders() {
    let mut world = World::new();
    let mut meshes = MeshAssets::new();
    let mut images = ImageAssets::new();
    let mut materials = MaterialAssets::new();
    let mut ordering = CameraOrdering::new();
    let spawner = SceneSpawner::new();
    let mut pending = ToPixelate::new();

    let mut sources = Vec::new();
    for _ in 0..3 {
        let m = meshes.insert_loaded(2);
        let e = world.spawn(None);
        world.set_mesh(e, Some(m));
        world.insert_pixelate(e, Pixelate::splat(32));
        sources.push(e);
    }
    mark_for_pixelation(&mut pending, &sources);
    let batch = get_ready_pixelation_targets(&world, &meshes, &spawner, &mut pending).unwrap();
    assert_eq!(batch.len(), 3);
    add_pixelation(&mut world, &mut meshes, &mut images, &mut materials, &mut ordering, &batch)
        .unwrap();

    let mut orders = Vec::new();
    for i in 0..world.len() {
        let node = world.node(i);
        if node.camera_target.is_some() {
            orders.push(node.camera.unwrap().order);
        }
    }
    // Three distinct, strictly decreasing orders, in resolution order.
    assert_eq!(orders, vec![-1, -2, -3]);
    for e in sources {
        assert_eq!(world.cameras_targeting(e), 1);
        assert_eq!(world.canvases_targeting(e), 1);
    }
}

#[test]
fn canvas_child_carries_quad_and_blended_unlit_material() {
    let mut world = World::new();
    let mut meshes = MeshAssets::new();
    let mut images = ImageAssets::new();
    let mut materials = MaterialAssets::new();
    let mut ordering = CameraOrdering::new();

    let m = meshes.insert_loaded(3);
    let e = world.spawn(None);
    world.set_mesh(e, Some(m));
    world.insert_pixelate(e, Pixelate::splat(16));
    let batch = vec![(
        e,
        PixelationTarget { mesh_handle: m, kind: PixelationTargetKind::Mesh },
    )];
    add_pixelation(&mut world, &mut meshes, &mut images, &mut materials, &mut ordering, &batch)
        .unwrap();

    // Find the canvas and its mesh-bearing child.
    let mut canvas = None;
    for i in 0..world.len() {
        if world.node(i).canvas_target == Some(e) {
            canvas = Some(i);
        }
    }
    let canvas = canvas.unwrap();
    let mut found_child = false;
    for i in 0..world.len() {
        let node = world.node(i);
        if node.parent == Some(canvas) {
            found_child = true;
            assert!(node.rotated_half_turn);
            assert!(node.not_shadow_caster);
            assert!(node.not_shadow_receiver);
            assert!(matches!(meshes.get(node.mesh.unwrap()), MeshData::Quad { size: 6 }));
            let mat = materials.get(node.material.unwrap());
            assert!(mat.unlit);
            assert_eq!(mat.base_color_texture, Some(0));
            assert!(matches!(mat.alpha_mode, pixelate_mesh::assets::AlphaMode::Blend));
        }
    }
    assert!(found_child);
}

#[test]
fn vanished_mesh_is_reported_as_fatal() {
    let mut world = World::new();
    let mut meshes = MeshAssets::new();
    let mut images = ImageAssets::new();
    let mut materials = MaterialAssets::new();
    let mut ordering = CameraOrdering::new();

    let e = world.spawn(None);
    world.insert_pixelate(e, Pixelate::splat(8));
    let batch = vec![(
        e,
        PixelationTarget { mesh_handle: 42, kind: PixelationTargetKind::Mesh },
    )];
    let r = add_pixelation(&mut world, &mut meshes, &mut images, &mut materials, &mut ordering, &batch);
    assert_eq!(r, Err(PixelationError::MissingMesh { entity: e, mesh: 42 }));
    // Nothing was built.
    assert_eq!(world.len(), 1);
    assert_eq!(images.len(), 0);
    assert_eq!(ordering.last_order, 0);
}
