//! Layer tagging and shadow duplication.

use pixelate_mesh::assets::{AlphaMode, MaterialAssets, MeshAssets, SceneSpawner};
use pixelate_mesh::ready_checks::{PixelationTarget, PixelationTargetKind};
use pixelate_mesh::recursive_layering::recursively_set_layer;
use pixelate_mesh::shadow::{
    add_shadow_caster, create_shadow_material, set_scene_shadow, SetSceneShadow,
};
use pixelate_mesh::world::World;
use pixelate_mesh::Pixelate;

#[test]
fn mesh_target_tags_exactly_its_meshed_descendants() {
    let mut world = World::new();
    let mut meshes = MeshAssets::new();
    let spawner = SceneSpawner::new();

    let m = meshes.insert_loaded(1);
    let e = world.spawn(None);
    world.set_mesh(e, Some(m));
    world.insert_pixelate(e, Pixelate::splat(64));
    let meshed_child = world.spawn(Some(e));
    world.set_mesh(meshed_child, Some(m));
    let bare_child = world.spawn(Some(e));
    let meshed_grandchild = world.spawn(Some(bare_child));
    world.set_mesh(meshed_grandchild, Some(m));
    let unrelated = world.spawn(None);
    world.set_mesh(unrelated, Some(m));

    let batch = vec![(
        e,
        PixelationTarget { mesh_handle: m, kind: PixelationTargetKind::Mesh },
    )];
    recursively_set_layer(&mut world, &spawner, &batch);

    assert!(world.node(meshed_child).pixelation_layer);
    assert!(world.node(meshed_grandchild).pixelation_layer);
    assert!(!world.node(bare_child).pixelation_layer);
    assert!(!world.node(unrelated).pixelation_layer);
}

#[test]
fn retagging_changes_nothing() {
    let mut world = World::new();
    let mut meshes = MeshAssets::new();
    let spawner = SceneSpawner::new();

    let m = meshes.insert_loaded(1);
    let e = world.spawn(None);
    world.set_mesh(e, Some(m));
    let child = world.spawn(Some(e));
    world.set_mesh(child, Some(m));

    let batch = vec![(
        e,
        PixelationTarget { mesh_handle: m, kind: PixelationTargetKind::Mesh },
    )];
    recursively_set_layer(&mut world, &spawner, &batch);
    let before: Vec<bool> = (0..world.len()).map(|i| world.node(i).pixelation_layer).collect();
    recursively_set_layer(&mut world, &spawner, &batch);
    let after: Vec<bool> = (0..world.len()).map(|i| world.node(i).pixelation_layer).collect();
    assert_eq!(before, after);
    assert_eq!(world.len(), before.len());
}

#[test]
fn scene_target_tags_its_instance_members() {
    let mut world = World::new();
    let mut meshes = MeshAssets::new();
    let mut spawner = SceneSpawner::new();

    let m = meshes.insert_loaded(1);
    let e = world.spawn(None);
    world.set_scene(e, Some(9));
    let member = world.spawn(Some(e));
    world.set_mesh(member, Some(m));
    let bare_member = world.spawn(Some(e));
    let outsider = world.spawn(None);
    world.set_mesh(outsider, Some(m));

    let inst = spawner.spawn(9, None);
    world.set_scene_instance(e, Some(inst));
    spawner.mark_ready(inst, vec![member, bare_member]);

    let batch = vec![(
        e,
        PixelationTarget { mesh_handle: m, kind: PixelationTargetKind::Scene },
    )];
    recursively_set_layer(&mut world, &spawner, &batch);

    assert!(world.node(member).pixelation_layer);
    assert!(!world.node(bare_member).pixelation_layer);
    assert!(!world.node(outsider).pixelation_layer);
}

#[test]
fn mesh_shadow_clones_the_hierarchy_with_shadow_material() {
    let mut world = World::new();
    let mut meshes = MeshAssets::new();
    let mut materials = MaterialAssets::new();
    let mut spawner = SceneSpawner::new();
    let mut waiting = SetSceneShadow::new();

    let shadow_mat = create_shadow_material(&mut materials);
    let m1 = meshes.insert_loaded(1);
    let m2 = meshes.insert_loaded(2);
    let e = world.spawn(None);
    world.set_mesh(e, Some(m1));
    let child = world.spawn(Some(e));
    world.set_mesh(child, Some(m2));
    let bare = world.spawn(Some(child));
    let len_before = world.len();

    let batch = vec![(
        e,
        PixelationTarget { mesh_handle: m1, kind: PixelationTargetKind::Mesh },
    )];
    add_shadow_caster(&mut world, &mut spawner, &mut waiting, shadow_mat, &batch);

    // One shadow root plus one clone per subtree member (e, child, bare).
    assert_eq!(world.len(), len_before + 4);
    let root = len_before;
    assert_eq!(world.node(root).parent, Some(e));
    assert_eq!(world.node(root).mesh, None);
    let clone_e = root + 1;
    let clone_child = root + 2;
    let clone_bare = root + 3;
    assert_eq!(world.node(clone_e).parent, Some(root));
    assert_eq!(world.node(clone_e).mesh, Some(m1));
    assert_eq!(world.node(clone_e).material, Some(shadow_mat));
    assert_eq!(world.node(clone_child).parent, Some(clone_e));
    assert_eq!(world.node(clone_child).mesh, Some(m2));
    assert_eq!(world.node(clone_child).material, Some(shadow_mat));
    assert_eq!(world.node(clone_bare).parent, Some(clone_child));
    assert_eq!(world.node(clone_bare).mesh, None);
    assert_eq!(world.node(clone_bare).material, None);
}

#[test]
fn scene_shadow_waits_for_its_duplicate_instance() {
    let mut world = World::new();
    let mut meshes = MeshAssets::new();
    let mut materials = MaterialAssets::new();
    let mut spawner = SceneSpawner::new();
    let mut waiting = SetSceneShadow::new();

    let shadow_mat = create_shadow_material(&mut materials);
    let m = meshes.insert_loaded(1);
    let e = world.spawn(None);
    world.set_scene(e, Some(5));
    let first_inst = spawner.spawn(5, None);
    world.set_scene_instance(e, Some(first_inst));

    let batch = vec![(
        e,
        PixelationTarget { mesh_handle: m, kind: PixelationTargetKind::Scene },
    )];
    add_shadow_caster(&mut world, &mut spawner, &mut waiting, shadow_mat, &batch);

    // A second, independent instance of the same scene, under the source.
    assert_eq!(spawner.len(), 2);
    let dup = 1;
    assert_eq!(spawner.instance(dup).scene, 5);
    assert_eq!(spawner.instance(dup).parent, Some(e));
    assert!(!spawner.instance(dup).ready);
    assert_eq!(waiting.len(), 1);
    assert_eq!(waiting.get(0), dup);

    // Not ready yet: the pass changes nothing and keeps waiting.
    set_scene_shadow(&mut world, &spawner, shadow_mat, &mut waiting);
    assert_eq!(waiting.len(), 1);

    // The duplicate finishes spawning with one meshed member.
    let member = world.spawn(Some(e));
    world.set_mesh(member, Some(m));
    spawner.mark_ready(dup, vec![member]);
    set_scene_shadow(&mut world, &spawner, shadow_mat, &mut waiting);
    assert_eq!(waiting.len(), 0);
    assert_eq!(world.node(member).material, Some(shadow_mat));
    assert!(world.node(member).not_shadow_receiver);
}

#[test]
fn shadow_material_is_invisible_but_masking() {
    let mut materials = MaterialAssets::new();
    let id = create_shadow_material(&mut materials);
    let mat = materials.get(id);
    assert_eq!(mat.base_color_texture, None);
    assert!(mat.base_color_transparent);
    assert!(mat.unlit);
    assert!(matches!(mat.alpha_mode, AlphaMode::MaskFull));
}
