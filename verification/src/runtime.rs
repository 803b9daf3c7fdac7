//! Per-frame runtime: rig synchronization, resolution changes, visibility
//! restriction, and teardown.
//!
//! Every frame, each auxiliary camera is re-aimed at its source from the
//! primary viewer's angle and each canvas turns to face the viewer; a rig
//! whose source is gone is despawned in the same pass. A changed pixelation
//! request gets a fresh off-screen buffer with camera and canvas rebound to
//! it, and the reaper despawns the rig of every object whose request was
//! removed.

use vstd::prelude::*;

use crate::world::{has_ancestor, in_subtree, killed, lemma_has_ancestor_same_parents, EntityId,
    Node, World};

verus! {

/// Camera distance factor, in tenths: the auxiliary camera sits at
/// `bounding_radius * DISTANCE_FACTOR_TENTHS / 10` from the source, far
/// enough to frame the object whatever its orientation. The canvas offset
/// is the bounding radius itself.
pub const DISTANCE_FACTOR_TENTHS: u64 = 32;

/// One placement directive of a sync pass: the rig object to move, its
/// source, and the source's cached bounding radius. For an auxiliary camera
/// the placement is a viewer-angle look-at from `radius *
/// DISTANCE_FACTOR_TENTHS / 10` behind the source; for a canvas it is a
/// billboard turn towards the viewer offset by `radius`.
#[derive(Debug, Copy, Clone, PartialEq, Eq, Structural)]
pub struct RigPlacement {
    /// The camera or canvas to place.
    pub rig: EntityId,
    /// Its source object.
    pub source: EntityId,
    /// The source's cached bounding-sphere radius.
    pub radius: u32,
}

/// The back-reference a sync pass follows: camera targets on the camera
/// pass, canvas targets on the canvas pass.
pub open spec fn rig_target(n: Node, cameras: bool) -> Option<EntityId> {
    if cameras {
        n.camera_target
    } else {
        n.canvas_target
    }
}

/// Whether node `i` is a live rig object of the given pass.
pub open spec fn is_live_rig(nodes: Seq<Node>, cameras: bool, i: int) -> bool {
    &&& 0 <= i < nodes.len()
    &&& nodes[i].alive
    &&& rig_target(nodes[i], cameras) is Some
}

/// Whether the rig's source is available this frame: it exists, lives, and
/// its bounding radius is cached.
pub open spec fn rig_source_ok(nodes: Seq<Node>, cameras: bool, i: int) -> bool {
    let t = rig_target(nodes[i], cameras).unwrap();
    &&& t < nodes.len()
    &&& nodes[t as int].alive
    &&& nodes[t as int].cached_radius is Some
}

/// Whether node `i` is a rig object whose source is gone or unusable.
pub open spec fn stale_rig(nodes: Seq<Node>, cameras: bool, i: int) -> bool {
    is_live_rig(nodes, cameras, i) && !rig_source_ok(nodes, cameras, i)
}

/// The placements a sync pass emits for the rigs below `upto`, in index
/// order: one per live rig whose source is available.
pub open spec fn rig_placements(nodes: Seq<Node>, cameras: bool, upto: int) -> Seq<RigPlacement>
    decreases upto,
{
    if upto <= 0 {
        Seq::empty()
    } else {
        let rest = rig_placements(nodes, cameras, upto - 1);
        let i = upto - 1;
        if is_live_rig(nodes, cameras, i) && rig_source_ok(nodes, cameras, i) {
            let t = rig_target(nodes[i], cameras).unwrap();
            rest.push(
                RigPlacement {
                    rig: i as usize,
                    source: t,
                    radius: nodes[t as int].cached_radius.unwrap(),
                },
            )
        } else {
            rest
        }
    }
}

/// The source of a stale rig, when it still exists and only its radius is
/// missing; a despawn pass removes such a remnant too.
pub open spec fn live_target_opt(nodes: Seq<Node>, cameras: bool, i: int) -> Option<EntityId> {
    let t = rig_target(nodes[i], cameras).unwrap();
    if t < nodes.len() && nodes[t as int].alive {
        Some(t)
    } else {
        None
    }
}

/// Whether a sync pass despawns object `j`: it lies in the subtree of some
/// stale rig, or in the subtree of such a rig's still-existing source.
pub open spec fn rig_kill_due(nodes: Seq<Node>, cameras: bool, j: int) -> bool {
    exists|i: int|
        #[trigger] stale_rig(nodes, cameras, i) && (in_subtree(nodes, j, i) || (live_target_opt(
            nodes,
            cameras,
            i,
        ) matches Some(t) && in_subtree(nodes, j, t as int)))
}

/// The world after a sync pass's despawns.
pub open spec fn rigs_synced(nodes: Seq<Node>, cameras: bool) -> Seq<Node> {
    Seq::new(
        nodes.len(),
        |j: int|
            if rig_kill_due(nodes, cameras, j) {
                killed(nodes[j])
            } else {
                nodes[j]
            },
    )
}

/// The stale rigs below `upto`, each with its still-existing source if any:
/// the despawn work of one sync pass.
pub open spec fn stale_rig_pairs(nodes: Seq<Node>, cameras: bool, upto: int) -> Seq<
    (EntityId, Option<EntityId>),
>
    decreases upto,
{
    if upto <= 0 {
        Seq::empty()
    } else {
        let rest = stale_rig_pairs(nodes, cameras, upto - 1);
        let i = upto - 1;
        if stale_rig(nodes, cameras, i) {
            rest.push((i as usize, live_target_opt(nodes, cameras, i)))
        } else {
            rest
        }
    }
}

/// Every pair is a stale rig with its remnant source, and every stale rig
/// below `upto` has its pair.
proof fn lemma_stale_pairs(nodes: Seq<Node>, cameras: bool, upto: int)
    requires
        nodes.len() <= usize::MAX,
    ensures
        forall|w: int|
            0 <= w < stale_rig_pairs(nodes, cameras, upto).len() ==> {
                let pr = #[trigger] stale_rig_pairs(nodes, cameras, upto)[w];
                &&& stale_rig(nodes, cameras, pr.0 as int)
                &&& pr.1 == live_target_opt(nodes, cameras, pr.0 as int)
            },
        forall|i: int|
            0 <= i < upto && #[trigger] stale_rig(nodes, cameras, i) ==> exists|w: int|
                0 <= w < stale_rig_pairs(nodes, cameras, upto).len() && stale_rig_pairs(
                    nodes,
                    cameras,
                    upto,
                )[w].0 == i,
    decreases upto,
{
    if upto > 0 {
        lemma_stale_pairs(nodes, cameras, upto - 1);
        let rest = stale_rig_pairs(nodes, cameras, upto - 1);
        let cur = stale_rig_pairs(nodes, cameras, upto);
        assert forall|i: int|
            0 <= i < upto && #[trigger] stale_rig(nodes, cameras, i) implies exists|w: int|
            0 <= w < cur.len() && cur[w].0 == i by {
            if i < upto - 1 {
                let w = choose|w: int| 0 <= w < rest.len() && rest[w].0 == i;
                assert(cur[w].0 == i);
            } else {
                let pr = (i as usize, live_target_opt(nodes, cameras, i));
                assert(cur == rest.push(pr));
                assert(rest.push(pr)[rest.len() as int] == pr);
                assert(cur[cur.len() - 1].0 == i);
            }
        }
    }
}

/// Whether one recorded despawn pair removes object `j`.
pub open spec fn pair_kills(nodes: Seq<Node>, pr: (EntityId, Option<EntityId>), j: int) -> bool {
    in_subtree(nodes, j, pr.0 as int) || (pr.1 matches Some(t) && in_subtree(nodes, j, t as int))
}

/// Whether some recorded despawn pair removes object `j`.
pub open spec fn pairs_kill(
    nodes: Seq<Node>,
    pairs: Seq<(EntityId, Option<EntityId>)>,
    j: int,
) -> bool {
    exists|w: int| 0 <= w < pairs.len() && pair_kills(nodes, #[trigger] pairs[w], j)
}

/// Working through all recorded pairs removes exactly what the pass owes.
proof fn lemma_pairs_kill_all(nodes: Seq<Node>, cameras: bool, j: int)
    requires
        nodes.len() <= usize::MAX,
    ensures
        pairs_kill(nodes, stale_rig_pairs(nodes, cameras, nodes.len() as int), j) == rig_kill_due(
            nodes,
            cameras,
            j,
        ),
{
    let pairs = stale_rig_pairs(nodes, cameras, nodes.len() as int);
    lemma_stale_pairs(nodes, cameras, nodes.len() as int);
    if pairs_kill(nodes, pairs, j) {
        let w = choose|w: int| 0 <= w < pairs.len() && pair_kills(nodes, #[trigger] pairs[w], j);
        assert(stale_rig(nodes, cameras, pairs[w].0 as int));
    }
    if rig_kill_due(nodes, cameras, j) {
        let i = choose|i: int|
            #[trigger] stale_rig(nodes, cameras, i) && (in_subtree(nodes, j, i) || (
            live_target_opt(nodes, cameras, i) matches Some(t) && in_subtree(nodes, j, t as int)));
        let w = choose|w: int| 0 <= w < pairs.len() && pairs[w].0 == i;
        assert(pair_kills(nodes, pairs[w], j));
    }
}

/// One sync pass: collects the placements of the live rigs whose sources
/// are available and despawns the stale rigs with their remnant sources.
fn sync_rig_pass(world: &mut World, do_place: bool, do_kills: bool, cameras: bool) -> (placements:
    Vec<RigPlacement>)
    requires
        old(world).wf(),
    ensures
        final(world).wf(),
        placements@ == (if do_place {
            rig_placements(old(world)@, cameras, old(world)@.len() as int)
        } else {
            Seq::<RigPlacement>::empty()
        }),
        final(world)@ == (if do_kills {
            rigs_synced(old(world)@, cameras)
        } else {
            old(world)@
        }),
{
    let ghost nodes0 = world@;
    let len = world.len();
    let mut placements: Vec<RigPlacement> = Vec::new();
    let mut kills: Vec<(EntityId, Option<EntityId>)> = Vec::new();
    let mut i: usize = 0;
    while i < len
        invariant
            world.wf(),
            world@ == nodes0,
            len == nodes0.len(),
            i <= len,
            placements@ == (if do_place {
                rig_placements(nodes0, cameras, i as int)
            } else {
                Seq::<RigPlacement>::empty()
            }),
            kills@ == stale_rig_pairs(nodes0, cameras, i as int),
        decreases len - i,
    {
        let node = world.node(i);
        let topt = if cameras {
            node.camera_target
        } else {
            node.canvas_target
        };
        if node.alive {
            match topt {
                Some(t) => {
                    let mut ok = false;
                    let mut talive = false;
                    if t < len {
                        let tn = world.node(t);
                        talive = tn.alive;
                        ok = tn.alive && tn.cached_radius.is_some();
                    }
                    if ok {
                        if do_place {
                            let radius = match world.node(t).cached_radius {
                                Some(r) => r,
                                None => 0,
                            };
                            placements.push(RigPlacement { rig: i, source: t, radius });
                        }
                    } else {
                        kills.push((i, if talive { Some(t) } else { None }));
                    }
                },
                None => {},
            }
        }
        i = i + 1;
    }
    if do_kills {
        let ghost pairs = kills@;
        let n = kills.len();
        let mut q: usize = 0;
        proof {
            lemma_stale_pairs(nodes0, cameras, len as int);
        }
        while q < n
            invariant
                world.wf(),
                world@.len() == len == nodes0.len(),
                n == pairs.len(),
                q <= n,
                kills@ == pairs,
                pairs == stale_rig_pairs(nodes0, cameras, len as int),
                forall|w: int|
                    0 <= w < pairs.len() ==> {
                        let pr = #[trigger] pairs[w];
                        &&& pr.0 < len
                        &&& (pr.1 matches Some(t) ==> t < len)
                    },
                forall|x: int| 0 <= x < len ==> (#[trigger] world@[x]).parent == nodes0[x].parent,
                forall|j: int|
                    0 <= j < len ==> world@[j] == (if pairs_kill(nodes0, pairs.take(q as int), j) {
                        killed(nodes0[j])
                    } else {
                        nodes0[j]
                    }),
            decreases n - q,
        {
            let ghost mid = world@;
            proof {
                assert(pairs.take(q as int + 1).drop_last() =~= pairs.take(q as int));
                assert(pairs.take(q as int + 1).last() == pairs[q as int]);
            }
            let (c, topt) = kills[q];
            world.despawn_recursive(c);
            let ghost mid2 = world@;
            proof {
                assert forall|j: int| 0 <= j < len implies mid2[j] == (if (pairs_kill(
                    nodes0,
                    pairs.take(q as int),
                    j,
                ) || in_subtree(nodes0, j, c as int)) {
                    killed(nodes0[j])
                } else {
                    nodes0[j]
                }) by {
                    lemma_has_ancestor_same_parents(mid, nodes0, j, c as int);
                }
            }
            match topt {
                Some(t) => {
                    world.despawn_recursive(t);
                    proof {
                        assert forall|j: int| 0 <= j < len implies world@[j] == (if (pairs_kill(
                            nodes0,
                            pairs.take(q as int),
                            j,
                        ) || pair_kills(nodes0, pairs[q as int], j)) {
                            killed(nodes0[j])
                        } else {
                            nodes0[j]
                        }) by {
                            lemma_has_ancestor_same_parents(mid2, nodes0, j, t as int);
                        }
                    }
                },
                None => {},
            }
            proof {
                assert forall|j: int| 0 <= j < len implies world@[j] == (if pairs_kill(
                    nodes0,
                    pairs.take(q as int + 1),
                    j,
                ) {
                    killed(nodes0[j])
                } else {
                    nodes0[j]
                }) by {
                    let shorter = pairs.take(q as int);
                    let longer = pairs.take(q as int + 1);
                    if pairs_kill(nodes0, longer, j) {
                        let w = choose|w: int|
                            0 <= w < longer.len() && pair_kills(nodes0, #[trigger] longer[w], j);
                        if w < q {
                            assert(pair_kills(nodes0, shorter[w], j));
                        }
                    }
                    if pairs_kill(nodes0, shorter, j) {
                        let w = choose|w: int|
                            0 <= w < shorter.len() && pair_kills(nodes0, #[trigger] shorter[w], j);
                        assert(pair_kills(nodes0, longer[w], j));
                    }
                    if pair_kills(nodes0, pairs[q as int], j) {
                        assert(pair_kills(nodes0, longer[q as int], j));
                    }
                }
            }
            q = q + 1;
        }
        proof {
            assert(pairs.take(n as int) =~= pairs);
            assert forall|j: int| 0 <= j < len implies world@[j] == rigs_synced(nodes0, cameras)[j] by {
                lemma_pairs_kill_all(nodes0, cameras, j);
            }
            assert(world@ =~= rigs_synced(nodes0, cameras));
        }
    }
    placements
}

/// The camera sync pass. With the primary viewer present it emits, for each
/// live auxiliary camera whose source still exists with a cached radius,
/// the placement directive aiming the camera at the source from the
/// viewer's angle at `radius * DISTANCE_FACTOR_TENTHS / 10`; a camera whose
/// source is gone or unusable is despawned together with what remains of
/// that source. Without the primary viewer nothing happens.
pub fn sync_cameras(world: &mut World, primary_present: bool) -> (placements: Vec<RigPlacement>)
    requires
        old(world).wf(),
    ensures
        final(world).wf(),
        !primary_present ==> final(world)@ == old(world)@ && placements@ == Seq::<
            RigPlacement,
        >::empty(),
        primary_present ==> {
            &&& placements@ == rig_placements(old(world)@, true, old(world)@.len() as int)
            &&& final(world)@ == rigs_synced(old(world)@, true)
        },
{
    if primary_present {
        sync_rig_pass(world, true, true, true)
    } else {
        Vec::new()
    }
}

/// The canvas sync pass. With the primary viewer present it emits, for each
/// live canvas whose source still exists with a cached radius, the
/// placement directive turning the canvas towards the viewer offset by the
/// radius. A canvas whose source is gone or unusable is despawned together
/// with what remains of that source, whether or not a viewer exists.
pub fn position_canvas(world: &mut World, primary_present: bool) -> (placements: Vec<RigPlacement>)
    requires
        old(world).wf(),
    ensures
        final(world).wf(),
        placements@ == (if primary_present {
            rig_placements(old(world)@, false, old(world)@.len() as int)
        } else {
            Seq::<RigPlacement>::empty()
        }),
        final(world)@ == rigs_synced(old(world)@, false),
{
    sync_rig_pass(world, primary_present, true, false)
}

/// Whether node `i` is a live rig object — camera or canvas — whose back
/// reference names a removed request.
pub open spec fn rig_for_removed(nodes: Seq<Node>, removed: Seq<EntityId>, i: int) -> bool {
    &&& 0 <= i < nodes.len()
    &&& nodes[i].alive
    &&& ((nodes[i].canvas_target matches Some(t) && removed.contains(t)) || (
    nodes[i].camera_target matches Some(t) && removed.contains(t)))
}

/// Whether the reaper despawns object `j`: it lies in the subtree of a rig
/// whose source lost its pixelation request.
pub open spec fn reaper_kill_due(nodes: Seq<Node>, removed: Seq<EntityId>, j: int) -> bool {
    exists|i: int| #[trigger] rig_for_removed(nodes, removed, i) && in_subtree(nodes, j, i)
}

/// The world after the reaper ran for the given removals.
pub open spec fn reaped(nodes: Seq<Node>, removed: Seq<EntityId>) -> Seq<Node> {
    Seq::new(
        nodes.len(),
        |j: int|
            if reaper_kill_due(nodes, removed, j) {
                killed(nodes[j])
            } else {
                nodes[j]
            },
    )
}

/// The rigs the reaper owes a despawn, below `upto`, in index order.
pub open spec fn removed_rigs(nodes: Seq<Node>, removed: Seq<EntityId>, upto: int) -> Seq<EntityId>
    decreases upto,
{
    if upto <= 0 {
        Seq::empty()
    } else {
        let rest = removed_rigs(nodes, removed, upto - 1);
        if rig_for_removed(nodes, removed, upto - 1) {
            rest.push((upto - 1) as usize)
        } else {
            rest
        }
    }
}

/// Every listed rig is owed a despawn, and every rig owed one is listed.
proof fn lemma_removed_rigs(nodes: Seq<Node>, removed: Seq<EntityId>, upto: int)
    requires
        nodes.len() <= usize::MAX,
    ensures
        forall|w: int|
            0 <= w < removed_rigs(nodes, removed, upto).len() ==> rig_for_removed(
                nodes,
                removed,
                #[trigger] removed_rigs(nodes, removed, upto)[w] as int,
            ),
        forall|i: int|
            0 <= i < upto && #[trigger] rig_for_removed(nodes, removed, i) ==> exists|w: int|
                0 <= w < removed_rigs(nodes, removed, upto).len() && removed_rigs(
                    nodes,
                    removed,
                    upto,
                )[w] == i,
    decreases upto,
{
    if upto > 0 {
        lemma_removed_rigs(nodes, removed, upto - 1);
        let rest = removed_rigs(nodes, removed, upto - 1);
        let cur = removed_rigs(nodes, removed, upto);
        assert forall|i: int|
            0 <= i < upto && #[trigger] rig_for_removed(nodes, removed, i) implies exists|w: int|
            0 <= w < cur.len() && cur[w] == i by {
            if i < upto - 1 {
                let w = choose|w: int| 0 <= w < rest.len() && rest[w] == i;
                assert(cur[w] == i);
            } else {
                assert(cur == rest.push((upto - 1) as usize));
                assert(rest.push((upto - 1) as usize)[rest.len() as int] == (upto - 1) as usize);
            }
        }
    }
}

/// Whether some listed despawn removes object `j`.
pub open spec fn list_kills(nodes: Seq<Node>, list: Seq<EntityId>, j: int) -> bool {
    exists|w: int| 0 <= w < list.len() && in_subtree(nodes, j, #[trigger] list[w] as int)
}

/// Working through the whole list removes exactly what the reaper owes.
proof fn lemma_list_kills_all(nodes: Seq<Node>, removed: Seq<EntityId>, j: int)
    requires
        nodes.len() <= usize::MAX,
    ensures
        list_kills(nodes, removed_rigs(nodes, removed, nodes.len() as int), j) == reaper_kill_due(
            nodes,
            removed,
            j,
        ),
{
    let list = removed_rigs(nodes, removed, nodes.len() as int);
    lemma_removed_rigs(nodes, removed, nodes.len() as int);
    if list_kills(nodes, list, j) {
        let w = choose|w: int| 0 <= w < list.len() && in_subtree(nodes, j, #[trigger] list[w] as int);
        assert(rig_for_removed(nodes, removed, list[w] as int));
    }
    if reaper_kill_due(nodes, removed, j) {
        let i = choose|i: int| #[trigger] rig_for_removed(nodes, removed, i) && in_subtree(nodes, j, i);
        let w = choose|w: int| 0 <= w < list.len() && list[w] == i;
        assert(in_subtree(nodes, j, list[w] as int));
    }
}

/// The lifecycle reaper: for every object whose pixelation request was
/// removed this frame, despawns every canvas and every auxiliary camera
/// whose back-reference names it, with all their descendants. Removing an
/// already-removed request changes nothing.
pub fn despawn_dependent_types(world: &mut World, removed: &Vec<EntityId>)
    requires
        old(world).wf(),
    ensures
        final(world).wf(),
        final(world)@ == reaped(old(world)@, removed@),
{
    let ghost nodes0 = world@;
    let len = world.len();
    let mut kills: Vec<EntityId> = Vec::new();
    let mut i: usize = 0;
    while i < len
        invariant
            world.wf(),
            world@ == nodes0,
            len == nodes0.len(),
            i <= len,
            kills@ == removed_rigs(nodes0, removed@, i as int),
        decreases len - i,
    {
        let node = world.node(i);
        let mut hit = false;
        if node.alive {
            match node.canvas_target {
                Some(t) => {
                    if contains_entity(removed, t) {
                        hit = true;
                    }
                },
                None => {},
            }
            match node.camera_target {
                Some(t) => {
                    if contains_entity(removed, t) {
                        hit = true;
                    }
                },
                None => {},
            }
        }
        if hit {
            kills.push(i);
        }
        i = i + 1;
    }
    let ghost list = kills@;
    let n = kills.len();
    let mut q: usize = 0;
    proof {
        lemma_removed_rigs(nodes0, removed@, len as int);
        assert(list.take(0) =~= Seq::<EntityId>::empty());
    }
    while q < n
        invariant
            world.wf(),
            world@.len() == len == nodes0.len(),
            n == list.len(),
            q <= n,
            kills@ == list,
            list == removed_rigs(nodes0, removed@, len as int),
            forall|w: int| 0 <= w < list.len() ==> #[trigger] list[w] < len,
            forall|x: int| 0 <= x < len ==> (#[trigger] world@[x]).parent == nodes0[x].parent,
            forall|j: int|
                0 <= j < len ==> world@[j] == (if list_kills(nodes0, list.take(q as int), j) {
                    killed(nodes0[j])
                } else {
                    nodes0[j]
                }),
        decreases n - q,
    {
        let ghost mid = world@;
        proof {
            assert(list.take(q as int + 1).drop_last() =~= list.take(q as int));
            assert(list.take(q as int + 1).last() == list[q as int]);
        }
        let c = kills[q];
        world.despawn_recursive(c);
        proof {
            assert forall|j: int| 0 <= j < len implies world@[j] == (if list_kills(
                nodes0,
                list.take(q as int + 1),
                j,
            ) {
                killed(nodes0[j])
            } else {
                nodes0[j]
            }) by {
                lemma_has_ancestor_same_parents(mid, nodes0, j, c as int);
                let shorter = list.take(q as int);
                let longer = list.take(q as int + 1);
                if list_kills(nodes0, longer, j) {
                    let w = choose|w: int|
                        0 <= w < longer.len() && in_subtree(nodes0, j, #[trigger] longer[w] as int);
                    if w < q {
                        assert(in_subtree(nodes0, j, shorter[w] as int));
                    }
                }
                if list_kills(nodes0, shorter, j) {
                    let w = choose|w: int|
                        0 <= w < shorter.len() && in_subtree(nodes0, j, #[trigger] shorter[w] as int);
                    assert(in_subtree(nodes0, j, longer[w] as int));
                }
                if in_subtree(nodes0, j, c as int) {
                    assert(in_subtree(nodes0, j, longer[q as int] as int));
                }
            }
        }
        q = q + 1;
    }
    proof {
        assert(list.take(n as int) =~= list);
        assert forall|j: int| 0 <= j < len implies world@[j] == reaped(nodes0, removed@)[j] by {
            lemma_list_kills_all(nodes0, removed@, j);
        }
        assert(world@ =~= reaped(nodes0, removed@));
    }
}

/// Whether the list of objects names `e`.
fn contains_entity(list: &Vec<EntityId>, e: EntityId) -> (r: bool)
    ensures
        r == list@.contains(e),
{
    let len = list.len();
    let mut i: usize = 0;
    while i < len
        invariant
            len == list@.len(),
            i <= len,
            forall|k: int| 0 <= k < i ==> list@[k] != e,
        decreases len - i,
    {
        if list[i] == e {
            return true;
        }
        i = i + 1;
    }
    false
}

/// After the reaper ran, no auxiliary camera and no canvas references an
/// object whose pixelation request was removed.
pub proof fn lemma_reaper_clears_rigs(nodes: Seq<Node>, removed: Seq<EntityId>, t: EntityId)
    requires
        removed.contains(t),
    ensures
        crate::world::count_cameras_for(reaped(nodes, removed), t) == 0,
        crate::world::count_canvases_for(reaped(nodes, removed), t) == 0,
{
    let after = reaped(nodes, removed);
    assert forall|i: int|
        0 <= i < after.len() implies !crate::world::is_camera_for(#[trigger] after[i], t)
        && !crate::world::is_canvas_for(after[i], t) by {
        if crate::world::is_camera_for(after[i], t) || crate::world::is_canvas_for(after[i], t) {
            assert(after[i].alive);
            assert(after[i] == nodes[i]);
            assert(rig_for_removed(nodes, removed, i));
            assert(in_subtree(nodes, i, i));
            assert(reaper_kill_due(nodes, removed, i));
            assert(false);
        }
    }
    crate::world::lemma_count_nodes_zero(after, |n: Node| crate::world::is_camera_for(n, t), after.len() as int);
    crate::world::lemma_count_nodes_zero(after, |n: Node| crate::world::is_canvas_for(n, t), after.len() as int);
}

/// Reaping twice for the same removals is a no-op: the second pass finds no
/// rig left to despawn.
pub proof fn lemma_reaper_idempotent(nodes: Seq<Node>, removed: Seq<EntityId>)
    ensures
        reaped(reaped(nodes, removed), removed) == reaped(nodes, removed),
{
    let once = reaped(nodes, removed);
    assert forall|j: int| 0 <= j < once.len() implies reaped(once, removed)[j] == once[j] by {
        if reaper_kill_due(once, removed, j) {
            let i = choose|i: int|
                #[trigger] rig_for_removed(once, removed, i) && in_subtree(once, j, i);
            assert(once[i].alive);
            assert(once[i] == nodes[i]);
            assert(rig_for_removed(nodes, removed, i));
            assert(in_subtree(nodes, i, i));
            assert(reaper_kill_due(nodes, removed, i));
            assert(false);
        }
    }
    assert(reaped(once, removed) =~= once);
}

/// A source object that was itself despawned does not keep its rig for more
/// than the frame's sync passes: after the camera pass and the canvas pass,
/// no live auxiliary camera and no live canvas references it.
pub proof fn lemma_orphans_reaped_within_frame(nodes: Seq<Node>, t: EntityId)
    requires
        t < nodes.len() ==> !nodes[t as int].alive,
    ensures
        crate::world::count_cameras_for(rigs_synced(rigs_synced(nodes, true), false), t) == 0,
        crate::world::count_canvases_for(rigs_synced(rigs_synced(nodes, true), false), t) == 0,
{
    let w1 = rigs_synced(nodes, true);
    let w2 = rigs_synced(w1, false);
    assert forall|i: int|
        0 <= i < w2.len() implies !crate::world::is_camera_for(#[trigger] w2[i], t)
        && !crate::world::is_canvas_for(w2[i], t) by {
        if crate::world::is_canvas_for(w2[i], t) {
            assert(w2[i].alive);
            assert(w2[i] == w1[i]);
            assert(stale_rig(w1, false, i));
            assert(in_subtree(w1, i, i));
            assert(rig_kill_due(w1, false, i));
            assert(false);
        }
        if crate::world::is_camera_for(w2[i], t) {
            assert(w2[i] == w1[i]);
            assert(w1[i].alive);
            assert(w1[i] == nodes[i]);
            assert(stale_rig(nodes, true, i));
            assert(in_subtree(nodes, i, i));
            assert(rig_kill_due(nodes, true, i));
            assert(false);
        }
    }
    crate::world::lemma_count_nodes_zero(w2, |n: Node| crate::world::is_camera_for(n, t), w2.len() as int);
    crate::world::lemma_count_nodes_zero(w2, |n: Node| crate::world::is_canvas_for(n, t), w2.len() as int);
}

/// Whether node `n` is a live auxiliary camera of source `t` with its
/// render settings present.
pub open spec fn is_camera_rig_for(n: Node, t: EntityId) -> bool {
    n.alive && n.camera_target == Some(t) && n.camera is Some
}

/// The first live, settings-bearing auxiliary camera of source `t` at or
/// after position `from`.
pub open spec fn first_camera_rig(nodes: Seq<Node>, t: EntityId, from: int) -> Option<int>
    decreases nodes.len() - from,
{
    if from < 0 || from >= nodes.len() {
        None
    } else if is_camera_rig_for(nodes[from], t) {
        Some(from)
    } else {
        first_camera_rig(nodes, t, from + 1)
    }
}

/// The first live canvas of source `t` at or after position `from`.
pub open spec fn first_canvas_rig(nodes: Seq<Node>, t: EntityId, from: int) -> Option<int>
    decreases nodes.len() - from,
{
    if from < 0 || from >= nodes.len() {
        None
    } else if crate::world::is_canvas_for(nodes[from], t) {
        Some(from)
    } else {
        first_canvas_rig(nodes, t, from + 1)
    }
}

/// The first live, material-bearing direct child of `c` at or after
/// position `from`: the canvas mesh whose material shows the buffer.
pub open spec fn first_material_child(nodes: Seq<Node>, c: int, from: int) -> Option<int>
    decreases nodes.len() - from,
{
    if from < 0 || from >= nodes.len() {
        None
    } else if nodes[from].alive && nodes[from].parent == Some(c as usize) && nodes[from].material
        is Some {
        Some(from)
    } else {
        first_material_child(nodes, c, from + 1)
    }
}

/// A found camera rig lies in range and is one.
pub proof fn lemma_first_camera_rig_bounds(nodes: Seq<Node>, t: EntityId, from: int)
    ensures
        first_camera_rig(nodes, t, from) matches Some(i) ==> from <= i < nodes.len()
            && is_camera_rig_for(nodes[i], t),
    decreases nodes.len() - from,
{
    if 0 <= from < nodes.len() && !is_camera_rig_for(nodes[from], t) {
        lemma_first_camera_rig_bounds(nodes, t, from + 1);
    }
}

/// A found canvas lies in range and is one.
pub proof fn lemma_first_canvas_rig_bounds(nodes: Seq<Node>, t: EntityId, from: int)
    ensures
        first_canvas_rig(nodes, t, from) matches Some(i) ==> from <= i < nodes.len()
            && crate::world::is_canvas_for(nodes[i], t),
    decreases nodes.len() - from,
{
    if 0 <= from < nodes.len() && !crate::world::is_canvas_for(nodes[from], t) {
        lemma_first_canvas_rig_bounds(nodes, t, from + 1);
    }
}

/// A found canvas child lies in range and bears a material.
pub proof fn lemma_first_material_child_bounds(nodes: Seq<Node>, c: int, from: int)
    ensures
        first_material_child(nodes, c, from) matches Some(i) ==> from <= i < nodes.len()
            && nodes[i].material is Some,
    decreases nodes.len() - from,
{
    if 0 <= from < nodes.len() && !(nodes[from].alive && nodes[from].parent == Some(c as usize)
        && nodes[from].material is Some) {
        lemma_first_material_child_bounds(nodes, c, from + 1);
    }
}

/// Everything a resolution change touches, gathered for its contract.
pub struct UpdateState {
    /// The scene world.
    pub nodes: Seq<Node>,
    /// The off-screen buffers.
    pub images: Seq<crate::assets::ImageData>,
    /// The materials.
    pub materials: Seq<crate::assets::MaterialData>,
}

/// What one changed request does: if the object still has a request, a
/// camera rig, a canvas, and a material-bearing canvas child, a fresh
/// buffer is allocated at the new resolution, the camera renders into it,
/// and the canvas child gets a fresh material sampling it. No new rig
/// objects appear. An object missing any of these is left alone.
pub open spec fn update_one(state: UpdateState, e: EntityId) -> UpdateState {
    if e < state.nodes.len() && state.nodes[e as int].pixelate is Some {
        let cam_opt = first_camera_rig(state.nodes, e, 0);
        let cv_opt = first_canvas_rig(state.nodes, e, 0);
        if cam_opt is Some && cv_opt is Some {
            let cam = cam_opt.unwrap();
            let ch_opt = first_material_child(state.nodes, cv_opt.unwrap(), 0);
            if ch_opt is Some {
                let ch = ch_opt.unwrap();
                let px = state.nodes[e as int].pixelate.unwrap();
                let img = state.images.len() as usize;
                let mat = state.materials.len() as usize;
                let n1 = state.nodes.update(
                    cam,
                    Node {
                        camera: Some(
                            crate::world::CameraSettings {
                                order: state.nodes[cam].camera.unwrap().order,
                                image: img,
                            },
                        ),
                        ..state.nodes[cam]
                    },
                );
                UpdateState {
                    nodes: n1.update(ch, Node { material: Some(mat), ..n1[ch] }),
                    images: state.images.push(
                        crate::assets::ImageData {
                            width: px.horizontal_pixels,
                            height: px.vertical_pixels,
                        },
                    ),
                    materials: state.materials.push(crate::creation::canvas_material_data(img)),
                }
            } else {
                state
            }
        } else {
            state
        }
    } else {
        state
    }
}

/// The state after working through every changed request, in order.
pub open spec fn update_batch(state: UpdateState, changed: Seq<EntityId>) -> UpdateState
    decreases changed.len(),
{
    if changed.len() == 0 {
        state
    } else {
        update_one(update_batch(state, changed.drop_last()), changed.last())
    }
}

/// Finds the first live, settings-bearing auxiliary camera of source `t`.
fn find_camera_rig(world: &World, t: EntityId) -> (r: Option<EntityId>)
    ensures
        r matches Some(i) ==> i < world@.len() && first_camera_rig(world@, t, 0) == Some(i as int),
        r is None ==> first_camera_rig(world@, t, 0) is None,
{
    let len = world.len();
    let mut i: usize = 0;
    while i < len
        invariant
            len == world@.len(),
            i <= len,
            first_camera_rig(world@, t, 0) == first_camera_rig(world@, t, i as int),
        decreases len - i,
    {
        let node = world.node(i);
        if node.alive && node.camera.is_some() {
            match node.camera_target {
                Some(x) => {
                    if x == t {
                        return Some(i);
                    }
                },
                None => {},
            }
        }
        i = i + 1;
    }
    None
}

/// Finds the first live canvas of source `t`.
fn find_canvas_rig(world: &World, t: EntityId) -> (r: Option<EntityId>)
    ensures
        r matches Some(i) ==> i < world@.len() && first_canvas_rig(world@, t, 0) == Some(i as int),
        r is None ==> first_canvas_rig(world@, t, 0) is None,
{
    let len = world.len();
    let mut i: usize = 0;
    while i < len
        invariant
            len == world@.len(),
            i <= len,
            first_canvas_rig(world@, t, 0) == first_canvas_rig(world@, t, i as int),
        decreases len - i,
    {
        let node = world.node(i);
        if node.alive {
            match node.canvas_target {
                Some(x) => {
                    if x == t {
                        return Some(i);
                    }
                },
                None => {},
            }
        }
        i = i + 1;
    }
    None
}

/// Finds the first live, material-bearing direct child of `c`.
fn find_material_child(world: &World, c: EntityId) -> (r: Option<EntityId>)
    ensures
        r matches Some(i) ==> i < world@.len() && first_material_child(world@, c as int, 0) == Some(i as int),
        r is None ==> first_material_child(world@, c as int, 0) is None,
{
    let len = world.len();
    let mut i: usize = 0;
    while i < len
        invariant
            len == world@.len(),
            i <= len,
            first_material_child(world@, c as int, 0) == first_material_child(
                world@,
                c as int,
                i as int,
            ),
        decreases len - i,
    {
        let node = world.node(i);
        if node.alive && node.material.is_some() {
            match node.parent {
                Some(p) => {
                    if p == c {
                        return Some(i);
                    }
                },
                None => {},
            }
        }
        i = i + 1;
    }
    None
}

/// Applies every changed pixelation request: for each listed object that
/// still has its request and a complete rig, a fresh off-screen buffer at
/// the new resolution replaces the old one, the auxiliary camera renders
/// into it, and the canvas child gets a fresh material sampling it. No rig
/// is created or destroyed.
pub fn update_pixelation(
    world: &mut World,
    images: &mut crate::assets::ImageAssets,
    materials: &mut crate::assets::MaterialAssets,
    changed: &Vec<EntityId>,
)
    requires
        old(world).wf(),
    ensures
        final(world).wf(),
        ({
            let done = update_batch(
                UpdateState {
                    nodes: old(world)@,
                    images: old(images)@,
                    materials: old(materials)@,
                },
                changed@,
            );
            &&& final(world)@ == done.nodes
            &&& final(images)@ == done.images
            &&& final(materials)@ == done.materials
        }),
{
    let ghost start = UpdateState { nodes: old(world)@, images: old(images)@, materials: old(materials)@ };
    let n = changed.len();
    let mut k: usize = 0;
    while k < n
        invariant
            world.wf(),
            n == changed@.len(),
            k <= n,
            update_batch(start, changed@.take(k as int)) == (UpdateState {
                nodes: world@,
                images: images@,
                materials: materials@,
            }),
        decreases n - k,
    {
        proof {
            assert(changed@.take(k as int + 1).drop_last() =~= changed@.take(k as int));
            assert(changed@.take(k as int + 1).last() == changed@[k as int]);
        }
        let ghost prev = UpdateState { nodes: world@, images: images@, materials: materials@ };
        let e = changed[k];
        if e < world.len() {
            let px_opt = world.node(e).pixelate;
            match px_opt {
                Some(px) => {
                    match find_camera_rig(world, e) {
                        Some(cam) => {
                            match find_canvas_rig(world, e) {
                                Some(cv) => {
                                    match find_material_child(world, cv) {
                                        Some(ch) => {
                                            proof {
                                                lemma_first_camera_rig_bounds(world@, e, 0);
                                                lemma_first_canvas_rig_bounds(world@, e, 0);
                                                lemma_first_material_child_bounds(
                                                    world@,
                                                    cv as int,
                                                    0,
                                                );
                                            }
                                            let img = crate::creation::create_canvas_image(
                                                images,
                                                px,
                                            );
                                            let order = match world.node(cam).camera {
                                                Some(cs) => cs.order,
                                                None => 0,
                                            };
                                            world.set_camera(
                                                cam,
                                                Some(
                                                    crate::world::CameraSettings {
                                                        order,
                                                        image: img,
                                                    },
                                                ),
                                            );
                                            let mat = crate::creation::create_canvas_material(
                                                materials,
                                                img,
                                            );
                                            world.set_material(ch, Some(mat));
                                            proof {
                                                assert(world@ =~= update_one(
                                                    prev,
                                                    changed@[k as int],
                                                ).nodes);
                                                assert(images@ =~= update_one(
                                                    prev,
                                                    changed@[k as int],
                                                ).images);
                                                assert(materials@ =~= update_one(
                                                    prev,
                                                    changed@[k as int],
                                                ).materials);
                                            }
                                        },
                                        None => {},
                                    }
                                },
                                None => {},
                            }
                        },
                        None => {},
                    }
                },
                None => {},
            }
        }
        proof {
            assert(update_batch(start, changed@.take(k as int + 1)) == (UpdateState {
                nodes: world@,
                images: images@,
                materials: materials@,
            }));
        }
        k = k + 1;
    }
    proof {
        assert(changed@.take(n as int) =~= changed@);
    }
}

/// A resolution change builds no second rig: it spawns and despawns
/// nothing, and every object's camera and canvas counts stay exactly as
/// they were.
pub proof fn lemma_update_preserves_rigs(state: UpdateState, changed: Seq<EntityId>, t: EntityId)
    ensures
        update_batch(state, changed).nodes.len() == state.nodes.len(),
        crate::world::count_cameras_for(update_batch(state, changed).nodes, t)
            == crate::world::count_cameras_for(state.nodes, t),
        crate::world::count_canvases_for(update_batch(state, changed).nodes, t)
            == crate::world::count_canvases_for(state.nodes, t),
    decreases changed.len(),
{
    if changed.len() > 0 {
        lemma_update_preserves_rigs(state, changed.drop_last(), t);
        let prev = update_batch(state, changed.drop_last());
        let e = changed.last();
        let cur = update_one(prev, e);
        if cur != prev {
            lemma_first_camera_rig_bounds(prev.nodes, e, 0);
            lemma_first_canvas_rig_bounds(prev.nodes, e, 0);
            let cam = first_camera_rig(prev.nodes, e, 0).unwrap();
            lemma_first_material_child_bounds(prev.nodes, first_canvas_rig(prev.nodes, e, 0).unwrap() as int, 0);
            let ch = first_material_child(prev.nodes, first_canvas_rig(prev.nodes, e, 0).unwrap(), 0).unwrap();
            let px = prev.nodes[e as int].pixelate.unwrap();
            let img = prev.images.len() as usize;
            let cam_node = Node {
                camera: Some(
                    crate::world::CameraSettings {
                        order: prev.nodes[cam].camera.unwrap().order,
                        image: img,
                    },
                ),
                ..prev.nodes[cam]
            };
            let n1 = prev.nodes.update(cam, cam_node);
            let ch_node = Node { material: Some(prev.materials.len() as usize), ..n1[ch] };
            let pcam: spec_fn(Node) -> bool = |n: Node| crate::world::is_camera_for(n, t);
            let pcan: spec_fn(Node) -> bool = |n: Node| crate::world::is_canvas_for(n, t);
            crate::world::lemma_count_nodes_update(prev.nodes, pcam, cam, cam_node);
            crate::world::lemma_count_nodes_update(prev.nodes, pcan, cam, cam_node);
            crate::world::lemma_count_nodes_update(n1, pcam, ch, ch_node);
            crate::world::lemma_count_nodes_update(n1, pcan, ch, ch_node);
        }
    }
}

/// The visible-set restriction of one auxiliary camera: of the objects the
/// host found visible, keep exactly the camera's source and the source's
/// descendants, in their given order, so the camera never renders
/// unrelated content that shares the private layer.
pub open spec fn visible_restricted(nodes: Seq<Node>, t: EntityId, list: Seq<EntityId>) -> Seq<
    EntityId,
>
    decreases list.len(),
{
    if list.len() == 0 {
        Seq::empty()
    } else {
        let rest = visible_restricted(nodes, t, list.drop_last());
        if list.last() == t || has_ancestor(nodes, list.last() as int, t as int) {
            rest.push(list.last())
        } else {
            rest
        }
    }
}

/// Restricts an auxiliary camera's per-frame visible set to its source
/// object and the source's descendants.
pub fn set_visible(world: &World, target: EntityId, visible: &Vec<EntityId>) -> (r: Vec<EntityId>)
    requires
        world.wf(),
    ensures
        r@ == visible_restricted(world@, target, visible@),
{
    let len = world.len();
    let n = visible.len();
    let mut r: Vec<EntityId> = Vec::new();
    let mut k: usize = 0;
    while k < n
        invariant
            world.wf(),
            len == world@.len(),
            n == visible@.len(),
            k <= n,
            r@ == visible_restricted(world@, target, visible@.take(k as int)),
        decreases n - k,
    {
        proof {
            assert(visible@.take(k as int + 1).drop_last() =~= visible@.take(k as int));
            assert(visible@.take(k as int + 1).last() == visible@[k as int]);
        }
        let e = visible[k];
        let keep = e == target || (e < len && world.is_descendant_of(e, target));
        proof {
            if e >= len {
                assert(!has_ancestor(world@, e as int, target as int));
            }
        }
        if keep {
            r.push(e);
        }
        k = k + 1;
    }
    proof {
        assert(visible@.take(n as int) =~= visible@);
    }
    r
}

/// The restricted visible set holds exactly the listed objects that are the
/// source or one of its descendants — never anything else that happens to
/// share the private layer.
pub proof fn lemma_visible_restricted_exact(
    nodes: Seq<Node>,
    t: EntityId,
    list: Seq<EntityId>,
    e: EntityId,
)
    ensures
        visible_restricted(nodes, t, list).contains(e) == (list.contains(e) && (e == t
            || has_ancestor(nodes, e as int, t as int))),
    decreases list.len(),
{
    if list.len() > 0 {
        lemma_visible_restricted_exact(nodes, t, list.drop_last(), e);
        crate::world::lemma_drop_last_contains(list, e);
        let rest = visible_restricted(nodes, t, list.drop_last());
        if list.last() == t || has_ancestor(nodes, list.last() as int, t as int) {
            crate::world::lemma_push_contains(rest, list.last(), e);
        }
    }
}

} // verus!
