//! The rendering pass: the enabled meshes of the frame are grouped so that the
//! graphics context changes state as seldom as possible, and the groups are
//! handed to the renderer.
//!
//! Switching programs costs most, so meshes are grouped by material first;
//! binding buffers comes next, so by mesh data second. Within one group the
//! meshes keep the order in which they came.

use vstd::prelude::*;
use crate::component::mesh::Mesh;
use crate::renderer::renderer::{frame_plan, RenderCommand, Renderer};
use crate::scene::transform::{SceneTree, TransformId};

verus! {

/// An enabled entity that carries a mesh and a transform.
#[derive(Clone, Copy, Debug, PartialEq, Eq)]
pub struct Renderable {
    pub mesh: Mesh,
    pub transform: TransformId,
}

/// The meshes that share one material and one mesh data: for each, its material
/// instance and its transform.
pub struct MeshDataGroup {
    pub mesh_data: usize,
    pub instances: Vec<(usize, TransformId)>,
}

/// The meshes that share one material, grouped by mesh data.
pub struct MaterialGroup {
    pub material: usize,
    pub meshes: Vec<MeshDataGroup>,
}

/// The meshes of a frame, grouped by material and then by mesh data.
pub type SortedMeshes = Vec<MaterialGroup>;

/// The meshes among `renderables` with the given material and mesh data, in
/// their order: for each, its material instance and its transform.
pub open spec fn leaf_of(renderables: Seq<Renderable>, material: usize, mesh_data: usize) -> Seq<(usize, TransformId)>
    decreases renderables.len(),
{
    if renderables.len() == 0 {
        Seq::empty()
    } else {
        let last = renderables.last();
        let rest = leaf_of(renderables.drop_last(), material, mesh_data);
        if last.mesh.material == material && last.mesh.mesh_data == mesh_data {
            rest.push((last.mesh.material_instance, last.transform))
        } else {
            rest
        }
    }
}

/// The materials of a list of groups, in the order of the list.
pub open spec fn material_keys(groups: Seq<MaterialGroup>) -> Seq<usize> {
    Seq::new(groups.len(), |i: int| groups[i].material)
}

/// The mesh data of a list of groups, in the order of the list.
pub open spec fn mesh_data_keys(groups: Seq<MeshDataGroup>) -> Seq<usize> {
    Seq::new(groups.len(), |i: int| groups[i].mesh_data)
}

/// Whether `group` holds exactly the meshes of `renderables` with its material:
/// one group for each mesh data among them, none empty, each with its meshes in their order.
pub open spec fn group_sorted(group: MaterialGroup, renderables: Seq<Renderable>) -> bool {
    &&& mesh_data_keys(group.meshes@).no_duplicates()
    &&& group.meshes@.len() > 0
    &&& forall|j: int|
        0 <= j < group.meshes@.len() ==> {
            &&& (#[trigger] group.meshes@[j]).instances@ == leaf_of(
                renderables,
                group.material,
                group.meshes@[j].mesh_data,
            )
            &&& group.meshes@[j].instances@.len() > 0
        }
}

/// Whether `groups` is a grouping of `renderables`: one group for each
/// material among them, each sorted by mesh data, and every mesh in the group
/// of its material and its mesh data.
pub open spec fn sorted(groups: Seq<MaterialGroup>, renderables: Seq<Renderable>) -> bool {
    &&& material_keys(groups).no_duplicates()
    &&& forall|i: int| 0 <= i < groups.len() ==> group_sorted(#[trigger] groups[i], renderables)
    &&& forall|k: int|
        0 <= k < renderables.len() ==> has_leaf(
            groups,
            (#[trigger] renderables[k]).mesh.material,
            renderables[k].mesh.mesh_data,
        )
}

/// Whether `groups` has a group for `material` with a group for `mesh_data` in it.
pub open spec fn has_leaf(groups: Seq<MaterialGroup>, material: usize, mesh_data: usize) -> bool {
    exists|i: int, j: int|
        0 <= i < groups.len() && 0 <= j < groups[i].meshes@.len() && (#[trigger] groups[i]).material == material
            && (#[trigger] groups[i].meshes@[j]).mesh_data == mesh_data
}

/// The position of the group of `material`.
fn find_material(groups: &Vec<MaterialGroup>, material: usize) -> (found: Option<usize>)
    ensures
        found.is_some() ==> found.unwrap() < groups@.len() && groups@[found.unwrap() as int].material == material,
        found.is_none() ==> forall|i: int| 0 <= i < groups@.len() ==> (#[trigger] groups@[i]).material != material,
{
    let mut i: usize = 0;
    while i < groups.len()
        invariant
            0 <= i <= groups@.len(),
            forall|k: int| 0 <= k < i ==> (#[trigger] groups@[k]).material != material,
        decreases groups@.len() - i,
    {
        if groups[i].material == material {
            return Some(i);
        }
        i += 1;
    }
    None
}

/// The position of the group of `mesh_data`.
fn find_mesh_data(groups: &Vec<MeshDataGroup>, mesh_data: usize) -> (found: Option<usize>)
    ensures
        found.is_some() ==> found.unwrap() < groups@.len() && groups@[found.unwrap() as int].mesh_data
            == mesh_data,
        found.is_none() ==> forall|i: int| 0 <= i < groups@.len() ==> (#[trigger] groups@[i]).mesh_data != mesh_data,
{
    let mut i: usize = 0;
    while i < groups.len()
        invariant
            0 <= i <= groups@.len(),
            forall|k: int| 0 <= k < i ==> (#[trigger] groups@[k]).mesh_data != mesh_data,
        decreases groups@.len() - i,
    {
        if groups[i].mesh_data == mesh_data {
            return Some(i);
        }
        i += 1;
    }
    None
}

/// Groups the meshes of a frame by material and then by mesh data. No mesh is
/// dropped and none is taken twice; within a group the meshes keep their order.
pub fn sort_meshes(renderables: &Vec<Renderable>) -> (groups: SortedMeshes)
    ensures
        sorted(groups@, renderables@),
{
    let mut groups: Vec<MaterialGroup> = Vec::new();
    let mut k: usize = 0;
    while k < renderables.len()
        invariant
            0 <= k <= renderables@.len(),
            sorted(groups@, renderables@.take(k as int)),
        decreases renderables@.len() - k,
    {
        let ghost before = groups@;
        let ghost seen = renderables@.take(k as int);
        let ghost now = renderables@.take(k as int + 1);
        let renderable = renderables[k];
        let material = renderable.mesh.material;
        let mesh_data = renderable.mesh.mesh_data;
        let entry = (renderable.mesh.material_instance, renderable.transform);
        proof {
            assert(now.drop_last() =~= seen);
            assert(now.last() == renderable);
        }
        match find_material(&groups, material) {
            Some(i) => {
                assert(group_sorted(before[i as int], seen));
                match find_mesh_data(&groups[i].meshes, mesh_data) {
                    Some(j) => {
                        groups[i].meshes[j].instances.push(entry);
                        proof {
                            assert(mesh_data_keys(groups@[i as int].meshes@) =~= mesh_data_keys(before[i as int].meshes@));
                            assert(material_keys(groups@) =~= material_keys(before));
                            lemma_keeps_others(before, groups@, seen, now, i as int);
                            assert(group_sorted(groups@[i as int], now)) by {
                                let g = groups@[i as int];
                                let old_g = before[i as int];
                                assert forall|x: int| 0 <= x < g.meshes@.len() implies {
                                    &&& (#[trigger] g.meshes@[x]).instances@ == leaf_of(now, g.material, g.meshes@[x].mesh_data)
                                    &&& g.meshes@[x].instances@.len() > 0
                                } by {
                                    assert(old_g.meshes@[x].instances@ == leaf_of(seen, old_g.material, old_g.meshes@[x].mesh_data));
                                    if x != j {
                                        assert(g.meshes@[x] == old_g.meshes@[x]);
                                        assert(mesh_data_keys(old_g.meshes@)[x] != mesh_data_keys(old_g.meshes@)[j as int]);
                                    }
                                }
                            }
                            lemma_covers(before, groups@, seen, now, i as int, j as int);
                        }
                    },
                    None => {
                        let mut instances: Vec<(usize, TransformId)> = Vec::new();
                        instances.push(entry);
                        groups[i].meshes.push(MeshDataGroup { mesh_data, instances });
                        proof {
                            let j = before[i as int].meshes@.len() as int;
                            assert(mesh_data_keys(groups@[i as int].meshes@) =~= mesh_data_keys(before[i as int].meshes@).push(
                                mesh_data,
                            ));
                            assert(material_keys(groups@) =~= material_keys(before));
                            lemma_keeps_others(before, groups@, seen, now, i as int);
                            assert forall|x: int, y: int|
                                0 <= x < before.len() && 0 <= y < before[x].meshes@.len() && (
                                #[trigger] before[x]).material == material implies (
                            #[trigger] before[x].meshes@[y]).mesh_data != mesh_data by {
                                if x != i {
                                    assert(material_keys(before)[x] != material_keys(before)[i as int]);
                                }
                            }
                            lemma_unseen_leaf(seen, before, material, mesh_data);
                            assert(group_sorted(groups@[i as int], now)) by {
                                let g = groups@[i as int];
                                let old_g = before[i as int];
                                assert forall|x: int| 0 <= x < g.meshes@.len() implies {
                                    &&& (#[trigger] g.meshes@[x]).instances@ == leaf_of(now, g.material, g.meshes@[x].mesh_data)
                                    &&& g.meshes@[x].instances@.len() > 0
                                } by {
                                    if x < j {
                                        assert(g.meshes@[x] == old_g.meshes@[x]);
                                        assert(old_g.meshes@[x].instances@ == leaf_of(
                                            seen,
                                            old_g.material,
                                            old_g.meshes@[x].mesh_data,
                                        ));
                                    } else {
                                        assert(g.meshes@[x].instances@ =~= seq![entry]);
                                    }
                                }
                            }
                            lemma_covers(before, groups@, seen, now, i as int, j);
                        }
                    },
                }
            },
            None => {
                let mut instances: Vec<(usize, TransformId)> = Vec::new();
                instances.push(entry);
                let mut meshes: Vec<MeshDataGroup> = Vec::new();
                meshes.push(MeshDataGroup { mesh_data, instances });
                groups.push(MaterialGroup { material, meshes });
                proof {
                    let i = before.len() as int;
                    assert(material_keys(groups@) =~= material_keys(before).push(material));
                    lemma_keeps_others(before, groups@, seen, now, i);
                    lemma_unseen_material(seen, before, material, mesh_data);
                    assert(group_sorted(groups@[i], now)) by {
                        let g = groups@[i];
                        assert(mesh_data_keys(g.meshes@) =~= seq![mesh_data]);
                        assert(g.meshes@[0].instances@ =~= seq![entry]);
                    }
                    lemma_covers(before, groups@, seen, now, i, 0);
                }
            },
        }
        k += 1;
    }
    assert(renderables@.take(renderables@.len() as int) =~= renderables@);
    groups
}

/// A mesh that joins group `i` leaves every other group as it is.
proof fn lemma_keeps_others(
    before: Seq<MaterialGroup>,
    after: Seq<MaterialGroup>,
    seen: Seq<Renderable>,
    now: Seq<Renderable>,
    i: int,
)
    requires
        sorted(before, seen),
        now.len() == seen.len() + 1,
        now.drop_last() == seen,
        0 <= i < after.len(),
        after[i].material == now.last().mesh.material,
        before.len() <= after.len() <= before.len() + 1,
        i < before.len() ==> after.len() == before.len(),
        forall|x: int| 0 <= x < before.len() && x != i ==> #[trigger] after[x] == before[x],
        i < before.len() ==> before[i].material == after[i].material,
        material_keys(after).no_duplicates(),
    ensures
        forall|x: int| 0 <= x < after.len() && x != i ==> group_sorted(#[trigger] after[x], now),
{
    assert forall|x: int| 0 <= x < after.len() && x != i implies group_sorted(#[trigger] after[x], now) by {
        let g = after[x];
        assert(group_sorted(before[x], seen));
        assert(material_keys(after)[x] != material_keys(after)[i]);
        assert forall|j: int| 0 <= j < g.meshes@.len() implies {
            &&& (#[trigger] g.meshes@[j]).instances@ == leaf_of(now, g.material, g.meshes@[j].mesh_data)
            &&& g.meshes@[j].instances@.len() > 0
        } by {
            assert(g.meshes@[j].instances@ == leaf_of(seen, g.material, g.meshes@[j].mesh_data));
        }
    }
}

/// A mesh whose material has no group yet has no mesh before it with that material.
proof fn lemma_unseen_material(seen: Seq<Renderable>, groups: Seq<MaterialGroup>, material: usize, mesh_data: usize)
    requires
        sorted(groups, seen),
        forall|i: int| 0 <= i < groups.len() ==> (#[trigger] groups[i]).material != material,
    ensures
        leaf_of(seen, material, mesh_data) == Seq::<(usize, TransformId)>::empty(),
{
    assert(seen =~= seen.take(seen.len() as int));
    lemma_unseen_material_prefix(seen, seen, groups, material, mesh_data);
}

/// The same for a list of meshes of which only the keys are known to have groups.
proof fn lemma_unseen_material_prefix(
    part: Seq<Renderable>,
    seen: Seq<Renderable>,
    groups: Seq<MaterialGroup>,
    material: usize,
    mesh_data: usize,
)
    requires
        part.len() <= seen.len(),
        part == seen.take(part.len() as int),
        forall|k: int|
            0 <= k < seen.len() ==> has_leaf(groups, (#[trigger] seen[k]).mesh.material, seen[k].mesh.mesh_data),
        forall|i: int| 0 <= i < groups.len() ==> (#[trigger] groups[i]).material != material,
    ensures
        leaf_of(part, material, mesh_data) == Seq::<(usize, TransformId)>::empty(),
    decreases part.len(),
{
    if part.len() > 0 {
        let k = part.len() - 1;
        assert(part.last() == seen[k]);
        assert(has_leaf(groups, seen[k].mesh.material, seen[k].mesh.mesh_data));
        assert(part.drop_last() =~= seen.take(k));
        lemma_unseen_material_prefix(part.drop_last(), seen, groups, material, mesh_data);
    }
}

/// A mesh whose mesh data has no group in the group of its material has no mesh
/// before it with that material and that mesh data.
proof fn lemma_unseen_leaf(seen: Seq<Renderable>, groups: Seq<MaterialGroup>, material: usize, mesh_data: usize)
    requires
        sorted(groups, seen),
        forall|i: int, j: int|
            0 <= i < groups.len() && 0 <= j < groups[i].meshes@.len() && (#[trigger] groups[i]).material == material
                ==> (#[trigger] groups[i].meshes@[j]).mesh_data != mesh_data,
    ensures
        leaf_of(seen, material, mesh_data) == Seq::<(usize, TransformId)>::empty(),
{
    assert(seen =~= seen.take(seen.len() as int));
    lemma_unseen_leaf_prefix(seen, seen, groups, material, mesh_data);
}

/// The same for a part of the list.
proof fn lemma_unseen_leaf_prefix(
    part: Seq<Renderable>,
    seen: Seq<Renderable>,
    groups: Seq<MaterialGroup>,
    material: usize,
    mesh_data: usize,
)
    requires
        part.len() <= seen.len(),
        part == seen.take(part.len() as int),
        forall|k: int|
            0 <= k < seen.len() ==> has_leaf(groups, (#[trigger] seen[k]).mesh.material, seen[k].mesh.mesh_data),
        forall|i: int, j: int|
            0 <= i < groups.len() && 0 <= j < groups[i].meshes@.len() && (#[trigger] groups[i]).material == material
                ==> (#[trigger] groups[i].meshes@[j]).mesh_data != mesh_data,
    ensures
        leaf_of(part, material, mesh_data) == Seq::<(usize, TransformId)>::empty(),
    decreases part.len(),
{
    if part.len() > 0 {
        let k = part.len() - 1;
        assert(part.last() == seen[k]);
        assert(has_leaf(groups, seen[k].mesh.material, seen[k].mesh.mesh_data));
        assert(part.drop_last() =~= seen.take(k));
        lemma_unseen_leaf_prefix(part.drop_last(), seen, groups, material, mesh_data);
    }
}

/// Once the new mesh sits in group `j` of group `i`, every mesh has a group for its keys.
proof fn lemma_covers(
    before: Seq<MaterialGroup>,
    after: Seq<MaterialGroup>,
    seen: Seq<Renderable>,
    now: Seq<Renderable>,
    i: int,
    j: int,
)
    requires
        sorted(before, seen),
        now.len() == seen.len() + 1,
        now.drop_last() == seen,
        0 <= i < after.len(),
        0 <= j < after[i].meshes@.len(),
        after[i].material == now.last().mesh.material,
        after[i].meshes@[j].mesh_data == now.last().mesh.mesh_data,
        before.len() <= after.len(),
        forall|x: int| 0 <= x < before.len() && x != i ==> #[trigger] after[x] == before[x],
        i < before.len() ==> {
            &&& before[i].material == after[i].material
            &&& before[i].meshes@.len() <= after[i].meshes@.len()
            &&& forall|y: int|
                0 <= y < before[i].meshes@.len() ==> (#[trigger] after[i].meshes@[y]).mesh_data
                    == before[i].meshes@[y].mesh_data
        },
    ensures
        forall|k: int|
            0 <= k < now.len() ==> has_leaf(after, (#[trigger] now[k]).mesh.material, now[k].mesh.mesh_data),
{
    assert forall|k: int| 0 <= k < now.len() implies has_leaf(
        after,
        (#[trigger] now[k]).mesh.material,
        now[k].mesh.mesh_data,
    ) by {
        if k < seen.len() {
            assert(now[k] == seen[k]);
            assert(has_leaf(before, seen[k].mesh.material, seen[k].mesh.mesh_data));
            let (x, y) = choose|x: int, y: int|
                0 <= x < before.len() && 0 <= y < before[x].meshes@.len() && (#[trigger] before[x]).material
                    == seen[k].mesh.material && (#[trigger] before[x].meshes@[y]).mesh_data == seen[k].mesh.mesh_data;
            if x == i {
                assert(after[x].meshes@[y].mesh_data == before[x].meshes@[y].mesh_data);
            } else {
                assert(after[x] == before[x]);
            }
            assert(after[x].material == now[k].mesh.material && after[x].meshes@[y].mesh_data == now[k].mesh.mesh_data);
        } else {
            assert(now[k] == now.last());
            assert(after[i].material == now[k].mesh.material && after[i].meshes@[j].mesh_data == now[k].mesh.mesh_data);
        }
    }
}


/// The materials of a list of meshes, in the order of the list.
pub open spec fn materials_of(renderables: Seq<Renderable>) -> Seq<usize> {
    Seq::new(renderables.len(), |k: int| renderables[k].mesh.material)
}

/// Number of meshes in the groups of one material.
pub open spec fn group_count(meshes: Seq<MeshDataGroup>) -> nat
    decreases meshes.len(),
{
    if meshes.len() == 0 {
        0
    } else {
        group_count(meshes.drop_last()) + meshes.last().instances@.len()
    }
}

/// Number of meshes in all groups.
pub open spec fn total_count(groups: Seq<MaterialGroup>) -> nat
    decreases groups.len(),
{
    if groups.len() == 0 {
        0
    } else {
        total_count(groups.drop_last()) + group_count(groups.last().meshes@)
    }
}

/// Number of meshes of `renderables` with material `material` and a mesh data among `keys`.
spec fn keyed_count(keys: Seq<usize>, material: usize, renderables: Seq<Renderable>) -> nat
    decreases keys.len(),
{
    if keys.len() == 0 {
        0
    } else {
        keyed_count(keys.drop_last(), material, renderables) + leaf_of(renderables, material, keys.last()).len()
    }
}

/// Number of meshes of `renderables` that some group has a place for.
spec fn placed_count(groups: Seq<MaterialGroup>, renderables: Seq<Renderable>) -> nat
    decreases groups.len(),
{
    if groups.len() == 0 {
        0
    } else {
        placed_count(groups.drop_last(), renderables) + keyed_count(
            mesh_data_keys(groups.last().meshes@),
            groups.last().material,
            renderables,
        )
    }
}

/// One more mesh adds one to the count of a list of keys that holds its mesh
/// data, under its material, and nothing to any other.
proof fn lemma_keyed_count_step(keys: Seq<usize>, material: usize, renderables: Seq<Renderable>)
    requires
        keys.no_duplicates(),
        renderables.len() > 0,
    ensures
        keyed_count(keys, material, renderables) == keyed_count(keys, material, renderables.drop_last()) + (if material
            == renderables.last().mesh.material && keys.contains(renderables.last().mesh.mesh_data) {
            1nat
        } else {
            0nat
        }),
    decreases keys.len(),
{
    if keys.len() > 0 {
        let rest = keys.drop_last();
        let wanted = renderables.last().mesh.mesh_data;
        assert(rest.no_duplicates());
        lemma_keyed_count_step(rest, material, renderables);
        if keys.contains(wanted) {
            let at = choose|at: int| 0 <= at < keys.len() && keys[at] == wanted;
            if at < rest.len() {
                assert(rest[at] == wanted);
                assert(keys.last() != wanted);
            } else {
                if rest.contains(wanted) {
                    let other = choose|other: int| 0 <= other < rest.len() && rest[other] == wanted;
                    assert(keys[other] == wanted);
                }
            }
        } else {
            if rest.contains(wanted) {
                let other = choose|other: int| 0 <= other < rest.len() && rest[other] == wanted;
                assert(keys[other] == wanted);
            }
            assert(keys[keys.len() - 1] != wanted);
        }
    }
}

/// One more mesh adds one to the count of the groups if they have a place for it, nothing otherwise.
proof fn lemma_placed_count_step(groups: Seq<MaterialGroup>, renderables: Seq<Renderable>)
    requires
        material_keys(groups).no_duplicates(),
        forall|i: int| 0 <= i < groups.len() ==> mesh_data_keys((#[trigger] groups[i]).meshes@).no_duplicates(),
        renderables.len() > 0,
    ensures
        placed_count(groups, renderables) == placed_count(groups, renderables.drop_last()) + (if has_leaf(
            groups,
            renderables.last().mesh.material,
            renderables.last().mesh.mesh_data,
        ) {
            1nat
        } else {
            0nat
        }),
    decreases groups.len(),
{
    let material = renderables.last().mesh.material;
    let mesh_data = renderables.last().mesh.mesh_data;
    if groups.len() > 0 {
        let rest = groups.drop_last();
        let last = groups.last();
        let n = groups.len() - 1;
        assert(material_keys(rest) =~= material_keys(groups).drop_last());
        assert(material_keys(rest).no_duplicates());
        assert forall|i: int| 0 <= i < rest.len() implies mesh_data_keys((#[trigger] rest[i]).meshes@).no_duplicates() by {
            assert(rest[i] == groups[i]);
        }
        lemma_placed_count_step(rest, renderables);
        lemma_keyed_count_step(mesh_data_keys(last.meshes@), last.material, renderables);
        let here = last.material == material && mesh_data_keys(last.meshes@).contains(mesh_data);
        if here {
            let y = choose|y: int|
                0 <= y < mesh_data_keys(last.meshes@).len() && mesh_data_keys(last.meshes@)[y] == mesh_data;
            assert(groups[n].material == material && groups[n].meshes@[y].mesh_data == mesh_data);
            assert(has_leaf(groups, material, mesh_data));
            if has_leaf(rest, material, mesh_data) {
                let (x, z) = choose|x: int, z: int|
                    0 <= x < rest.len() && 0 <= z < rest[x].meshes@.len() && (#[trigger] rest[x]).material == material
                        && (#[trigger] rest[x].meshes@[z]).mesh_data == mesh_data;
                assert(material_keys(groups)[x] == material_keys(groups)[n]);
            }
        } else {
            if has_leaf(groups, material, mesh_data) {
                let (x, z) = choose|x: int, z: int|
                    0 <= x < groups.len() && 0 <= z < groups[x].meshes@.len() && (#[trigger] groups[x]).material
                        == material && (#[trigger] groups[x].meshes@[z]).mesh_data == mesh_data;
                if x == n {
                    assert(mesh_data_keys(last.meshes@)[z] == mesh_data);
                }
                assert(rest[x].material == material && rest[x].meshes@[z].mesh_data == mesh_data);
                assert(has_leaf(rest, material, mesh_data));
            } else {
                if has_leaf(rest, material, mesh_data) {
                    let (x, z) = choose|x: int, z: int|
                        0 <= x < rest.len() && 0 <= z < rest[x].meshes@.len() && (#[trigger] rest[x]).material
                            == material && (#[trigger] rest[x].meshes@[z]).mesh_data == mesh_data;
                    assert(groups[x].material == material && groups[x].meshes@[z].mesh_data == mesh_data);
                }
            }
        }
    } else {
        if has_leaf(groups, material, mesh_data) {
        }
    }
}

/// Groups that have a place for every mesh of a list hold as many places as the list has meshes.
proof fn lemma_placed_count(groups: Seq<MaterialGroup>, renderables: Seq<Renderable>)
    requires
        material_keys(groups).no_duplicates(),
        forall|i: int| 0 <= i < groups.len() ==> mesh_data_keys((#[trigger] groups[i]).meshes@).no_duplicates(),
        forall|k: int|
            0 <= k < renderables.len() ==> has_leaf(
                groups,
                (#[trigger] renderables[k]).mesh.material,
                renderables[k].mesh.mesh_data,
            ),
    ensures
        placed_count(groups, renderables) == renderables.len(),
    decreases renderables.len(),
{
    if renderables.len() == 0 {
        lemma_nothing_placed(groups, renderables);
    } else {
        let rest = renderables.drop_last();
        assert forall|k: int| 0 <= k < rest.len() implies has_leaf(
            groups,
            (#[trigger] rest[k]).mesh.material,
            rest[k].mesh.mesh_data,
        ) by {
            assert(rest[k] == renderables[k]);
        }
        lemma_placed_count(groups, rest);
        lemma_placed_count_step(groups, renderables);
        assert(renderables.last() == renderables[renderables.len() - 1]);
    }
}

/// No mesh, no place taken.
proof fn lemma_nothing_placed(groups: Seq<MaterialGroup>, renderables: Seq<Renderable>)
    requires
        renderables.len() == 0,
    ensures
        placed_count(groups, renderables) == 0,
    decreases groups.len(),
{
    if groups.len() > 0 {
        lemma_nothing_placed(groups.drop_last(), renderables);
        lemma_nothing_keyed(mesh_data_keys(groups.last().meshes@), groups.last().material, renderables);
    }
}

/// No mesh, no key taken.
proof fn lemma_nothing_keyed(keys: Seq<usize>, material: usize, renderables: Seq<Renderable>)
    requires
        renderables.len() == 0,
    ensures
        keyed_count(keys, material, renderables) == 0,
    decreases keys.len(),
{
    if keys.len() > 0 {
        lemma_nothing_keyed(keys.drop_last(), material, renderables);
    }
}

/// The groups of one sorted material hold as many meshes as the list has for their keys.
proof fn lemma_group_count(meshes: Seq<MeshDataGroup>, material: usize, renderables: Seq<Renderable>)
    requires
        forall|j: int|
            0 <= j < meshes.len() ==> (#[trigger] meshes[j]).instances@ == leaf_of(
                renderables,
                material,
                meshes[j].mesh_data,
            ),
    ensures
        group_count(meshes) == keyed_count(mesh_data_keys(meshes), material, renderables),
    decreases meshes.len(),
{
    if meshes.len() > 0 {
        let rest = meshes.drop_last();
        assert forall|j: int| 0 <= j < rest.len() implies (#[trigger] rest[j]).instances@ == leaf_of(
            renderables,
            material,
            rest[j].mesh_data,
        ) by {
            assert(rest[j] == meshes[j]);
        }
        lemma_group_count(rest, material, renderables);
        assert(mesh_data_keys(rest) =~= mesh_data_keys(meshes).drop_last());
        assert(mesh_data_keys(meshes).last() == meshes.last().mesh_data);
        assert(meshes.last() == meshes[meshes.len() - 1]);
    }
}

/// Sorted groups hold as many meshes as they have places for.
proof fn lemma_total_is_placed(groups: Seq<MaterialGroup>, renderables: Seq<Renderable>)
    requires
        forall|i: int| 0 <= i < groups.len() ==> group_sorted(#[trigger] groups[i], renderables),
    ensures
        total_count(groups) == placed_count(groups, renderables),
    decreases groups.len(),
{
    if groups.len() > 0 {
        let rest = groups.drop_last();
        assert forall|i: int| 0 <= i < rest.len() implies group_sorted(#[trigger] rest[i], renderables) by {
            assert(rest[i] == groups[i]);
        }
        lemma_total_is_placed(rest, renderables);
        assert(group_sorted(groups[groups.len() - 1], renderables));
        lemma_group_count(groups.last().meshes@, groups.last().material, renderables);
    }
}

/// A group that is not empty holds a mesh of the list.
proof fn lemma_leaf_has_mesh(renderables: Seq<Renderable>, material: usize, mesh_data: usize)
    requires
        leaf_of(renderables, material, mesh_data).len() > 0,
    ensures
        materials_of(renderables).contains(material),
    decreases renderables.len(),
{
    if renderables.len() > 0 {
        let last = renderables.last();
        if last.mesh.material == material {
            assert(materials_of(renderables)[renderables.len() - 1] == material);
        } else {
            lemma_leaf_has_mesh(renderables.drop_last(), material, mesh_data);
            let k = choose|k: int|
                0 <= k < materials_of(renderables.drop_last()).len() && materials_of(renderables.drop_last())[k]
                    == material;
            assert(materials_of(renderables)[k] == material);
        }
    }
}

/// Draw grouping round-trip. Grouping a list of meshes gives one group for each
/// material that occurs in the list, and all groups together hold as many meshes
/// as the list has: none is dropped, none is taken twice.
pub proof fn lemma_grouping_round_trip(groups: Seq<MaterialGroup>, renderables: Seq<Renderable>)
    requires
        sorted(groups, renderables),
    ensures
        material_keys(groups).to_set() == materials_of(renderables).to_set(),
        groups.len() == materials_of(renderables).to_set().len(),
        total_count(groups) == renderables.len(),
{
    let keys = material_keys(groups);
    let materials = materials_of(renderables);
    assert forall|m: usize| keys.to_set().contains(m) <==> materials.to_set().contains(m) by {
        if keys.contains(m) {
            let i = choose|i: int| 0 <= i < keys.len() && keys[i] == m;
            assert(group_sorted(groups[i], renderables));
            let first = groups[i].meshes@[0];
            assert(first.instances@.len() > 0);
            lemma_leaf_has_mesh(renderables, m, first.mesh_data);
        }
        if materials.contains(m) {
            let k = choose|k: int| 0 <= k < materials.len() && materials[k] == m;
            assert(has_leaf(groups, renderables[k].mesh.material, renderables[k].mesh.mesh_data));
            let (x, y) = choose|x: int, y: int|
                0 <= x < groups.len() && 0 <= y < groups[x].meshes@.len() && (#[trigger] groups[x]).material
                    == renderables[k].mesh.material && (#[trigger] groups[x].meshes@[y]).mesh_data
                    == renderables[k].mesh.mesh_data;
            assert(keys[x] == m);
        }
    }
    assert(keys.to_set() =~= materials.to_set());
    keys.unique_seq_to_set();
    assert forall|i: int| 0 <= i < groups.len() implies mesh_data_keys((#[trigger] groups[i]).meshes@).no_duplicates() by {
        assert(group_sorted(groups[i], renderables));
    }
    lemma_total_is_placed(groups, renderables);
    lemma_placed_count(groups, renderables);
}


/// The pass that draws the enabled meshes of the scene.
pub struct RenderingSystem<T> {
    renderer: Renderer<T>,
}

impl<T> RenderingSystem<T> {
    pub closed spec fn renderer_view(&self) -> Renderer<T> {
        self.renderer
    }

    pub fn new(renderer: Renderer<T>) -> (system: RenderingSystem<T>)
        ensures
            system.renderer_view() == renderer,
    {
        RenderingSystem { renderer }
    }

    /// The renderer of the pass.
    pub fn get_renderer(&self) -> (renderer: &Renderer<T>)
        ensures
            *renderer == self.renderer_view(),
    {
        &self.renderer
    }

    /// The renderer of the pass, to register assets or to resize the drawing surface.
    pub fn get_renderer_mut(&mut self) -> (renderer: &mut Renderer<T>)
        ensures
            *renderer == old(self).renderer_view(),
            final(self).renderer_view() == *final(renderer),
    {
        &mut self.renderer
    }

    /// Gives the renderer back.
    pub fn into_renderer(self) -> (renderer: Renderer<T>)
        ensures
            renderer == self.renderer_view(),
    {
        self.renderer
    }

    /// Runs the pass: groups the enabled meshes of the frame and lists the
    /// commands that draw the groups. The list is that of some grouping of the
    /// meshes; in which order the materials, and the mesh data of one material,
    /// come is not laid down.
    pub fn run<V, M>(&mut self, renderables: &Vec<Renderable>, tree: &SceneTree<V, M>) -> (commands: Vec<
        RenderCommand,
    >)
        ensures
            final(self).renderer_view() == old(self).renderer_view(),
            exists|groups: Seq<MaterialGroup>| #[trigger]
                sorted(groups, renderables@) && commands@ == frame_plan(
                    &old(self).renderer_view().registry(),
                    tree,
                    groups,
                ),
    {
        let sorted_meshes = sort_meshes(renderables);
        let commands = self.renderer.render_objects(&sorted_meshes, tree);
        assert(sorted(sorted_meshes@, renderables@));
        commands
    }
}

} // verus!
