//! Meshes as the material rewriter sees them.

use crate::handle_table::BindlessImageHandle;
use crate::image::MeshMaterialMap;
use vstd::prelude::*;

verus! {

/// A material: a list of map slots. Before rewriting a slot holds an index
/// into the map list of the mesh; afterwards it holds the bindless handle of
/// that map.
#[derive(Debug, PartialEq, Eq)]
pub struct MeshMaterial {
    pub maps: Vec<u32>,
}

impl View for MeshMaterial {
    type V = Seq<u32>;

    open spec fn view(&self) -> Seq<u32> {
        self.maps@
    }
}

/// What a slot list becomes when every local index is replaced by the
/// handle at that index.
pub open spec fn resolved_slots(slots: Seq<u32>, handles: Seq<BindlessImageHandle>) -> Seq<u32> {
    Seq::new(slots.len(), |s: int| handles[slots[s] as int].0)
}

/// Every slot of every material is an index below `map_count`.
pub open spec fn slots_in_bounds(materials: Seq<MeshMaterial>, map_count: nat) -> bool {
    forall|m: int, s: int|
        0 <= m < materials.len() && 0 <= s < materials[m]@.len() ==> (#[trigger] materials[m]@[s])
            < map_count
}

/// Replaces, in every material, each scene-local map index by the bindless
/// handle resolved for that map.
///
/// A slot that does not index `mesh_map_gpu_ids` is a mistake of the caller:
/// [`slots_in_bounds`] must hold, and [`check_slots_in_bounds`] tests it.
pub fn rewrite_material_maps(
    materials: &mut Vec<MeshMaterial>,
    mesh_map_gpu_ids: &Vec<BindlessImageHandle>,
)
    requires
        slots_in_bounds(old(materials)@, mesh_map_gpu_ids@.len()),
    ensures
        final(materials)@.len() == old(materials)@.len(),
        forall|m: int|
            0 <= m < old(materials)@.len() ==> (#[trigger] final(materials)@[m])@
                == resolved_slots(old(materials)@[m]@, mesh_map_gpu_ids@),
{
    let mut m: usize = 0;
    while m < materials.len()
        invariant
            materials@.len() == old(materials)@.len(),
            0 <= m <= materials@.len(),
            slots_in_bounds(old(materials)@, mesh_map_gpu_ids@.len()),
            forall|k: int|
                0 <= k < m ==> (#[trigger] materials@[k])@ == resolved_slots(
                    old(materials)@[k]@,
                    mesh_map_gpu_ids@,
                ),
            forall|k: int| m <= k < materials@.len() ==> materials@[k] == old(materials)@[k],
        decreases materials@.len() - m,
    {
        let ghost before = materials@;
        let mut s: usize = 0;
        while s < materials[m].maps.len()
            invariant
                materials@.len() == before.len(),
                before.len() == old(materials)@.len(),
                0 <= m < materials@.len(),
                slots_in_bounds(old(materials)@, mesh_map_gpu_ids@.len()),
                forall|k: int|
                    0 <= k < materials@.len() && k != m ==> #[trigger] materials@[k] == before[k],
                materials@[m as int]@.len() == old(materials)@[m as int]@.len(),
                0 <= s <= materials@[m as int]@.len(),
                forall|t: int|
                    0 <= t < s ==> materials@[m as int]@[t] == mesh_map_gpu_ids@[old(
                        materials,
                    )@[m as int]@[t] as int].0,
                forall|t: int|
                    s <= t < materials@[m as int]@.len() ==> materials@[m as int]@[t] == old(
                        materials,
                    )@[m as int]@[t],
            decreases materials@[m as int]@.len() - s,
        {
            let local = materials[m].maps[s];
            assert(local == old(materials)@[m as int]@[s as int]);
            let handle = mesh_map_gpu_ids[local as usize];
            materials[m].maps[s] = handle.0;
            s += 1;
        }
        assert(materials@[m as int]@ =~= resolved_slots(
            old(materials)@[m as int]@,
            mesh_map_gpu_ids@,
        ));
        assert forall|k: int| 0 <= k < m implies (#[trigger] materials@[k])@ == resolved_slots(
            old(materials)@[k]@,
            mesh_map_gpu_ids@,
        ) by {
            assert(materials@[k] == before[k]);
        }
        m += 1;
    }
}

/// Tests whether every slot of every material is an index below
/// `map_count`.
pub fn check_slots_in_bounds(materials: &Vec<MeshMaterial>, map_count: usize) -> (ok: bool)
    ensures
        ok == slots_in_bounds(materials@, map_count as nat),
{
    let mut m: usize = 0;
    while m < materials.len()
        invariant
            0 <= m <= materials@.len(),
            forall|k: int, t: int|
                0 <= k < m && 0 <= t < materials@[k]@.len() ==> (#[trigger] materials@[k]@[t])
                    < map_count,
        decreases materials@.len() - m,
    {
        let mut s: usize = 0;
        while s < materials[m].maps.len()
            invariant
                0 <= m < materials@.len(),
                0 <= s <= materials@[m as int]@.len(),
                forall|t: int| 0 <= t < s ==> materials@[m as int]@[t] < map_count,
            decreases materials@[m as int]@.len() - s,
        {
            if materials[m].maps[s] as usize >= map_count {
                return false;
            }
            s += 1;
        }
        m += 1;
    }
    true
}

} // verus!
