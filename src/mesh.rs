//! Triangle-list mesh fragments and their concatenation.
use vstd::prelude::*;
use crate::geom::Vec3;

verus! {

/// Largest number of vertices a mesh may hold: indices are `u32`.
pub const MAX_VERTICES: usize = 0xffff_ffff;

/// A triangle list: one normal and one texture coordinate per position, and
/// three indices into the positions per triangle.
#[derive(Debug)]
pub struct Mesh {
    pub positions: Vec<Vec3>,
    pub normals: Vec<Vec3>,
    pub uvs: Vec<(i64, i64)>,
    pub indices: Vec<u32>,
}

/// What a mesh holds, with indices as integers.
pub struct MeshModel {
    pub positions: Seq<Vec3>,
    pub normals: Seq<Vec3>,
    pub uvs: Seq<(i64, i64)>,
    pub indices: Seq<int>,
}

pub open spec fn index_ints(s: Seq<u32>) -> Seq<int> {
    s.map_values(|i: u32| i as int)
}

pub open spec fn empty_model() -> MeshModel {
    MeshModel {
        positions: Seq::empty(),
        normals: Seq::empty(),
        uvs: Seq::empty(),
        indices: Seq::empty(),
    }
}

/// `b` appended to `a`: the indices of `b` move past the positions of `a`.
pub open spec fn merged(a: MeshModel, b: MeshModel) -> MeshModel {
    MeshModel {
        positions: a.positions + b.positions,
        normals: a.normals + b.normals,
        uvs: a.uvs + b.uvs,
        indices: a.indices + b.indices.map_values(|i: int| i + a.positions.len()),
    }
}

/// Per-vertex attributes line up and every index names a position.
pub open spec fn model_wf(m: MeshModel) -> bool {
    &&& m.normals.len() == m.positions.len()
    &&& m.uvs.len() == m.positions.len()
    &&& m.positions.len() <= MAX_VERTICES
    &&& forall|k: int| 0 <= k < m.indices.len() ==> 0 <= #[trigger] m.indices[k] < m.positions.len()
}

pub proof fn lemma_merged_wf(a: MeshModel, b: MeshModel)
    requires
        model_wf(a),
        model_wf(b),
        a.positions.len() + b.positions.len() <= MAX_VERTICES,
    ensures
        model_wf(merged(a, b)),
{
    let m = merged(a, b);
    assert forall|k: int| 0 <= k < m.indices.len() implies 0 <= #[trigger] m.indices[k]
        < m.positions.len() by {
        if k >= a.indices.len() {
            assert(b.indices[k - a.indices.len()] < b.positions.len());
        }
    }
}

pub proof fn lemma_merged_empty(b: MeshModel)
    ensures
        merged(empty_model(), b) == b,
{
    assert(b.indices.map_values(|i: int| i + 0) =~= b.indices);
    assert(merged(empty_model(), b).positions =~= b.positions);
    assert(merged(empty_model(), b).normals =~= b.normals);
    assert(merged(empty_model(), b).uvs =~= b.uvs);
    assert(merged(empty_model(), b).indices =~= b.indices);
}

impl View for Mesh {
    type V = MeshModel;

    open spec fn view(&self) -> MeshModel {
        MeshModel {
            positions: self.positions@,
            normals: self.normals@,
            uvs: self.uvs@,
            indices: index_ints(self.indices@),
        }
    }
}

impl Mesh {
    pub open spec fn wf(&self) -> bool {
        model_wf(self@)
    }

    pub fn empty() -> (r: Mesh)
        ensures
            r@ == empty_model(),
    {
        let r = Mesh { positions: Vec::new(), normals: Vec::new(), uvs: Vec::new(), indices: Vec::new() };
        assert(r@.indices =~= Seq::<int>::empty());
        r
    }

    pub fn len(&self) -> (r: usize)
        ensures
            r == self@.positions.len(),
    {
        self.positions.len()
    }

    /// Appends `other`, shifting its indices past this mesh's positions.
    pub fn merge(&mut self, other: Mesh)
        requires
            old(self).wf(),
            other.wf(),
            old(self)@.positions.len() + other@.positions.len() <= MAX_VERTICES,
        ensures
            final(self)@ == merged(old(self)@, other@),
            final(self).wf(),
    {
        proof {
            lemma_merged_wf(self@, other@);
        }
        let ghost a = self@;
        let ghost b = other@;
        let Mesh { positions: mut p, normals: mut n, uvs: mut u, indices: idx } = other;
        let ghost bi = index_ints(idx@);
        let offset = self.positions.len() as u32;
        self.positions.append(&mut p);
        self.normals.append(&mut n);
        self.uvs.append(&mut u);
        let ghost start = self.indices@;
        let mut k: usize = 0;
        while k < idx.len()
            invariant
                k <= idx.len(),
                offset == a.positions.len(),
                a.positions.len() + b.positions.len() <= MAX_VERTICES,
                bi == index_ints(idx@),
                bi == b.indices,
                model_wf(b),
                self.positions@ == a.positions + b.positions,
                self.normals@ == a.normals + b.normals,
                self.uvs@ == a.uvs + b.uvs,
                index_ints(self.indices@) == a.indices + bi.take(k as int).map_values(|i: int| i + a.positions.len()),
            decreases idx.len() - k,
        {
            assert(bi[k as int] == idx@[k as int] as int);
            assert(0 <= bi[k as int] < b.positions.len());
            let v = idx[k] + offset;
            let ghost before = self.indices@;
            self.indices.push(v);
            assert(index_ints(self.indices@) =~= index_ints(before).push(v as int));
            assert(index_ints(self.indices@) =~= a.indices + bi.take(k as int + 1).map_values(
                |i: int| i + a.positions.len(),
            ));
            k = k + 1;
        }
        assert(bi.take(idx.len() as int) =~= bi);
    }
}

} // verus!
