//! Per-brush build: the collision point set, the collision kind, and one
//! merged render fragment per texture that has a material.
use vstd::prelude::*;
use crate::geom::{up_vector, Vec3};
use crate::mesh::{empty_model, index_ints, lemma_merged_empty, lemma_merged_wf, merged, model_wf, Mesh, MeshModel, MAX_VERTICES};
use crate::props::{classname_of, Properties};
use crate::texture::{foliage, is_foliage, is_non_rendering, non_rendering};

verus! {

/// One face of a brush as the geometry step hands it over. `indices` is
/// `None` when the face has no triangulation.
pub struct Face {
    pub texture: String,
    pub vertices: Vec<Vec3>,
    pub normals: Vec<Vec3>,
    pub uvs: Vec<(i64, i64)>,
    pub indices: Option<Vec<u32>>,
}

/// A texture that has a registered material, with the pixel size of its image.
pub struct TextureInfo {
    pub name: String,
    pub material: u64,
    pub size: (u32, u32),
}

#[derive(Clone, Copy, Debug, PartialEq, Eq, Structural)]
pub enum TriggerKind {
    Multiple,
    Once,
}

/// How the brush's convex volume takes part in physics.
#[derive(Debug)]
pub enum Collision {
    /// Overlap-detecting only; `target` names what the trigger fires.
    Sensor { kind: TriggerKind, target: String },
    /// A solid, static volume.
    Solid,
    /// No collision: the brush is made of foliage only.
    Disabled,
}

/// A merged render fragment of one texture of one brush.
#[derive(Debug)]
pub struct Fragment {
    pub texture: String,
    pub material: u64,
    pub size: (u32, u32),
    pub mesh: Mesh,
}

#[derive(Debug)]
pub struct BrushBuild {
    /// Every vertex of every triangulated face, in face order.
    pub points: Vec<Vec3>,
    pub collision: Collision,
    /// One fragment per drawn texture, in order of first appearance.
    pub fragments: Vec<Fragment>,
}

#[derive(Clone, Copy, Debug, PartialEq, Eq, Structural)]
pub enum BuildError {
    /// A trigger brush has no `target` property.
    MissingTarget,
}

pub open spec fn face_wf(f: Face) -> bool {
    &&& f.normals@.len() == f.vertices@.len()
    &&& f.uvs@.len() == f.vertices@.len()
    &&& f.indices matches Some(idx) ==> forall|k: int|
        0 <= k < idx@.len() ==> (#[trigger] idx@[k]) < f.vertices@.len()
}

pub open spec fn faces_wf(faces: Seq<Face>) -> bool {
    forall|i: int| 0 <= i < faces.len() ==> face_wf(#[trigger] faces[i])
}

pub open spec fn total_vertices(faces: Seq<Face>) -> int
    decreases faces.len(),
{
    if faces.len() == 0 {
        0
    } else {
        total_vertices(faces.drop_last()) + faces.last().vertices@.len()
    }
}

/// The last registry entry named `name`.
pub open spec fn texture_entry(reg: Seq<TextureInfo>, name: Seq<char>) -> Option<TextureInfo>
    decreases reg.len(),
{
    if reg.len() == 0 {
        None
    } else if reg.last().name@ == name {
        Some(reg.last())
    } else {
        texture_entry(reg.drop_last(), name)
    }
}

/// The mesh a face contributes: foliage faces get straight-up normals.
pub open spec fn face_model(f: Face) -> MeshModel {
    MeshModel {
        positions: f.vertices@,
        normals: if foliage(f.texture@) {
            Seq::new(f.vertices@.len(), |k: int| up_vector())
        } else {
            f.normals@
        },
        uvs: f.uvs@,
        indices: index_ints(f.indices->0@),
    }
}

/// A face is drawn when it is triangulated, its texture is not a
/// non-rendering marker and the texture has a material.
pub open spec fn face_emits(f: Face, reg: Seq<TextureInfo>) -> bool {
    f.indices is Some && !non_rendering(f.texture@) && texture_entry(reg, f.texture@) is Some
}

/// The collision point set: the vertices of every triangulated face, whatever its texture.
pub open spec fn brush_points(faces: Seq<Face>) -> Seq<Vec3>
    decreases faces.len(),
{
    if faces.len() == 0 {
        Seq::empty()
    } else if faces.last().indices is Some {
        brush_points(faces.drop_last()) + faces.last().vertices@
    } else {
        brush_points(faces.drop_last())
    }
}

/// The drawn textures, in order of first appearance.
pub open spec fn texture_order(faces: Seq<Face>, reg: Seq<TextureInfo>) -> Seq<Seq<char>>
    decreases faces.len(),
{
    if faces.len() == 0 {
        Seq::empty()
    } else {
        let o = texture_order(faces.drop_last(), reg);
        let f = faces.last();
        if face_emits(f, reg) && !o.contains(f.texture@) {
            o.push(f.texture@)
        } else {
            o
        }
    }
}

/// The drawn faces of texture `t`, merged in face order.
pub open spec fn texture_mesh(faces: Seq<Face>, reg: Seq<TextureInfo>, t: Seq<char>) -> MeshModel
    decreases faces.len(),
{
    if faces.len() == 0 {
        empty_model()
    } else {
        let m = texture_mesh(faces.drop_last(), reg, t);
        let f = faces.last();
        if face_emits(f, reg) && f.texture@ == t {
            merged(m, face_model(f))
        } else {
            m
        }
    }
}

pub open spec fn all_foliage(faces: Seq<Face>) -> bool {
    faces.len() > 0 && forall|i: int| 0 <= i < faces.len() ==> foliage(#[trigger] faces[i].texture@)
}

pub open spec fn trigger_kind_of(classname: Seq<char>) -> Option<TriggerKind> {
    if classname == "trigger_multiple"@ {
        Some(TriggerKind::Multiple)
    } else if classname == "trigger_once"@ {
        Some(TriggerKind::Once)
    } else {
        None
    }
}

/// The collision a brush of an entity with `props` gets.
pub open spec fn collision_fits(c: Collision, props: Properties, faces: Seq<Face>) -> bool {
    match trigger_kind_of(classname_of(props)) {
        Some(k) => c matches Collision::Sensor { kind, target } && kind == k && Some(target@)
            == props.value_of("target"@),
        None => if all_foliage(faces) {
            c is Disabled
        } else {
            c is Solid
        },
    }
}

/// The fragments are the drawn textures in order, each with its merged mesh and its registry entry.
pub open spec fn fragments_fit(fr: Seq<Fragment>, faces: Seq<Face>, reg: Seq<TextureInfo>) -> bool {
    let o = texture_order(faces, reg);
    &&& fr.len() == o.len()
    &&& forall|j: int|
        0 <= j < fr.len() ==> {
            let e = texture_entry(reg, o[j])->0;
            &&& (#[trigger] fr[j]).texture@ == o[j]
            &&& fr[j].mesh@ == texture_mesh(faces, reg, o[j])
            &&& fr[j].mesh.wf()
            &&& fr[j].material == e.material
            &&& fr[j].size == e.size
        }
}

proof fn lemma_face_model_wf(f: Face)
    requires
        face_wf(f),
        f.indices is Some,
        f.vertices@.len() <= MAX_VERTICES,
    ensures
        model_wf(face_model(f)),
{
    let m = face_model(f);
    assert forall|k: int| 0 <= k < m.indices.len() implies 0 <= #[trigger] m.indices[k]
        < m.positions.len() by {
        assert(f.indices->0@[k] < f.vertices@.len());
    }
}

proof fn lemma_total_nonneg(faces: Seq<Face>)
    ensures
        total_vertices(faces) >= 0,
    decreases faces.len(),
{
    if faces.len() > 0 {
        lemma_total_nonneg(faces.drop_last());
    }
}

proof fn lemma_total_prefix(faces: Seq<Face>, i: int)
    requires
        0 <= i <= faces.len(),
    ensures
        total_vertices(faces.take(i)) <= total_vertices(faces),
    decreases faces.len(),
{
    if i < faces.len() {
        assert(faces.drop_last().take(i) =~= faces.take(i));
        lemma_total_prefix(faces.drop_last(), i);
    } else {
        assert(faces.take(i) =~= faces);
    }
}

proof fn lemma_texture_mesh_wf(faces: Seq<Face>, reg: Seq<TextureInfo>, t: Seq<char>)
    requires
        faces_wf(faces),
        total_vertices(faces) <= MAX_VERTICES,
    ensures
        model_wf(texture_mesh(faces, reg, t)),
        texture_mesh(faces, reg, t).positions.len() <= total_vertices(faces),
    decreases faces.len(),
{
    if faces.len() > 0 {
        let p = faces.drop_last();
        assert(faces_wf(p)) by {
            assert forall|i: int| 0 <= i < p.len() implies face_wf(#[trigger] p[i]) by {
                assert(face_wf(faces[i]));
            }
        }
        lemma_total_nonneg(p);
        lemma_texture_mesh_wf(p, reg, t);
        let f = faces.last();
        assert(face_wf(faces[faces.len() - 1]));
        if face_emits(f, reg) && f.texture@ == t {
            lemma_face_model_wf(f);
            lemma_merged_wf(texture_mesh(p, reg, t), face_model(f));
        }
    }
}

proof fn lemma_absent_texture(faces: Seq<Face>, reg: Seq<TextureInfo>, t: Seq<char>)
    requires
        !texture_order(faces, reg).contains(t),
    ensures
        texture_mesh(faces, reg, t) == empty_model(),
    decreases faces.len(),
{
    if faces.len() > 0 {
        let p = faces.drop_last();
        let o = texture_order(p, reg);
        let f = faces.last();
        if face_emits(f, reg) && f.texture@ == t {
            if o.contains(t) {
            } else {
                assert(o.push(f.texture@)[o.len() as int] == t);
            }
        } else {
            if o.contains(t) {
                let k = choose|k: int| 0 <= k < o.len() && o[k] == t;
                if face_emits(f, reg) && !o.contains(f.texture@) {
                    assert(o.push(f.texture@)[k] == t);
                }
            }
            lemma_absent_texture(p, reg, t);
        }
    }
}

proof fn lemma_order_distinct(faces: Seq<Face>, reg: Seq<TextureInfo>)
    ensures
        texture_order(faces, reg).no_duplicates(),
    decreases faces.len(),
{
    if faces.len() > 0 {
        lemma_order_distinct(faces.drop_last(), reg);
    }
}

/// Copies the items of `v`.
fn copied<T: Copy>(v: &Vec<T>) -> (r: Vec<T>)
    ensures
        r@ == v@,
{
    let mut out: Vec<T> = Vec::new();
    let mut i: usize = 0;
    while i < v.len()
        invariant
            i <= v.len(),
            out@ == v@.take(i as int),
        decreases v.len() - i,
    {
        out.push(v[i]);
        assert(out@ =~= v@.take(i as int + 1));
        i = i + 1;
    }
    assert(v@.take(v.len() as int) =~= v@);
    out
}

/// `n` copies of the up vector.
fn up_normals(n: usize) -> (r: Vec<Vec3>)
    ensures
        r@ == Seq::new(n as nat, |k: int| up_vector()),
{
    let mut out: Vec<Vec3> = Vec::new();
    let mut i: usize = 0;
    while i < n
        invariant
            i <= n,
            out@ == Seq::new(i as nat, |k: int| up_vector()),
        decreases n - i,
    {
        out.push(Vec3::up());
        assert(out@ =~= Seq::new((i + 1) as nat, |k: int| up_vector()));
        i = i + 1;
    }
    out
}

/// The registry entry for `name`.
pub fn find_texture(reg: &Vec<TextureInfo>, name: &String) -> (r: Option<(u64, (u32, u32))>)
    ensures
        r matches Some(p) ==> texture_entry(reg@, name@) matches Some(e) && p == (e.material, e.size),
        r is None ==> texture_entry(reg@, name@) is None,
{
    let mut i: usize = reg.len();
    assert(reg@.take(i as int) =~= reg@);
    while i > 0
        invariant
            i <= reg.len(),
            texture_entry(reg@, name@) == texture_entry(reg@.take(i as int), name@),
        decreases i,
    {
        assert(reg@.take(i as int).drop_last() =~= reg@.take(i - 1));
        if reg[i - 1].name == *name {
            return Some((reg[i - 1].material, reg[i - 1].size));
        }
        i = i - 1;
    }
    None
}

/// The mesh of one triangulated face.
fn face_mesh(f: &Face, idx: &Vec<u32>, up: bool) -> (r: Mesh)
    requires
        f.indices == Some(*idx),
        up == foliage(f.texture@),
    ensures
        r@ == face_model(*f),
{
    let normals = if up {
        up_normals(f.vertices.len())
    } else {
        copied(&f.normals)
    };
    let indices = copied(idx);
    Mesh { positions: copied(&f.vertices), normals, uvs: copied(&f.uvs), indices }
}

proof fn lemma_prefix_wf(faces: Seq<Face>, i: int)
    requires
        faces_wf(faces),
        0 <= i <= faces.len(),
    ensures
        faces_wf(faces.take(i)),
{
    assert forall|k: int| 0 <= k < i implies face_wf(#[trigger] faces.take(i)[k]) by {
        assert(face_wf(faces[k]));
    }
}

/// Builds one brush of the entity with properties `props`.
///
/// Fails only for a trigger brush (`trigger_multiple`, `trigger_once`)
/// without a `target` property.
pub fn build_brush(props: &Properties, faces: &Vec<Face>, reg: &Vec<TextureInfo>) -> (r: Result<BrushBuild, BuildError>)
    requires
        faces_wf(faces@),
        total_vertices(faces@) <= MAX_VERTICES,
    ensures
        r is Err <==> (trigger_kind_of(classname_of(*props)) is Some
            && props.value_of("target"@) is None),
        r matches Err(e) ==> e == BuildError::MissingTarget,
        r matches Ok(b) ==> {
            &&& b.points@ == brush_points(faces@)
            &&& collision_fits(b.collision, *props, faces@)
            &&& fragments_fit(b.fragments@, faces@, reg@)
        },
{
    let classname = props.get_property_as_string("classname", "");
    proof {
        reveal_strlit("");
        assert(""@ =~= Seq::<char>::empty());
    }
    let kind = if classname == "trigger_multiple".to_owned() {
        Some(TriggerKind::Multiple)
    } else if classname == "trigger_once".to_owned() {
        Some(TriggerKind::Once)
    } else {
        None
    };
    let target = props.get_property_as_string_opt("target");
    assert(kind == trigger_kind_of(classname_of(*props)));
    assert(target is None <==> props.value_of("target"@) is None);
    if kind.is_some() && target.is_none() {
        return Err(BuildError::MissingTarget);
    }
    let ghost s = faces@;
    let mut points: Vec<Vec3> = Vec::new();
    let mut frags: Vec<Fragment> = Vec::new();
    let mut only_foliage = true;
    let mut i: usize = 0;
    while i < faces.len()
        invariant
            i <= faces.len(),
            s == faces@,
            faces_wf(s),
            total_vertices(s) <= MAX_VERTICES,
            points@ == brush_points(s.take(i as int)),
            only_foliage == forall|j: int| 0 <= j < i ==> foliage(#[trigger] s[j].texture@),
            fragments_fit(frags@, s.take(i as int), reg@),
        decreases faces.len() - i,
    {
        let ghost pre = s.take(i as int);
        let ghost next = s.take(i as int + 1);
        assert(next.drop_last() =~= pre);
        assert(next.last() == s[i as int]);
        let f = &faces[i];
        let fol = is_foliage(f.texture.as_str());
        only_foliage = only_foliage && fol;
        proof {
            lemma_order_distinct(pre, reg@);
            lemma_prefix_wf(s, i as int);
            lemma_prefix_wf(s, i as int + 1);
            lemma_total_prefix(s, i as int + 1);
            lemma_total_nonneg(pre);
            assert(face_wf(s[i as int]));
        }
        match &f.indices {
            None => {
                assert(fragments_fit(frags@, next, reg@));
            },
            Some(idx) => {
                let mut vs = copied(&f.vertices);
                points.append(&mut vs);
                let drawn = !is_non_rendering(f.texture.as_str());
                let entry = if drawn { find_texture(reg, &f.texture) } else { None };
                match entry {
                    None => {
                        assert(fragments_fit(frags@, next, reg@));
                    },
                    Some((material, size)) => {
                        let m = face_mesh(f, idx, fol);
                        let ghost tex = f.texture@;
                        let ghost o = texture_order(pre, reg@);
                        proof {
                            lemma_face_model_wf(*f);
                            lemma_texture_mesh_wf(pre, reg@, tex);
                        }
                        let mut j: usize = 0;
                        let mut found = false;
                        while j < frags.len() && !found
                            invariant
                                j <= frags.len(),
                                f.texture@ == tex,
                                found ==> j < frags.len() && frags@[j as int].texture@ == tex,
                                !found ==> forall|k: int| 0 <= k < j ==> (#[trigger] frags@[k]).texture@ != tex,
                            decreases frags.len() - j + if found { 0int } else { 1 },
                        {
                            if frags[j].texture == f.texture {
                                found = true;
                            } else {
                                j = j + 1;
                            }
                        }
                        if j < frags.len() {
                            let ghost old_frags = frags@;
                            assert(o[j as int] == tex);
                            let mut fr = frags.remove(j);
                            fr.mesh.merge(m);
                            frags.insert(j, fr);
                            assert(texture_order(next, reg@) == o);
                            assert forall|k: int| 0 <= k < frags@.len() implies {
                                let e = texture_entry(reg@, o[k])->0;
                                &&& (#[trigger] frags@[k]).texture@ == o[k]
                                &&& frags@[k].mesh@ == texture_mesh(next, reg@, o[k])
                                &&& frags@[k].mesh.wf()
                                &&& frags@[k].material == e.material
                                &&& frags@[k].size == e.size
                            } by {
                                if k != j {
                                    assert(frags@[k] == old_frags[k]);
                                    assert(o[k] != o[j as int]);
                                }
                            }
                        } else {
                            assert(!o.contains(tex)) by {
                                if o.contains(tex) {
                                    let k = choose|k: int| 0 <= k < o.len() && o[k] == tex;
                                    assert(frags@[k].texture@ == o[k]);
                                }
                            }
                            proof {
                                lemma_absent_texture(pre, reg@, tex);
                                lemma_merged_empty(face_model(*f));
                            }
                            let ghost old_frags = frags@;
                            frags.push(Fragment { texture: f.texture.clone(), material, size, mesh: m });
                            assert(texture_order(next, reg@) == o.push(tex));
                            assert forall|k: int| 0 <= k < frags@.len() implies {
                                let e = texture_entry(reg@, o.push(tex)[k])->0;
                                &&& (#[trigger] frags@[k]).texture@ == o.push(tex)[k]
                                &&& frags@[k].mesh@ == texture_mesh(next, reg@, o.push(tex)[k])
                                &&& frags@[k].mesh.wf()
                                &&& frags@[k].material == e.material
                                &&& frags@[k].size == e.size
                            } by {
                                if k < old_frags.len() {
                                    assert(frags@[k] == old_frags[k]);
                                    assert(o.push(tex)[k] == o[k]);
                                    assert(o[k] != tex);
                                }
                            }
                        }
                    },
                }
            },
        }
        i = i + 1;
    }
    assert(s.take(faces.len() as int) =~= s);
    let collision = match kind {
        Some(k) => match target {
            Some(t) => Collision::Sensor { kind: k, target: t },
            None => Collision::Solid,
        },
        None => if only_foliage && faces.len() > 0 {
            Collision::Disabled
        } else {
            Collision::Solid
        },
    };
    Ok(BrushBuild { points, collision, fragments: frags })
}

/// The point set of a brush is the union of the vertices of its triangulated
/// faces, whatever their textures: a point is in it exactly when some such
/// face has it as a vertex.
pub proof fn lemma_points_are_face_vertices(faces: Seq<Face>, p: Vec3)
    ensures
        brush_points(faces).contains(p) <==> exists|k: int, v: int|
            0 <= k < faces.len() && faces[k].indices is Some && 0 <= v < faces[k].vertices@.len()
                && #[trigger] faces[k].vertices@[v] == p,
    decreases faces.len(),
{
    if faces.len() > 0 {
        let q = faces.drop_last();
        let n = faces.len() - 1;
        let last = faces.last();
        let bq = brush_points(q);
        lemma_points_are_face_vertices(q, p);
        if brush_points(faces).contains(p) {
            let i = choose|i: int| 0 <= i < brush_points(faces).len() && brush_points(faces)[i] == p;
            if last.indices is Some && i >= bq.len() {
                assert(faces[n].vertices@[i - bq.len()] == p);
            } else {
                assert(bq[i] == p);
                let (k, v) = choose|k: int, v: int|
                    0 <= k < q.len() && q[k].indices is Some && 0 <= v < q[k].vertices@.len()
                        && #[trigger] q[k].vertices@[v] == p;
                assert(faces[k] == q[k]);
            }
        }
        if exists|k: int, v: int|
            0 <= k < faces.len() && faces[k].indices is Some && 0 <= v < faces[k].vertices@.len()
                && #[trigger] faces[k].vertices@[v] == p {
            let (k, v) = choose|k: int, v: int|
                0 <= k < faces.len() && faces[k].indices is Some && 0 <= v < faces[k].vertices@.len()
                    && #[trigger] faces[k].vertices@[v] == p;
            if k == n {
                assert((bq + last.vertices@)[bq.len() + v] == p);
            } else {
                assert(q[k] == faces[k]);
                assert(q[k].vertices@[v] == p);
                let i = choose|i: int| 0 <= i < bq.len() && bq[i] == p;
                if last.indices is Some {
                    assert((bq + last.vertices@)[i] == p);
                }
            }
        }
    }
}

/// Every normal of the fragment of a foliage texture points straight up,
/// whatever normals the faces came with.
pub proof fn lemma_foliage_normals_up(faces: Seq<Face>, reg: Seq<TextureInfo>, t: Seq<char>)
    requires
        foliage(t),
    ensures
        forall|k: int|
            0 <= k < texture_mesh(faces, reg, t).normals.len()
                ==> #[trigger] texture_mesh(faces, reg, t).normals[k] == up_vector(),
    decreases faces.len(),
{
    if faces.len() > 0 {
        let q = faces.drop_last();
        lemma_foliage_normals_up(q, reg, t);
        let f = faces.last();
        if face_emits(f, reg) && f.texture@ == t {
            let a = texture_mesh(q, reg, t).normals;
            let b = face_model(f).normals;
            assert forall|k: int| 0 <= k < (a + b).len() implies #[trigger] (a + b)[k] == up_vector() by {
                if k >= a.len() {
                    assert(b[k - a.len()] == up_vector());
                }
            }
        }
    }
}

/// Faces with a non-rendering texture produce no fragment, yet their
/// vertices stay in the brush's point set.
pub proof fn lemma_non_rendering_only_collides(faces: Seq<Face>, reg: Seq<TextureInfo>, k: int)
    requires
        0 <= k < faces.len(),
        faces[k].indices is Some,
        non_rendering(faces[k].texture@),
    ensures
        !texture_order(faces, reg).contains(faces[k].texture@),
        texture_mesh(faces, reg, faces[k].texture@) == empty_model(),
        forall|v: int|
            0 <= v < faces[k].vertices@.len() ==> brush_points(faces).contains(
                #[trigger] faces[k].vertices@[v],
            ),
{
    lemma_order_never_non_rendering(faces, reg, faces[k].texture@);
    lemma_absent_texture(faces, reg, faces[k].texture@);
    assert forall|v: int| 0 <= v < faces[k].vertices@.len() implies brush_points(faces).contains(
        #[trigger] faces[k].vertices@[v],
    ) by {
        lemma_points_are_face_vertices(faces, faces[k].vertices@[v]);
    }
}

proof fn lemma_order_never_non_rendering(faces: Seq<Face>, reg: Seq<TextureInfo>, t: Seq<char>)
    requires
        non_rendering(t),
    ensures
        !texture_order(faces, reg).contains(t),
    decreases faces.len(),
{
    if faces.len() > 0 {
        let o = texture_order(faces.drop_last(), reg);
        lemma_order_never_non_rendering(faces.drop_last(), reg, t);
        let f = faces.last();
        if face_emits(f, reg) && !o.contains(f.texture@) {
            if o.push(f.texture@).contains(t) {
                let i = choose|i: int| 0 <= i < o.len() + 1 && o.push(f.texture@)[i] == t;
                if i < o.len() {
                    assert(o[i] == t);
                }
            }
        }
    }
}

} // verus!
