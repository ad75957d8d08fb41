//! Consolidation of render fragments into batches keyed by brush, material
//! and spatial bucket.
use vstd::prelude::*;
use crate::geom::Vec3;
use crate::text::SCALE;
use crate::mesh::{index_ints, lemma_merged_wf, merged, model_wf, Mesh, MeshModel, MAX_VERTICES};

verus! {

/// Edge of a spatial bucket: 50 map units.
pub const CELL_SIZE: i64 = 50 * SCALE;

/// Bound on every coordinate handed to the consolidator.
pub const COORD_LIMIT: i64 = 0x100_0000_0000;

/// A render fragment waiting to be placed. `origin` is the translation of
/// the node it hangs under (its collision volume if any, else the map
/// root), or zero when that node is gone.
pub struct SpawnRequest {
    pub map: u64,
    pub brush: u64,
    pub collider: Option<u64>,
    pub material: u64,
    pub texture: String,
    pub size: (u32, u32),
    pub origin: Vec3,
    pub mesh: Mesh,
}

/// Provenance of one source fragment: its texture and pixel size, to be
/// attached under `parent`.
pub struct Marker {
    pub parent: u64,
    pub texture: String,
    pub size: (u32, u32),
}

/// A finished render batch: the merged mesh lives in the frame of its first
/// fragment and hangs under that fragment's collision volume or map root.
pub struct Batch {
    pub brush: u64,
    pub material: u64,
    pub bucket: (i64, i64, i64),
    pub parent: u64,
    pub origin: Vec3,
    pub texture: String,
    pub size: (u32, u32),
    pub mesh: Mesh,
    pub markers: Vec<Marker>,
}

pub struct BatchModel {
    pub brush: u64,
    pub material: u64,
    pub bucket: (int, int, int),
    pub parent: u64,
    pub origin: Vec3,
    pub texture: Seq<char>,
    pub size: (u32, u32),
    pub mesh: MeshModel,
    pub markers: Seq<(u64, Seq<char>, (u32, u32))>,
}

impl View for Batch {
    type V = BatchModel;

    open spec fn view(&self) -> BatchModel {
        BatchModel {
            brush: self.brush,
            material: self.material,
            bucket: (self.bucket.0 as int, self.bucket.1 as int, self.bucket.2 as int),
            parent: self.parent,
            origin: self.origin,
            texture: self.texture@,
            size: self.size,
            mesh: self.mesh@,
            markers: Seq::new(
                self.markers@.len(),
                |i: int| (self.markers@[i].parent, self.markers@[i].texture@, self.markers@[i].size),
            ),
        }
    }
}

pub open spec fn coord(v: Vec3, a: int) -> int {
    if a == 0 {
        v.x as int
    } else if a == 1 {
        v.y as int
    } else {
        v.z as int
    }
}

pub open spec fn min_int(a: int, b: int) -> int {
    if a <= b {
        a
    } else {
        b
    }
}

pub open spec fn max_int(a: int, b: int) -> int {
    if a >= b {
        a
    } else {
        b
    }
}

/// Lowest coordinate on axis `a`; zero for no points.
pub open spec fn lo_axis(s: Seq<Vec3>, a: int) -> int
    decreases s.len(),
{
    if s.len() == 0 {
        0
    } else if s.len() == 1 {
        coord(s[0], a)
    } else {
        min_int(lo_axis(s.drop_last(), a), coord(s.last(), a))
    }
}

/// Highest coordinate on axis `a`; zero for no points.
pub open spec fn hi_axis(s: Seq<Vec3>, a: int) -> int
    decreases s.len(),
{
    if s.len() == 0 {
        0
    } else if s.len() == 1 {
        coord(s[0], a)
    } else {
        max_int(hi_axis(s.drop_last(), a), coord(s.last(), a))
    }
}

/// The bucket index on axis `a`: the floor of the bounding-box centre,
/// moved by `origin`, over the cell size. Doubling keeps the centre whole.
pub open spec fn bucket_axis(origin: Vec3, s: Seq<Vec3>, a: int) -> int {
    (2 * coord(origin, a) + lo_axis(s, a) + hi_axis(s, a)) / (2 * CELL_SIZE)
}

pub open spec fn bucket_of(origin: Vec3, s: Seq<Vec3>) -> (int, int, int) {
    (bucket_axis(origin, s, 0), bucket_axis(origin, s, 1), bucket_axis(origin, s, 2))
}

pub open spec fn parent_of(r: SpawnRequest) -> u64 {
    match r.collider {
        Some(c) => c,
        None => r.map,
    }
}

pub open spec fn translated(m: MeshModel, d: (int, int, int)) -> MeshModel {
    MeshModel {
        positions: m.positions.map_values(
            |p: Vec3| Vec3 { x: (p.x + d.0) as i64, y: (p.y + d.1) as i64, z: (p.z + d.2) as i64 },
        ),
        ..m
    }
}

pub open spec fn offset(from: Vec3, to: Vec3) -> (int, int, int) {
    (to.x - from.x, to.y - from.y, to.z - from.z)
}

pub open spec fn key_of(b: BatchModel) -> (u64, u64, (int, int, int)) {
    (b.brush, b.material, b.bucket)
}

pub open spec fn request_key(r: SpawnRequest) -> (u64, u64, (int, int, int)) {
    (r.brush, r.material, bucket_of(r.origin, r.mesh@.positions))
}

pub open spec fn marker_of(r: SpawnRequest) -> (u64, Seq<char>, (u32, u32)) {
    (parent_of(r), r.texture@, r.size)
}

pub open spec fn new_batch(r: SpawnRequest) -> BatchModel {
    BatchModel {
        brush: r.brush,
        material: r.material,
        bucket: bucket_of(r.origin, r.mesh@.positions),
        parent: parent_of(r),
        origin: r.origin,
        texture: r.texture@,
        size: r.size,
        mesh: r.mesh@,
        markers: seq![marker_of(r)],
    }
}

/// `r` added to batch `b`: its vertices re-expressed in the batch's frame.
pub open spec fn add_to(b: BatchModel, r: SpawnRequest) -> BatchModel {
    BatchModel {
        mesh: merged(b.mesh, translated(r.mesh@, offset(b.origin, r.origin))),
        markers: b.markers.push(marker_of(r)),
        ..b
    }
}

/// Index of the last batch with key `k`, or -1.
pub open spec fn find_key(bs: Seq<BatchModel>, k: (u64, u64, (int, int, int))) -> int
    decreases bs.len(),
{
    if bs.len() == 0 {
        -1
    } else if key_of(bs.last()) == k {
        bs.len() - 1
    } else {
        find_key(bs.drop_last(), k)
    }
}

/// The batches of `reqs`, in order of their first fragment.
pub open spec fn batches(reqs: Seq<SpawnRequest>) -> Seq<BatchModel>
    decreases reqs.len(),
{
    if reqs.len() == 0 {
        Seq::empty()
    } else {
        let bs = batches(reqs.drop_last());
        let r = reqs.last();
        let j = find_key(bs, request_key(r));
        if j >= 0 {
            bs.update(j, add_to(bs[j], r))
        } else {
            bs.push(new_batch(r))
        }
    }
}

pub open spec fn in_range(v: Vec3) -> bool {
    -COORD_LIMIT <= v.x <= COORD_LIMIT && -COORD_LIMIT <= v.y <= COORD_LIMIT && -COORD_LIMIT
        <= v.z <= COORD_LIMIT
}

pub open spec fn request_wf(r: SpawnRequest) -> bool {
    &&& r.mesh.wf()
    &&& in_range(r.origin)
    &&& forall|k: int| 0 <= k < r.mesh@.positions.len() ==> in_range(#[trigger] r.mesh@.positions[k])
}

pub open spec fn total_request_vertices(reqs: Seq<SpawnRequest>) -> int
    decreases reqs.len(),
{
    if reqs.len() == 0 {
        0
    } else {
        total_request_vertices(reqs.drop_last()) + reqs.last().mesh@.positions.len()
    }
}

pub open spec fn batch_views(v: Seq<Batch>) -> Seq<BatchModel> {
    Seq::new(v.len(), |i: int| v[i]@)
}

pub open spec fn requests_wf(reqs: Seq<SpawnRequest>) -> bool {
    &&& forall|i: int| 0 <= i < reqs.len() ==> request_wf(#[trigger] reqs[i])
    &&& total_request_vertices(reqs) <= MAX_VERTICES
}

proof fn lemma_translated_wf(m: MeshModel, d: (int, int, int))
    requires
        model_wf(m),
    ensures
        model_wf(translated(m, d)),
        translated(m, d).positions.len() == m.positions.len(),
{
}

proof fn lemma_total_nonneg(reqs: Seq<SpawnRequest>)
    ensures
        total_request_vertices(reqs) >= 0,
    decreases reqs.len(),
{
    if reqs.len() > 0 {
        lemma_total_nonneg(reqs.drop_last());
    }
}

proof fn lemma_prefix_requests_wf(reqs: Seq<SpawnRequest>, i: int)
    requires
        requests_wf(reqs),
        0 <= i <= reqs.len(),
    ensures
        requests_wf(reqs.take(i)),
    decreases reqs.len(),
{
    if i < reqs.len() {
        let q = reqs.drop_last();
        lemma_total_nonneg(q);
        assert(requests_wf(q)) by {
            assert forall|k: int| 0 <= k < q.len() implies request_wf(#[trigger] q[k]) by {
                assert(request_wf(reqs[k]));
            }
        }
        assert(q.take(i) =~= reqs.take(i));
        lemma_prefix_requests_wf(q, i);
    } else {
        assert(reqs.take(i) =~= reqs);
    }
}

proof fn lemma_find_key(bs: Seq<BatchModel>, k: (u64, u64, (int, int, int)))
    ensures
        -1 <= find_key(bs, k) < bs.len(),
        find_key(bs, k) >= 0 ==> key_of(bs[find_key(bs, k)]) == k,
    decreases bs.len(),
{
    if bs.len() > 0 {
        lemma_find_key(bs.drop_last(), k);
    }
}

/// Every batch mesh is well formed, no larger than all the input, and
/// every batch origin is in range.
proof fn lemma_batches_wf(reqs: Seq<SpawnRequest>)
    requires
        requests_wf(reqs),
    ensures
        forall|j: int|
            0 <= j < batches(reqs).len() ==> {
                &&& model_wf(#[trigger] batches(reqs)[j].mesh)
                &&& batches(reqs)[j].mesh.positions.len() <= total_request_vertices(reqs)
                &&& in_range(batches(reqs)[j].origin)
            },
    decreases reqs.len(),
{
    if reqs.len() > 0 {
        let q = reqs.drop_last();
        lemma_prefix_requests_wf(reqs, reqs.len() - 1);
        assert(q =~= reqs.take(reqs.len() - 1));
        lemma_batches_wf(q);
        lemma_total_nonneg(q);
        let r = reqs.last();
        assert(request_wf(reqs[reqs.len() - 1]));
        let bs = batches(q);
        let j = find_key(bs, request_key(r));
        lemma_find_key(bs, request_key(r));
        if j >= 0 {
            let tm = translated(r.mesh@, offset(bs[j].origin, r.origin));
            lemma_translated_wf(r.mesh@, offset(bs[j].origin, r.origin));
            assert(model_wf(bs[j].mesh));
            lemma_merged_wf(bs[j].mesh, tm);
        }
    }
}

/// Copies of the items of `v`.
fn copied<T: Copy>(v: &Vec<T>) -> (r: Vec<T>)
    ensures
        r@ == v@,
{
    let mut out: Vec<T> = Vec::new();
    let mut i: usize = 0;
    while i < v.len()
        invariant
            i <= v.len(),
            out@ == v@.take(i as int),
        decreases v.len() - i,
    {
        out.push(v[i]);
        assert(out@ =~= v@.take(i as int + 1));
        i = i + 1;
    }
    assert(v@.take(v.len() as int) =~= v@);
    out
}

/// The mesh `m` with every position moved by `d`.
fn translate_mesh(m: &Mesh, d: (i64, i64, i64)) -> (r: Mesh)
    requires
        forall|k: int| 0 <= k < m@.positions.len() ==> in_range(#[trigger] m@.positions[k]),
        -2 * COORD_LIMIT <= d.0 <= 2 * COORD_LIMIT,
        -2 * COORD_LIMIT <= d.1 <= 2 * COORD_LIMIT,
        -2 * COORD_LIMIT <= d.2 <= 2 * COORD_LIMIT,
    ensures
        r@ == translated(m@, (d.0 as int, d.1 as int, d.2 as int)),
{
    let ghost dd = (d.0 as int, d.1 as int, d.2 as int);
    let mut out: Vec<Vec3> = Vec::new();
    let mut i: usize = 0;
    while i < m.positions.len()
        invariant
            i <= m.positions.len(),
            forall|k: int| 0 <= k < m@.positions.len() ==> in_range(#[trigger] m@.positions[k]),
            -2 * COORD_LIMIT <= d.0 <= 2 * COORD_LIMIT,
            -2 * COORD_LIMIT <= d.1 <= 2 * COORD_LIMIT,
            -2 * COORD_LIMIT <= d.2 <= 2 * COORD_LIMIT,
            dd == (d.0 as int, d.1 as int, d.2 as int),
            out@ == translated(m@, dd).positions.take(i as int),
        decreases m.positions.len() - i,
    {
        let p = m.positions[i];
        assert(in_range(m@.positions[i as int]));
        let q = Vec3 { x: p.x + d.0, y: p.y + d.1, z: p.z + d.2 };
        assert(m@.positions[i as int] == p);
        assert(translated(m@, dd).positions[i as int] == q);
        out.push(q);
        assert(out@ =~= translated(m@, dd).positions.take(i as int + 1));
        i = i + 1;
    }
    assert(translated(m@, dd).positions.take(m.positions.len() as int) =~= translated(m@, dd).positions);
    Mesh { positions: out, normals: copied(&m.normals), uvs: copied(&m.uvs), indices: copied(&m.indices) }
}

/// Lowest and highest coordinates on each axis; zeros for no points.
fn bounds(s: &Vec<Vec3>) -> (r: (Vec3, Vec3))
    ensures
        r.0.x == lo_axis(s@, 0) && r.0.y == lo_axis(s@, 1) && r.0.z == lo_axis(s@, 2),
        r.1.x == hi_axis(s@, 0) && r.1.y == hi_axis(s@, 1) && r.1.z == hi_axis(s@, 2),
{
    if s.len() == 0 {
        return (Vec3 { x: 0, y: 0, z: 0 }, Vec3 { x: 0, y: 0, z: 0 });
    }
    let mut lo = s[0];
    let mut hi = s[0];
    let mut i: usize = 1;
    assert(s@.take(1).len() == 1);
    while i < s.len()
        invariant
            1 <= i <= s.len(),
            lo.x == lo_axis(s@.take(i as int), 0) && lo.y == lo_axis(s@.take(i as int), 1)
                && lo.z == lo_axis(s@.take(i as int), 2),
            hi.x == hi_axis(s@.take(i as int), 0) && hi.y == hi_axis(s@.take(i as int), 1)
                && hi.z == hi_axis(s@.take(i as int), 2),
        decreases s.len() - i,
    {
        let p = s[i];
        let ghost t = s@.take(i as int + 1);
        assert(t.drop_last() =~= s@.take(i as int));
        assert(t.last() == p);
        if p.x < lo.x { lo.x = p.x; }
        if p.y < lo.y { lo.y = p.y; }
        if p.z < lo.z { lo.z = p.z; }
        if p.x > hi.x { hi.x = p.x; }
        if p.y > hi.y { hi.y = p.y; }
        if p.z > hi.z { hi.z = p.z; }
        i = i + 1;
    }
    assert(s@.take(s.len() as int) =~= s@);
    (lo, hi)
}

proof fn lemma_bounds_in_range(s: Seq<Vec3>, a: int)
    requires
        forall|k: int| 0 <= k < s.len() ==> in_range(#[trigger] s[k]),
        0 <= a < 3,
    ensures
        -COORD_LIMIT <= lo_axis(s, a) <= COORD_LIMIT,
        -COORD_LIMIT <= hi_axis(s, a) <= COORD_LIMIT,
    decreases s.len(),
{
    if s.len() > 1 {
        let q = s.drop_last();
        assert forall|k: int| 0 <= k < q.len() implies in_range(#[trigger] q[k]) by {
            assert(in_range(s[k]));
        }
        lemma_bounds_in_range(q, a);
        assert(in_range(s[s.len() - 1]));
    } else if s.len() == 1 {
        assert(in_range(s[0]));
    }
}

/// The spatial bucket of a fragment whose node sits at `origin`.
pub fn bucket_index(origin: Vec3, positions: &Vec<Vec3>) -> (r: (i64, i64, i64))
    requires
        in_range(origin),
        forall|k: int| 0 <= k < positions@.len() ==> in_range(#[trigger] positions@[k]),
    ensures
        (r.0 as int, r.1 as int, r.2 as int) == bucket_of(origin, positions@),
{
    let (lo, hi) = bounds(positions);
    proof {
        lemma_bounds_in_range(positions@, 0);
        lemma_bounds_in_range(positions@, 1);
        lemma_bounds_in_range(positions@, 2);
    }
    let d: i64 = 2 * CELL_SIZE;
    let nx = 2 * origin.x + lo.x + hi.x;
    let ny = 2 * origin.y + lo.y + hi.y;
    let nz = 2 * origin.z + lo.z + hi.z;
    (floor_div(nx, d), floor_div(ny, d), floor_div(nz, d))
}

fn floor_div(n: i64, d: i64) -> (r: i64)
    requires
        d == 2 * CELL_SIZE,
        -4 * COORD_LIMIT <= n <= 4 * COORD_LIMIT,
    ensures
        r == n as int / d as int,
{
    let ghost q = n as int / d as int;
    let ghost m = n as int % d as int;
    proof {
        vstd::arithmetic::div_mod::lemma_fundamental_div_mod(n as int, d as int);
        assert(n == d * q + m && 0 <= m < d);
        assert(-4 * COORD_LIMIT <= q <= 4 * COORD_LIMIT) by (nonlinear_arith)
            requires
                n == 100_000 * q + m,
                0 <= m < 100_000,
                -4 * COORD_LIMIT <= n <= 4 * COORD_LIMIT,
        ;
    }
    match n.checked_div_euclid(d) {
        Some(q) => q,
        None => 0,
    }
}

fn copy_mesh(m: &Mesh) -> (r: Mesh)
    ensures
        r@ == m@,
{
    Mesh {
        positions: copied(&m.positions),
        normals: copied(&m.normals),
        uvs: copied(&m.uvs),
        indices: copied(&m.indices),
    }
}

fn marker_for(r: &SpawnRequest) -> (m: Marker)
    ensures
        (m.parent, m.texture@, m.size) == marker_of(*r),
{
    let parent = match r.collider {
        Some(c) => c,
        None => r.map,
    };
    Marker { parent, texture: r.texture.clone(), size: r.size }
}

/// Groups the fragments by brush, material and spatial bucket, in order of
/// each group's first fragment, and merges each group into one mesh kept in
/// the frame of that first fragment. Every fragment leaves one marker.
pub fn consolidate(reqs: &Vec<SpawnRequest>) -> (r: Vec<Batch>)
    requires
        requests_wf(reqs@),
    ensures
        batch_views(r@) == batches(reqs@),
{
    let ghost s = reqs@;
    let mut out: Vec<Batch> = Vec::new();
    let mut i: usize = 0;
    assert(batch_views(out@) =~= batches(s.take(0)));
    while i < reqs.len()
        invariant
            i <= reqs.len(),
            s == reqs@,
            requests_wf(s),
            batch_views(out@) == batches(s.take(i as int)),
        decreases reqs.len() - i,
    {
        let ghost pre = s.take(i as int);
        let ghost next = s.take(i as int + 1);
        assert(next.drop_last() =~= pre);
        assert(next.last() == s[i as int]);
        proof {
            lemma_prefix_requests_wf(s, i as int);
            lemma_prefix_requests_wf(s, i as int + 1);
            lemma_batches_wf(pre);
            lemma_total_nonneg(pre);
            assert(request_wf(s[i as int]));
        }
        let r = &reqs[i];
        let bucket = bucket_index(r.origin, &r.mesh.positions);
        let ghost bs = batch_views(out@);
        let ghost key = request_key(*r);
        let mut k: usize = out.len();
        let mut found = false;
        assert(bs.take(k as int) =~= bs);
        while k > 0 && !found
            invariant
                k <= out.len(),
                bs == batch_views(out@),
                key == (r.brush, r.material, (bucket.0 as int, bucket.1 as int, bucket.2 as int)),
                found ==> k >= 1 && find_key(bs, key) == k - 1,
                !found ==> find_key(bs, key) == find_key(bs.take(k as int), key),
            decreases k + if found { 0int } else { 1 },
        {
            let b = &out[k - 1];
            assert(bs.take(k as int).drop_last() =~= bs.take(k - 1));
            assert(bs.take(k as int).last() == out@[k - 1]@);
            if b.brush == r.brush && b.material == r.material && b.bucket.0 == bucket.0
                && b.bucket.1 == bucket.1 && b.bucket.2 == bucket.2 {
                found = true;
            } else {
                k = k - 1;
            }
        }
        proof {
            lemma_find_key(bs, key);
        }
        if found {
            let j = k - 1;
            assert(bs[j as int] == out@[j as int]@);
            assert(model_wf(batches(pre)[j as int].mesh));
            assert(in_range(bs[j as int].origin));
            let mut b = out.remove(j);
            let d = (r.origin.x - b.origin.x, r.origin.y - b.origin.y, r.origin.z - b.origin.z);
            let tm = translate_mesh(&r.mesh, d);
            proof {
                lemma_translated_wf(r.mesh@, offset(b.origin, r.origin));
            }
            let ghost old_markers = b@.markers;
            b.mesh.merge(tm);
            let mk = marker_for(r);
            b.markers.push(mk);
            assert(b@.markers =~= old_markers.push(marker_of(*r)));
            assert(b@ == add_to(bs[j as int], *r));
            out.insert(j, b);
            assert(batch_views(out@) =~= bs.update(j as int, add_to(bs[j as int], *r)));
        } else {
            let mut markers: Vec<Marker> = Vec::new();
            markers.push(marker_for(r));
            let parent = match r.collider {
                Some(c) => c,
                None => r.map,
            };
            let nb = Batch {
                brush: r.brush,
                material: r.material,
                bucket,
                parent,
                origin: r.origin,
                texture: r.texture.clone(),
                size: r.size,
                mesh: copy_mesh(&r.mesh),
                markers,
            };
            assert(nb@.markers =~= seq![marker_of(*r)]);
            assert(nb@ == new_batch(*r));
            out.push(nb);
            assert(batch_views(out@) =~= bs.push(new_batch(*r)));
        }
        i = i + 1;
    }
    assert(s.take(reqs.len() as int) =~= s);
    out
}

/// Two request lists that hold the same values, request by request.
pub open spec fn same_requests(a: Seq<SpawnRequest>, b: Seq<SpawnRequest>) -> bool {
    &&& a.len() == b.len()
    &&& forall|i: int|
        0 <= i < a.len() ==> {
            &&& (#[trigger] a[i]).brush == b[i].brush
            &&& a[i].material == b[i].material
            &&& a[i].map == b[i].map
            &&& a[i].collider == b[i].collider
            &&& a[i].origin == b[i].origin
            &&& a[i].texture@ == b[i].texture@
            &&& a[i].size == b[i].size
            &&& a[i].mesh@ == b[i].mesh@
        }
}

/// Batching is deterministic: rebuilding from the same fragments in the same
/// order gives the same batches, with the same keys and the same merged meshes.
pub proof fn lemma_rebuild_same_batches(a: Seq<SpawnRequest>, b: Seq<SpawnRequest>)
    requires
        same_requests(a, b),
    ensures
        batches(a) == batches(b),
    decreases a.len(),
{
    if a.len() > 0 {
        let n = a.len() - 1;
        assert(same_requests(a.drop_last(), b.drop_last())) by {
            assert forall|i: int| 0 <= i < n implies (#[trigger] a.drop_last()[i]).brush
                == b.drop_last()[i].brush by {
                assert(a[i].brush == b[i].brush);
            }
            assert forall|i: int| 0 <= i < n implies {
                &&& (#[trigger] a.drop_last()[i]).brush == b.drop_last()[i].brush
                &&& a.drop_last()[i].material == b.drop_last()[i].material
                &&& a.drop_last()[i].map == b.drop_last()[i].map
                &&& a.drop_last()[i].collider == b.drop_last()[i].collider
                &&& a.drop_last()[i].origin == b.drop_last()[i].origin
                &&& a.drop_last()[i].texture@ == b.drop_last()[i].texture@
                &&& a.drop_last()[i].size == b.drop_last()[i].size
                &&& a.drop_last()[i].mesh@ == b.drop_last()[i].mesh@
            } by {
                assert(a[i].brush == b[i].brush);
            }
        }
        lemma_rebuild_same_batches(a.drop_last(), b.drop_last());
        assert(a[n].brush == b[n].brush);
        let bs = batches(a.drop_last());
        let j = find_key(bs, request_key(a.last()));
        if j >= 0 {
            assert(add_to(bs[j], a.last()) == add_to(bs[j], b.last()));
        } else {
            assert(new_batch(a.last()) == new_batch(b.last()));
        }
    }
}

/// Two fragments of one brush and one material share a batch exactly when
/// their buckets are equal; otherwise they make two batches.
pub proof fn lemma_same_bucket_merges(r1: SpawnRequest, r2: SpawnRequest)
    requires
        r1.brush == r2.brush,
        r1.material == r2.material,
    ensures
        bucket_of(r1.origin, r1.mesh@.positions) == bucket_of(r2.origin, r2.mesh@.positions)
            ==> batches(seq![r1, r2]).len() == 1 && batches(seq![r1, r2])[0].markers.len() == 2,
        bucket_of(r1.origin, r1.mesh@.positions) != bucket_of(r2.origin, r2.mesh@.positions)
            ==> batches(seq![r1, r2]).len() == 2,
{
    let s = seq![r1, r2];
    assert(s.drop_last() =~= seq![r1]);
    assert(seq![r1].drop_last() =~= Seq::<SpawnRequest>::empty());
    let e = Seq::<SpawnRequest>::empty();
    assert(batches(e) == Seq::<BatchModel>::empty());
    assert(find_key(Seq::<BatchModel>::empty(), request_key(r1)) == -1);
    let b1 = batches(seq![r1]);
    assert(b1 =~= seq![new_batch(r1)]);
    assert(b1.drop_last() =~= Seq::<BatchModel>::empty());
    assert(b1.last() == new_batch(r1));
    assert(find_key(b1.drop_last(), request_key(r2)) == -1);
    assert(find_key(b1, request_key(r2)) == if key_of(new_batch(r1)) == request_key(r2) { 0int } else { -1 });
}

/// The batches of any fragment list have pairwise different keys, and every
/// fragment's key is the key of some batch.
pub proof fn lemma_batch_keys(reqs: Seq<SpawnRequest>)
    ensures
        forall|j1: int, j2: int|
            0 <= j1 < j2 < batches(reqs).len() ==> key_of(#[trigger] batches(reqs)[j1]) != key_of(
                #[trigger] batches(reqs)[j2],
            ),
        forall|i: int|
            0 <= i < reqs.len() ==> find_key(batches(reqs), #[trigger] request_key(reqs[i])) >= 0,
    decreases reqs.len(),
{
    if reqs.len() > 0 {
        let q = reqs.drop_last();
        lemma_batch_keys(q);
        let bs = batches(q);
        let r = reqs.last();
        lemma_find_key(bs, request_key(r));
        lemma_find_key_absent(bs, request_key(r));
        let nb = batches(reqs);
        assert forall|j: int| 0 <= j < bs.len() implies key_of(#[trigger] nb[j]) == key_of(bs[j]) by {}
        assert forall|i: int| 0 <= i < reqs.len() implies find_key(nb, #[trigger] request_key(reqs[i]))
            >= 0 by {
            let k = request_key(reqs[i]);
            if i < q.len() {
                assert(q[i] == reqs[i]);
                lemma_find_key(bs, k);
                lemma_find_key_present(nb, find_key(bs, k), k);
            } else {
                lemma_find_key(bs, request_key(r));
                if find_key(bs, k) >= 0 {
                    lemma_find_key_present(nb, find_key(bs, k), k);
                } else {
                    lemma_find_key_present(nb, bs.len() as int, k);
                }
            }
        }
    }
}

proof fn lemma_find_key_absent(bs: Seq<BatchModel>, k: (u64, u64, (int, int, int)))
    ensures
        find_key(bs, k) < 0 ==> forall|j: int| 0 <= j < bs.len() ==> key_of(#[trigger] bs[j]) != k,
    decreases bs.len(),
{
    if bs.len() > 0 {
        lemma_find_key_absent(bs.drop_last(), k);
        if find_key(bs, k) < 0 {
            assert forall|j: int| 0 <= j < bs.len() implies key_of(#[trigger] bs[j]) != k by {
                if j < bs.len() - 1 {
                    assert(bs.drop_last()[j] == bs[j]);
                }
            }
        }
    }
}

proof fn lemma_find_key_present(bs: Seq<BatchModel>, j: int, k: (u64, u64, (int, int, int)))
    requires
        0 <= j < bs.len(),
        key_of(bs[j]) == k,
    ensures
        find_key(bs, k) >= 0,
    decreases bs.len(),
{
    if j < bs.len() - 1 && key_of(bs.last()) != k {
        assert(bs.drop_last()[j] == bs[j]);
        lemma_find_key_present(bs.drop_last(), j, k);
    }
}

} // verus!
