//! The entity pass of a map build: one record per entity, and the brushes of
//! every brush entity.
use vstd::prelude::*;
use crate::behavior::{behavior_fits, resolve_behavior, Behavior};
use crate::brush::{
    brush_points, build_brush, collision_fits, faces_wf, fragments_fit, total_vertices,
    trigger_kind_of, BrushBuild, BuildError, Face, TextureInfo,
};
use crate::geom::{zero_vector, Vec3};
use crate::mesh::MAX_VERTICES;
use crate::props::{classname_of, vec3_or, Properties};

verus! {

/// One entity of a map; `brushes` is `None` for a point entity.
pub struct MapEntity {
    pub properties: Properties,
    pub brushes: Option<Vec<Vec<Face>>>,
}

/// What the scene keeps of an entity. A brush entity carries no transform
/// of its own: its origin and angles are zero. Coordinates are in map space.
#[derive(Debug)]
pub struct EntityRecord {
    pub classname: String,
    pub origin: Vec3,
    pub angles: Vec3,
    pub target_name: Option<String>,
    pub brush_entity: bool,
}

/// A built brush and where it came from.
#[derive(Debug)]
pub struct BuiltBrush {
    pub entity: usize,
    pub brush: usize,
    pub build: BrushBuild,
}

#[derive(Debug)]
pub struct MapBuild {
    pub entities: Vec<EntityRecord>,
    pub brushes: Vec<BuiltBrush>,
}

pub open spec fn record_fits(r: EntityRecord, p: Properties, brush_entity: bool) -> bool {
    &&& r.classname@ == classname_of(p)
    &&& r.brush_entity == brush_entity
    &&& r.origin@ == if brush_entity {
        zero_vector()@
    } else {
        vec3_or(p.value_of("origin"@), zero_vector())
    }
    &&& r.angles@ == if brush_entity {
        zero_vector()@
    } else {
        vec3_or(p.value_of("angles"@), zero_vector())
    }
    &&& (match (r.target_name, p.value_of("targetname"@)) {
        (Some(t), Some(v)) => t@ == v,
        (None, None) => true,
        _ => false,
    })
}

/// The record of an entity with properties `p`.
pub fn entity_record(p: &Properties, brush_entity: bool) -> (r: EntityRecord)
    ensures
        record_fits(r, *p, brush_entity),
{
    let classname = p.get_property_as_string("classname", "");
    proof {
        reveal_strlit("");
        assert(""@ =~= Seq::<char>::empty());
    }
    let (origin, angles) = if brush_entity {
        (Vec3::zero(), Vec3::zero())
    } else {
        (p.get_property_as_vec3("origin", Vec3::zero()), p.get_property_as_vec3("angles", Vec3::zero()))
    };
    EntityRecord {
        classname,
        origin,
        angles,
        target_name: p.get_property_as_string_opt("targetname"),
        brush_entity,
    }
}

pub open spec fn brushes_wf(bs: Seq<Vec<Face>>) -> bool {
    forall|j: int|
        0 <= j < bs.len() ==> faces_wf((#[trigger] bs[j])@) && total_vertices(bs[j]@) <= MAX_VERTICES
}

pub open spec fn entities_wf(es: Seq<MapEntity>) -> bool {
    forall|i: int| 0 <= i < es.len() ==> ((#[trigger] es[i]).brushes matches Some(bs) ==> brushes_wf(bs@))
}

/// A brush of this entity cannot be built: it is a trigger without target.
pub open spec fn lacks_target(e: MapEntity) -> bool {
    &&& e.brushes matches Some(bs) && bs@.len() > 0
    &&& trigger_kind_of(classname_of(e.properties)) is Some
    &&& e.properties.value_of("target"@) is None
}

/// Entity and brush index of every brush, entity by entity.
pub open spec fn slots(es: Seq<MapEntity>) -> Seq<(int, int)>
    decreases es.len(),
{
    if es.len() == 0 {
        Seq::empty()
    } else {
        let n = es.len() - 1;
        let k: int = match es.last().brushes {
            Some(bs) => bs@.len() as int,
            None => 0,
        };
        slots(es.drop_last()) + Seq::new(k as nat, |j: int| (n, j))
    }
}

pub open spec fn built_fits(b: BuiltBrush, es: Seq<MapEntity>, slot: (int, int)) -> bool {
    let e = es[slot.0];
    let faces = e.brushes->0@[slot.1]@;
    &&& b.entity == slot.0
    &&& b.brush == slot.1
    &&& b.build.points@ == brush_points(faces)
    &&& collision_fits(b.build.collision, e.properties, faces)
}

pub open spec fn built_fragments_fit(b: BuiltBrush, es: Seq<MapEntity>, reg: Seq<TextureInfo>) -> bool {
    fragments_fit(b.build.fragments@, es[b.entity as int].brushes->0@[b.brush as int]@, reg)
}

/// Records every entity and builds every brush of every brush entity, in
/// order. Fails when some brush entity with brushes is a trigger without
/// `target`.
pub fn build_map(es: &Vec<MapEntity>, reg: &Vec<TextureInfo>) -> (r: Result<MapBuild, BuildError>)
    requires
        entities_wf(es@),
    ensures
        r is Err <==> exists|i: int| 0 <= i < es@.len() && lacks_target(#[trigger] es@[i]),
        r matches Ok(m) ==> {
            &&& m.entities@.len() == es@.len()
            &&& forall|i: int|
                0 <= i < es@.len() ==> record_fits(
                    #[trigger] m.entities@[i],
                    es@[i].properties,
                    es@[i].brushes is Some,
                )
            &&& m.brushes@.len() == slots(es@).len()
            &&& forall|k: int|
                0 <= k < m.brushes@.len() ==> built_fits(#[trigger] m.brushes@[k], es@, slots(es@)[k])
                    && built_fragments_fit(m.brushes@[k], es@, reg@)
        },
{
    let ghost s = es@;
    let mut records: Vec<EntityRecord> = Vec::new();
    let mut built: Vec<BuiltBrush> = Vec::new();
    let mut i: usize = 0;
    while i < es.len()
        invariant
            i <= es.len(),
            s == es@,
            entities_wf(s),
            forall|q: int| 0 <= q < i ==> !lacks_target(#[trigger] s[q]),
            records@.len() == i,
            forall|q: int|
                0 <= q < i ==> record_fits(#[trigger] records@[q], s[q].properties, s[q].brushes is Some),
            built@.len() == slots(s.take(i as int)).len(),
            forall|k: int|
                0 <= k < built@.len() ==> built_fits(#[trigger] built@[k], s, slots(s.take(i as int))[k])
                    && built_fragments_fit(built@[k], s, reg@),
        decreases es.len() - i,
    {
        let e = &es[i];
        let ghost pre = s.take(i as int);
        let ghost next = s.take(i as int + 1);
        assert(next.drop_last() =~= pre);
        assert(next.last() == s[i as int]);
        let rec = entity_record(&e.properties, e.brushes.is_some());
        records.push(rec);
        let ghost before = built@;
        match &e.brushes {
            None => {
                assert(slots(next) =~= slots(pre));
                assert(!lacks_target(s[i as int]));
            },
            Some(bs) => {
                assert(brushes_wf(bs@));
                let mut j: usize = 0;
                while j < bs.len()
                    invariant
                        j <= bs.len(),
                        s == es@,
                        i < s.len(),
                        e == &s[i as int],
                        e.brushes == Some(*bs),
                        brushes_wf(bs@),
                        built@.len() == before.len() + j,
                        j > 0 ==> !(trigger_kind_of(classname_of(e.properties)) is Some
                            && e.properties.value_of("target"@) is None),
                        before.len() == slots(pre).len(),
                        forall|k: int| 0 <= k < before.len() ==> built@[k] == before[k],
                        forall|k: int|
                            0 <= k < j ==> built_fits(
                                #[trigger] built@[before.len() + k],
                                s,
                                (i as int, k),
                            ) && built_fragments_fit(built@[before.len() + k], s, reg@),
                    decreases bs.len() - j,
                {
                    assert(faces_wf(bs@[j as int]@));
                    match build_brush(&e.properties, &bs[j], reg) {
                        Ok(b) => {
                            built.push(BuiltBrush { entity: i, brush: j, build: b });
                        },
                        Err(err) => {
                            assert(lacks_target(s[i as int]));
                            return Err(err);
                        },
                    }
                    j = j + 1;
                }
                assert(slots(next) =~= slots(pre) + Seq::new(bs@.len(), |q: int| (i as int, q)));
                assert forall|k: int| 0 <= k < built@.len() implies built_fits(
                    #[trigger] built@[k],
                    s,
                    slots(next)[k],
                ) && built_fragments_fit(built@[k], s, reg@) by {
                    if k >= before.len() {
                        assert(slots(next)[k] == (i as int, k - before.len()));
                        assert(built_fits(built@[before.len() + (k - before.len())], s, (i as int, k - before.len())));
                    } else {
                        assert(slots(next)[k] == slots(pre)[k]);
                        assert(built@[k] == before[k]);
                    }
                }
                assert(!lacks_target(s[i as int]));
            },
        }
        i = i + 1;
    }
    assert(s.take(es.len() as int) =~= s);
    Ok(MapBuild { entities: records, brushes: built })
}

/// The behaviors of all entities, in order.
pub fn resolve_all(es: &Vec<MapEntity>) -> (r: Vec<Behavior>)
    ensures
        r@.len() == es@.len(),
        forall|i: int| 0 <= i < es@.len() ==> behavior_fits(#[trigger] r@[i], es@[i].properties),
{
    let mut out: Vec<Behavior> = Vec::new();
    let mut i: usize = 0;
    while i < es.len()
        invariant
            i <= es.len(),
            out@.len() == i,
            forall|q: int| 0 <= q < i ==> behavior_fits(#[trigger] out@[q], es@[q].properties),
        decreases es.len() - i,
    {
        out.push(resolve_behavior(&es[i].properties));
        i = i + 1;
    }
    out
}

} // verus!
