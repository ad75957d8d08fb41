//! Post-build resolution: typed behaviors from an entity's classname and
//! properties, and the mover state machine.
use vstd::prelude::*;
use crate::geom::{zero_vector, Vec3};
use crate::text::SCALE;
use crate::props::{bool_or, classname_of, lookup, number_or, vec3_or, Properties};

verus! {

/// Default point-light range: 10 units.
pub const DEFAULT_RANGE: i64 = 10_000;

/// Default point-light intensity: 800.
pub const DEFAULT_INTENSITY: i64 = 800_000;

/// Default directional-light illuminance: 10000.
pub const DEFAULT_ILLUMINANCE: i64 = 10_000_000;

/// Default time spent moving: one second, in thousandths.
pub const DEFAULT_MOVING_TIME: i64 = 1_000;

/// Default time spent at the destination: two seconds, in thousandths.
pub const DEFAULT_DESTINATION_TIME: i64 = 2_000;

/// Full channel value of a colour.
pub const FULL: i64 = SCALE;

#[derive(Debug)]
pub struct PointLight {
    pub color: Vec3,
    pub radius: i64,
    pub range: i64,
    pub intensity: i64,
    pub shadows: bool,
}

#[derive(Debug)]
pub struct DirectionalLight {
    pub color: Vec3,
    pub illuminance: i64,
    pub shadows: bool,
}

#[derive(Clone, Copy, Debug, PartialEq, Eq, Structural)]
pub enum MoverState {
    IdleAtOrigin,
    MovingToDestination,
    IdleAtDestination,
    MovingToOrigin,
}

/// Timing in thousandths of a second; the offset in map coordinates.
#[derive(Debug)]
pub struct Mover {
    pub moving_time: i64,
    pub destination_time: i64,
    pub destination_offset: Vec3,
    pub state: MoverState,
}

#[derive(Debug)]
pub struct Door {
    /// The key that opens the door; none when the property is absent.
    pub key: Option<String>,
    pub open_once: bool,
}

/// What the post-build pass attaches to one entity.
#[derive(Debug)]
pub enum Behavior {
    Inert,
    PointLight(PointLight),
    DirectionalLight(DirectionalLight),
    Mover { mover: Mover, door: Option<Door> },
}

pub open spec fn white() -> Vec3 {
    Vec3 { x: FULL, y: FULL, z: FULL }
}

/// The kind of mover, `linear` when unspecified.
pub open spec fn mover_kind_of(p: Properties) -> Seq<char> {
    match p.value_of("mover_kind"@) {
        Some(k) => k,
        None => "linear"@,
    }
}

pub open spec fn point_light_fits(l: PointLight, p: Properties) -> bool {
    &&& l.color@ == vec3_or(p.value_of("color"@), white())
    &&& l.radius == number_or(p.value_of("radius"@), 0)
    &&& l.range == number_or(p.value_of("range"@), DEFAULT_RANGE as int)
    &&& l.intensity == number_or(p.value_of("intensity"@), DEFAULT_INTENSITY as int)
    &&& l.shadows == bool_or(p.value_of("shadows_enabled"@), false)
}

pub open spec fn directional_light_fits(l: DirectionalLight, p: Properties) -> bool {
    &&& l.color@ == vec3_or(p.value_of("color"@), white())
    &&& l.illuminance == number_or(p.value_of("illuminance"@), DEFAULT_ILLUMINANCE as int)
    &&& l.shadows == bool_or(p.value_of("shadows_enabled"@), false)
}

pub open spec fn mover_fits(m: Mover, p: Properties) -> bool {
    &&& m.moving_time == number_or(p.value_of("moving_time"@), DEFAULT_MOVING_TIME as int)
    &&& m.destination_time == number_or(
        p.value_of("destination_time"@),
        DEFAULT_DESTINATION_TIME as int,
    )
    &&& m.destination_offset@ == vec3_or(p.value_of("destination_offset"@), zero_vector())
    &&& m.state == MoverState::IdleAtOrigin
}

pub open spec fn door_fits(d: Option<Door>, p: Properties) -> bool {
    if mover_kind_of(p) == "door"@ {
        &&& d matches Some(door)
        &&& (match (door.key, p.value_of("key"@)) {
            (Some(k), Some(v)) => k@ == v,
            (None, None) => true,
            _ => false,
        })
        &&& door.open_once == bool_or(p.value_of("open_once"@), false)
    } else {
        d is None
    }
}

/// The behavior an entity with properties `p` gets.
pub open spec fn behavior_fits(b: Behavior, p: Properties) -> bool {
    let c = classname_of(p);
    if c == "light"@ {
        b matches Behavior::PointLight(l) && point_light_fits(l, p)
    } else if c == "directional_light"@ {
        b matches Behavior::DirectionalLight(l) && directional_light_fits(l, p)
    } else if c == "mover"@ {
        b matches Behavior::Mover { mover, door } && mover_fits(mover, p) && door_fits(door, p)
    } else {
        b is Inert
    }
}

/// Reads the typed behavior of one entity from its properties.
pub fn resolve_behavior(p: &Properties) -> (r: Behavior)
    ensures
        behavior_fits(r, *p),
{
    let classname = p.get_property_as_string("classname", "");
    proof {
        reveal_strlit("");
        assert(""@ =~= Seq::<char>::empty());
    }
    let white = Vec3 { x: FULL, y: FULL, z: FULL };
    if classname == "light".to_owned() {
        Behavior::PointLight(PointLight {
            color: p.get_property_as_color("color", white),
            radius: p.get_property_as_number("radius", 0),
            range: p.get_property_as_number("range", DEFAULT_RANGE),
            intensity: p.get_property_as_number("intensity", DEFAULT_INTENSITY),
            shadows: p.get_property_as_bool("shadows_enabled", false),
        })
    } else if classname == "directional_light".to_owned() {
        Behavior::DirectionalLight(DirectionalLight {
            color: p.get_property_as_color("color", white),
            illuminance: p.get_property_as_number("illuminance", DEFAULT_ILLUMINANCE),
            shadows: p.get_property_as_bool("shadows_enabled", false),
        })
    } else if classname == "mover".to_owned() {
        let mover = Mover {
            moving_time: p.get_property_as_number("moving_time", DEFAULT_MOVING_TIME),
            destination_time: p.get_property_as_number("destination_time", DEFAULT_DESTINATION_TIME),
            destination_offset: p.get_property_as_vec3("destination_offset", Vec3::zero()),
            state: MoverState::IdleAtOrigin,
        };
        let kind = p.get_property_as_string("mover_kind", "linear");
        let door = if kind == "door".to_owned() {
            Some(
                Door {
                    key: p.get_property_as_string_opt("key"),
                    open_once: p.get_property_as_bool("open_once", false),
                },
            )
        } else {
            None
        };
        Behavior::Mover { mover, door }
    } else {
        Behavior::Inert
    }
}

/// A trigger starts a move out of either resting state; while moving it is ignored.
pub open spec fn triggered(s: MoverState) -> MoverState {
    match s {
        MoverState::IdleAtOrigin => MoverState::MovingToDestination,
        MoverState::IdleAtDestination => MoverState::MovingToOrigin,
        _ => s,
    }
}

/// The state after the current phase has run its time. A door that opens
/// once stays at its destination; so does the mover at its origin.
pub open spec fn after_phase(s: MoverState, open_once: bool) -> MoverState {
    match s {
        MoverState::MovingToDestination => MoverState::IdleAtDestination,
        MoverState::MovingToOrigin => MoverState::IdleAtOrigin,
        MoverState::IdleAtDestination => if open_once {
            s
        } else {
            MoverState::MovingToOrigin
        },
        MoverState::IdleAtOrigin => s,
    }
}

/// How long state `s` lasts before it ends by itself; none for a resting state
/// that only a trigger ends.
pub open spec fn phase_length(m: Mover, s: MoverState, open_once: bool) -> Option<i64> {
    match s {
        MoverState::MovingToDestination | MoverState::MovingToOrigin => Some(m.moving_time),
        MoverState::IdleAtDestination => if open_once {
            None
        } else {
            Some(m.destination_time)
        },
        MoverState::IdleAtOrigin => None,
    }
}

impl MoverState {
    pub fn on_trigger(self) -> (r: MoverState)
        ensures
            r == triggered(self),
    {
        match self {
            MoverState::IdleAtOrigin => MoverState::MovingToDestination,
            MoverState::IdleAtDestination => MoverState::MovingToOrigin,
            _ => self,
        }
    }

    pub fn on_phase_end(self, open_once: bool) -> (r: MoverState)
        ensures
            r == after_phase(self, open_once),
    {
        match self {
            MoverState::MovingToDestination => MoverState::IdleAtDestination,
            MoverState::MovingToOrigin => MoverState::IdleAtOrigin,
            MoverState::IdleAtDestination => if open_once {
                self
            } else {
                MoverState::MovingToOrigin
            },
            MoverState::IdleAtOrigin => self,
        }
    }
}

impl Mover {
    /// How long the current state lasts before it ends by itself.
    pub fn phase_length(&self, open_once: bool) -> (r: Option<i64>)
        ensures
            r == phase_length(*self, self.state, open_once),
    {
        match self.state {
            MoverState::MovingToDestination | MoverState::MovingToOrigin => Some(self.moving_time),
            MoverState::IdleAtDestination => if open_once {
                None
            } else {
                Some(self.destination_time)
            },
            MoverState::IdleAtOrigin => None,
        }
    }
}

/// A `mover` with no other property moves for one second, rests two seconds
/// at its destination, has no offset, starts idle at its origin, and is no door.
pub proof fn lemma_mover_defaults(p: Properties, b: Behavior)
    requires
        p@ == seq![("classname"@, "mover"@)],
        behavior_fits(b, p),
    ensures
        b matches Behavior::Mover { mover, door } && mover.moving_time == DEFAULT_MOVING_TIME
            && mover.destination_time == DEFAULT_DESTINATION_TIME && mover.destination_offset@ == (
        0int, 0int, 0int) && mover.state == MoverState::IdleAtOrigin && door is None,
{
    reveal_strlit("classname");
    reveal_strlit("mover");
    reveal_strlit("moving_time");
    reveal_strlit("destination_time");
    reveal_strlit("destination_offset");
    reveal_strlit("mover_kind");
    reveal_strlit("light");
    reveal_strlit("directional_light");
    reveal_strlit("door");
    reveal_strlit("linear");
    let e = p@;
    assert(e.drop_last() =~= Seq::<(Seq<char>, Seq<char>)>::empty());
    assert(p.value_of("classname"@) == Some("mover"@));
    assert("moving_time"@ != "classname"@) by {
        assert("moving_time"@.len() != "classname"@.len());
    }
    assert("destination_time"@ != "classname"@) by {
        assert("destination_time"@.len() != "classname"@.len());
    }
    assert("destination_offset"@ != "classname"@) by {
        assert("destination_offset"@.len() != "classname"@.len());
    }
    assert("mover_kind"@ != "classname"@) by {
        assert("mover_kind"@.len() != "classname"@.len());
    }
    assert("mover"@ != "light"@) by {
        assert("mover"@.len() != "light"@.len() || "mover"@[0] != "light"@[0]);
    }
    assert("mover"@ != "directional_light"@) by {
        assert("mover"@.len() != "directional_light"@.len());
    }
    assert("linear"@ != "door"@) by {
        assert("linear"@.len() != "door"@.len());
    }
    assert(e.last().0 == "classname"@);
    assert(lookup(e.drop_last(), "moving_time"@) is None);
    assert(lookup(e.drop_last(), "destination_time"@) is None);
    assert(lookup(e.drop_last(), "destination_offset"@) is None);
    assert(lookup(e.drop_last(), "mover_kind"@) is None);
    assert(p.value_of("moving_time"@) is None);
    assert(p.value_of("destination_time"@) is None);
    assert(p.value_of("destination_offset"@) is None);
    assert(p.value_of("mover_kind"@) is None);
}

/// A `mover` gets a door exactly when its `mover_kind` is `door`.
pub proof fn lemma_door_detection(p: Properties, b: Behavior)
    requires
        classname_of(p) == "mover"@,
        behavior_fits(b, p),
    ensures
        b matches Behavior::Mover { mover, door } && (door is Some <==> p.value_of("mover_kind"@)
            == Some("door"@)),
{
    reveal_strlit("mover");
    reveal_strlit("light");
    reveal_strlit("directional_light");
    reveal_strlit("door");
    reveal_strlit("linear");
    assert("mover"@ != "light"@) by {
        assert("mover"@[0] != "light"@[0]);
    }
    assert("mover"@ != "directional_light"@) by {
        assert("mover"@.len() != "directional_light"@.len());
    }
    assert("linear"@ != "door"@) by {
        assert("linear"@.len() != "door"@.len());
    }
}

} // verus!
