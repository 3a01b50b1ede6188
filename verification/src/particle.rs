use crate::scalar::{FIFTH, HALF, ONE, QUARTER, TEN, THOUSAND, THREE, TWO, ZERO};
use vstd::prelude::*;

verus! {

/// Radius of an ordinary particle: one half.
pub const PARTICLE_RADIUS: u32 = HALF;

/// A point or a vector of the plane, each coordinate held as the bit pattern of its value.
#[derive(Clone, Copy, Debug, PartialEq, Eq, Structural)]
pub struct Vec2 {
    pub x: u32,
    pub y: u32,
}

/// A colour: linear red, green, blue and alpha, each held as the bit pattern of its value.
#[derive(Clone, Copy, Debug, PartialEq, Eq, Structural)]
pub struct Color {
    pub r: u32,
    pub g: u32,
    pub b: u32,
    pub a: u32,
}

/// What a particle does to the particles that it touches.
#[derive(Clone, Copy, Debug, PartialEq, Eq)]
pub enum Kind {
    /// Nothing.
    Plain,
    /// Passes through motors.
    Spike,
    /// Drives what it touches sideways, with the given acceleration.
    Motor(u32),
    /// Throws off what it touches while its budget, the value held, lasts.
    Impulse(u32),
    /// Binds itself to the first particle it touches: the number of bonds it may still
    /// make, and the partner that it touched and is not yet bound to.
    Sticky(u8, Option<usize>),
}

impl Kind {
    /// The kind that does nothing.
    pub fn none(&self) -> (r: bool)
        ensures
            r == (*self == Kind::Plain),
    {
        match self {
            Kind::Plain => true,
            _ => false,
        }
    }

    pub open spec fn spec_is_motor(&self) -> bool {
        self is Motor
    }

    #[verifier::when_used_as_spec(spec_is_motor)]
    pub fn is_motor(&self) -> (r: bool)
        ensures
            r == (*self is Motor),
    {
        match self {
            Kind::Motor(_) => true,
            _ => false,
        }
    }

    pub open spec fn spec_is_special(&self) -> bool {
        self is Sticky
    }

    /// Kinds that need a look after the collisions of a step: the sticky ones.
    #[verifier::when_used_as_spec(spec_is_special)]
    pub fn is_special(&self) -> (r: bool)
        ensures
            r == (*self is Sticky),
    {
        match self {
            Kind::Sticky(_, _) => true,
            _ => false,
        }
    }

    /// Two kinds collide unless one is a motor and the other a spike.
    pub open spec fn collides(&self, kind: &Kind) -> bool {
        !(*self is Motor && *kind is Spike) && !(*self is Spike && *kind is Motor)
    }

    pub fn can_collide_with(&self, kind: &Kind) -> (r: bool)
        ensures
            r == self.collides(kind),
    {
        match self {
            Kind::Motor(_) => match kind {
                Kind::Spike => false,
                _ => true,
            },
            Kind::Spike => !kind.is_motor(),
            _ => true,
        }
    }

    /// The kind after it touched particle `other`: a sticky kind that may still bind and
    /// waits for no partner notes `other` and has one bond fewer left; any other kind stays.
    pub open spec fn touched(&self, other: usize) -> Kind {
        match *self {
            Kind::Sticky(remaining, None) if remaining > 0 => Kind::Sticky(
                (remaining - 1) as u8,
                Some(other),
            ),
            k => k,
        }
    }

    /// Notes the touch of particle `other`.
    pub fn touch(&mut self, other: usize)
        ensures
            *final(self) == old(self).touched(other),
    {
        match *self {
            Kind::Sticky(remaining, None) => {
                if remaining > 0 {
                    *self = Kind::Sticky(remaining - 1, Some(other));
                }
            },
            _ => {},
        }
    }
}

/// Symmetry of the collision table.
pub proof fn lemma_collides_symmetric(a: Kind, b: Kind)
    ensures
        a.collides(&b) == b.collides(&a),
{
}

/// A sticky kind never gains bonds: touching does not raise the number that it has left,
/// and lowers it by one exactly when it notes a partner.
pub proof fn lemma_touch_monotonic(k: Kind, other: usize)
    ensures
        match (k, k.touched(other)) {
            (Kind::Sticky(before, was), Kind::Sticky(after, now)) => after <= before && (after
                < before <==> was is None && now == Some(other) && after + 1 == before),
            (a, b) => a == b,
        },
{
}

/// A point mass.
#[derive(Clone, Copy, Debug, PartialEq, Eq)]
pub struct Particle {
    pub radius: u32,
    pub mass: u32,
    pub pos: Vec2,
    pub pos_old: Vec2,
    pub acc: Vec2,
    pub texture: u32,
    pub kind: Kind,
    pub color: Color,
}

/// A plain white particle of radius one half and mass one, at rest at the origin.
pub open spec fn blank() -> Particle {
    Particle {
        radius: PARTICLE_RADIUS,
        mass: ONE,
        pos: Vec2 { x: ZERO, y: ZERO },
        pos_old: Vec2 { x: ZERO, y: ZERO },
        acc: Vec2 { x: ZERO, y: ZERO },
        texture: 0,
        kind: Kind::Plain,
        color: Color { r: ONE, g: ONE, b: ONE, a: ONE },
    }
}

impl Particle {
    /// A plain white particle of radius one half and mass one, at rest at the origin.
    pub fn null() -> (p: Self)
        ensures
            p == blank(),
    {
        Particle {
            radius: PARTICLE_RADIUS,
            mass: ONE,
            pos: Vec2 { x: ZERO, y: ZERO },
            pos_old: Vec2 { x: ZERO, y: ZERO },
            acc: Vec2 { x: ZERO, y: ZERO },
            texture: 0,
            kind: Kind::Plain,
            color: Color { r: ONE, g: ONE, b: ONE, a: ONE },
        }
    }

    /// The particle at rest at `pos`.
    pub fn with_position(self, pos: Vec2) -> (p: Self)
        ensures
            p == (Particle { pos, pos_old: pos, ..self }),
    {
        Particle { pos, pos_old: pos, ..self }
    }

    pub fn with_kind(self, kind: Kind) -> (p: Self)
        ensures
            p == (Particle { kind, ..self }),
    {
        Particle { kind, ..self }
    }

    pub fn with_color(self, color: Color) -> (p: Self)
        ensures
            p == (Particle { color, ..self }),
    {
        Particle { color, ..self }
    }

    /// A particle at rest at `pos`, with no acceleration.
    pub fn new(radius: u32, mass: u32, pos: Vec2, texture: u32, kind: Kind, color: Color) -> (p:
        Self)
        ensures
            p == (Particle {
                radius,
                mass,
                pos,
                pos_old: pos,
                acc: Vec2 { x: ZERO, y: ZERO },
                texture,
                kind,
                color,
            }),
    {
        Particle {
            radius,
            mass,
            pos,
            pos_old: pos,
            acc: Vec2 { x: ZERO, y: ZERO },
            texture,
            kind,
            color,
        }
    }

    /// Moves the particle to `pos`; its acceleration is kept or set to zero.
    pub fn set_position(&mut self, pos: Vec2, keep_acc: bool)
        ensures
            *final(self) == (Particle {
                pos,
                acc: if keep_acc {
                    old(self).acc
                } else {
                    Vec2 { x: ZERO, y: ZERO }
                },
                ..*old(self)
            }),
    {
        self.pos = pos;
        if !keep_acc {
            self.acc = Vec2 { x: ZERO, y: ZERO };
        }
    }

    pub fn set_kind(&mut self, kind: Kind)
        ensures
            *final(self) == (Particle { kind, ..*old(self) }),
    {
        self.kind = kind;
    }

    pub open spec fn spec_is_motor(&self) -> bool {
        self.kind is Motor
    }

    #[verifier::when_used_as_spec(spec_is_motor)]
    pub fn is_motor(&self) -> (r: bool)
        ensures
            r == (self.kind is Motor),
    {
        self.kind.is_motor()
    }

    pub open spec fn spec_is_special(&self) -> bool {
        self.kind is Sticky
    }

    #[verifier::when_used_as_spec(spec_is_special)]
    pub fn is_special(&self) -> (r: bool)
        ensures
            r == (self.kind is Sticky),
    {
        self.kind.is_special()
    }
}

/// Ground: mass one.
pub fn ground() -> (p: Particle)
    ensures
        p == (Particle { texture: 1, ..blank() }),
{
    Particle { texture: 1, ..Particle::null() }
}

/// Metal: mass three.
pub fn metal() -> (p: Particle)
    ensures
        p == (Particle { mass: THREE, texture: 2, ..blank() }),
{
    Particle { mass: THREE, texture: 2, ..Particle::null() }
}

/// A motor of mass three that stands still.
pub fn motor() -> (p: Particle)
    ensures
        p == (Particle { mass: THREE, texture: 3, kind: Kind::Motor(ZERO), ..blank() }),
{
    Particle { mass: THREE, texture: 3, kind: Kind::Motor(ZERO), ..Particle::null() }
}

/// A spike: mass one fifth, radius one quarter.
pub fn spike() -> (p: Particle)
    ensures
        p == (Particle {
            mass: FIFTH,
            texture: 4,
            radius: QUARTER,
            kind: Kind::Spike,
            ..blank()
        }),
{
    Particle { mass: FIFTH, texture: 4, radius: QUARTER, kind: Kind::Spike, ..Particle::null() }
}

/// The red of projectiles.
pub open spec fn red() -> Color {
    Color { r: ONE, g: ZERO, b: ZERO, a: ONE }
}

/// The heavy projectile: mass ten.
pub fn projectile_heavy() -> (p: Particle)
    ensures
        p == (Particle { mass: TEN, texture: 2, color: red(), ..blank() }),
{
    Particle {
        mass: TEN,
        texture: 2,
        color: Color { r: ONE, g: ZERO, b: ZERO, a: ONE },
        ..Particle::null()
    }
}

/// The impulse projectile: mass two, with a budget of one thousand.
pub fn projectile_impulse() -> (p: Particle)
    ensures
        p == (Particle {
            mass: TWO,
            texture: 2,
            color: red(),
            kind: Kind::Impulse(THOUSAND),
            ..blank()
        }),
{
    Particle {
        mass: TWO,
        texture: 2,
        color: Color { r: ONE, g: ZERO, b: ZERO, a: ONE },
        kind: Kind::Impulse(THOUSAND),
        ..Particle::null()
    }
}

/// The sticky projectile: mass two, binds once.
pub fn projectile_sticky() -> (p: Particle)
    ensures
        p == (Particle {
            mass: TWO,
            texture: 2,
            color: red(),
            kind: Kind::Sticky(1, None),
            ..blank()
        }),
{
    Particle {
        mass: TWO,
        texture: 2,
        color: Color { r: ONE, g: ZERO, b: ZERO, a: ONE },
        kind: Kind::Sticky(1, None),
        ..Particle::null()
    }
}

} // verus!
