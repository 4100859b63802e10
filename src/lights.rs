//! Light sources.
use vstd::prelude::*;

use crate::math::{div_trunc, dot, neg, normalize, scale, tdiv, vsub, Vec3, SCALE};

verus! {

/// A light infinitely far away, shining along `direction`.
#[derive(Clone, Copy, Debug, PartialEq, Eq)]
pub struct DirectionalLight {
    pub direction: Vec3,
    pub power: Vec3,
}

/// A light at `position`, shining in every direction.
#[derive(Clone, Copy, Debug, PartialEq, Eq)]
pub struct PointLight {
    pub position: Vec3,
    pub power: Vec3,
}

/// An illumination source.
#[derive(Clone, Copy, Debug, PartialEq, Eq)]
pub enum LightEmitting {
    Directional(DirectionalLight),
    Point(PointLight),
}

/// `power` weighted by how squarely a surface with unit normal `n` faces
/// the unit direction `to_light`; surfaces facing away receive nothing.
pub open spec fn lambert(power: Vec3, n: Vec3, to_light: Vec3) -> Vec3 {
    let c = tdiv(dot(n, to_light), SCALE as int);
    scale(power, if c > 0 { c } else { 0 })
}

fn lambert_exec(power: &Vec3, n: &Vec3, to_light: &Vec3) -> (r: Vec3)
    requires
        power.wf(),
        n.wf(),
        to_light.wf(),
    ensures
        r == lambert(*power, *n, *to_light),
        r.wf(),
{
    let c = div_trunc(n.dot(to_light), SCALE as i128);
    power.scale(if c > 0 { c } else { 0 })
}

impl DirectionalLight {
    pub fn light_on(&self, _position: &Vec3, surface_normal: &Vec3) -> (r: Vec3)
        requires
            self.direction.wf(),
            self.power.wf(),
            surface_normal.wf(),
        ensures
            r == lambert(self.power, *surface_normal, neg(self.direction)),
            r.wf(),
    {
        lambert_exec(&self.power, surface_normal, &self.direction.neg())
    }

    pub fn dir_from(&self, _position: &Vec3) -> (r: Vec3)
        ensures
            r == neg(self.direction),
            r.wf(),
    {
        self.direction.neg()
    }
}

impl PointLight {
    pub fn light_on(&self, position: &Vec3, surface_normal: &Vec3) -> (r: Vec3)
        requires
            self.position.wf(),
            self.power.wf(),
            position.wf(),
            surface_normal.wf(),
        ensures
            r == lambert(self.power, *surface_normal, normalize(vsub(self.position, *position))),
            r.wf(),
    {
        lambert_exec(&self.power, surface_normal, &self.dir_from(position))
    }

    pub fn dir_from(&self, position: &Vec3) -> (r: Vec3)
        requires
            self.position.wf(),
            position.wf(),
        ensures
            r == normalize(vsub(self.position, *position)),
            r.wf(),
    {
        self.position.sub(position).normalize()
    }
}

impl LightEmitting {
    pub open spec fn wf(self) -> bool {
        match self {
            LightEmitting::Directional(l) => l.direction.wf() && l.power.wf(),
            LightEmitting::Point(l) => l.position.wf() && l.power.wf(),
        }
    }

    /// Unit direction from `p` back toward the light.
    pub open spec fn dir_from_spec(self, p: Vec3) -> Vec3 {
        match self {
            LightEmitting::Directional(l) => neg(l.direction),
            LightEmitting::Point(l) => normalize(vsub(l.position, p)),
        }
    }

    /// Color this light gives a surface at `p` with unit normal `n`.
    pub open spec fn light_on_spec(self, p: Vec3, n: Vec3) -> Vec3 {
        match self {
            LightEmitting::Directional(l) => lambert(l.power, n, self.dir_from_spec(p)),
            LightEmitting::Point(l) => lambert(l.power, n, self.dir_from_spec(p)),
        }
    }

    pub fn light_on(&self, position: &Vec3, surface_normal: &Vec3) -> (r: Vec3)
        requires
            self.wf(),
            position.wf(),
            surface_normal.wf(),
        ensures
            r == self.light_on_spec(*position, *surface_normal),
            r.wf(),
    {
        match self {
            LightEmitting::Directional(l) => l.light_on(position, surface_normal),
            LightEmitting::Point(l) => l.light_on(position, surface_normal),
        }
    }

    pub fn dir_from(&self, position: &Vec3) -> (r: Vec3)
        requires
            self.wf(),
            position.wf(),
        ensures
            r == self.dir_from_spec(*position),
            r.wf(),
    {
        match self {
            LightEmitting::Directional(l) => l.dir_from(position),
            LightEmitting::Point(l) => l.dir_from(position),
        }
    }
}

impl Default for DirectionalLight {
    /// White light shining straight down.
    fn default() -> (r: DirectionalLight)
        ensures
            r == (DirectionalLight {
                direction: Vec3 { x: 0, y: (-SCALE) as i64, z: 0 },
                power: Vec3 { x: SCALE, y: SCALE, z: SCALE },
            }),
    {
        DirectionalLight {
            direction: Vec3 { x: 0, y: -SCALE, z: 0 },
            power: Vec3 { x: SCALE, y: SCALE, z: SCALE },
        }
    }
}

} // verus!
