use vstd::prelude::*;

verus! {

/// The primitive a part of a 3D object is made from.
#[derive(Clone, Copy, Debug, PartialEq, Eq, Structural)]
pub enum PrimitiveShape {
    Cube,
    Sphere,
    Pyramid,
    Cylinder,
    HalfCylinder,
    TriangularPrism,
    PentagonPrism,
    HexagonPrism,
    Cone,
    Torus,
    CustomMesh,
    EmptyGroup,
}

/// How a part combines with the others: added, cut away, or intersected.
#[derive(Clone, Copy, Debug, PartialEq, Eq, Structural)]
pub enum BooleanOp {
    Add,
    Subtract,
    Intersect,
}

#[derive(Clone, Copy, Debug, PartialEq, Eq, Structural)]
pub enum ColliderType {
    /// No collider (serialised as `None`).
    NoCollider,
    Box,
    Sphere,
    Capsule,
    Mesh,
}

#[derive(Clone, Copy, Debug, PartialEq, Eq, Structural)]
pub enum AiBehavior {
    /// No behaviour (serialised as `None`).
    NoBehavior,
    Passive,
    Hostile,
    Fleeing,
    Patrol,
}

/// A face material tiles its texture unless told otherwise.
pub fn default_auto_tile() -> (r: bool)
    ensures
        r,
{
    true
}

/// The background of a face material that sets none.
pub fn default_bg_color() -> (r: [u8; 3])
    ensures
        r == [50u8, 50u8, 60u8],
{
    [50, 50, 60]
}

} // verus!
