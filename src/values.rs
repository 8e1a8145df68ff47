//! Plain element types shared by the array adapters and the memory layer.
//!
//! Floating-point components are held as their IEEE-754 bit patterns: the
//! library moves and compares them bit for bit and never computes with them.
use vstd::prelude::*;

verus! {

/// A 2D vector of two 32-bit floats.
#[derive(PartialEq, Eq, Structural, Clone, Copy, Debug)]
pub struct Vector2 {
    pub x: u32,
    pub y: u32,
}

/// A 3D vector of three 32-bit floats.
#[derive(PartialEq, Eq, Structural, Clone, Copy, Debug)]
pub struct Vector3 {
    pub x: u32,
    pub y: u32,
    pub z: u32,
}

/// An RGBA color of four 32-bit floats.
#[derive(PartialEq, Eq, Structural, Clone, Copy, Debug)]
pub struct Color {
    pub r: u32,
    pub g: u32,
    pub b: u32,
    pub a: u32,
}

} // verus!
