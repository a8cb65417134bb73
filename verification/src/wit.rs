//! Value types of the guest/host interface.
use vstd::prelude::*;

verus! {

/// A vector of 2 `u32` on the interface.
#[derive(Clone, Copy, PartialEq, Eq, Structural, Debug)]
pub struct Uvec2 {
    pub x: u32,
    pub y: u32,
}

/// A vector of 3 `u32` on the interface.
#[derive(Clone, Copy, PartialEq, Eq, Structural, Debug)]
pub struct Uvec3 {
    pub x: u32,
    pub y: u32,
    pub z: u32,
}

/// A vector of 4 `u32` on the interface.
#[derive(Clone, Copy, PartialEq, Eq, Structural, Debug)]
pub struct Uvec4 {
    pub x: u32,
    pub y: u32,
    pub z: u32,
    pub w: u32,
}

/// A vector of 2 `i32` on the interface.
#[derive(Clone, Copy, PartialEq, Eq, Structural, Debug)]
pub struct Ivec2 {
    pub x: i32,
    pub y: i32,
}

/// A vector of 3 `i32` on the interface.
#[derive(Clone, Copy, PartialEq, Eq, Structural, Debug)]
pub struct Ivec3 {
    pub x: i32,
    pub y: i32,
    pub z: i32,
}

/// A vector of 4 `i32` on the interface.
#[derive(Clone, Copy, PartialEq, Eq, Structural, Debug)]
pub struct Ivec4 {
    pub x: i32,
    pub y: i32,
    pub z: i32,
    pub w: i32,
}

/// A span of time on the interface; the nanoseconds may exceed a second.
#[derive(Clone, Copy, PartialEq, Eq, Structural, Debug)]
pub struct Duration {
    pub seconds: u64,
    pub nanoseconds: u32,
}


} // verus!
