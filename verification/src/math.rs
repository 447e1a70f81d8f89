//! Small integer vector types used for voxel and chunk coordinates.

use vstd::prelude::*;

use crate::text::{i32_to_chars, push_char, push_chars};

verus! {

/// A vector of three signed 32-bit integers.
#[derive(Clone, Copy, Debug, PartialEq, Eq, Structural, Hash)]
pub struct IVec3 {
    pub x: i32,
    pub y: i32,
    pub z: i32,
}

/// A vector of three unsigned 32-bit integers.
#[derive(Clone, Copy, Debug, PartialEq, Eq, Structural, Hash)]
pub struct UVec3 {
    pub x: u32,
    pub y: u32,
    pub z: u32,
}

impl IVec3 {
    pub fn new(x: i32, y: i32, z: i32) -> (r: IVec3)
        ensures
            r == (IVec3 { x, y, z }),
    {
        IVec3 { x, y, z }
    }

    pub fn splat(v: i32) -> (r: IVec3)
        ensures
            r == (IVec3 { x: v, y: v, z: v }),
    {
        IVec3 { x: v, y: v, z: v }
    }
}

impl UVec3 {
    pub fn new(x: u32, y: u32, z: u32) -> (r: UVec3)
        ensures
            r == (UVec3 { x, y, z }),
    {
        UVec3 { x, y, z }
    }

    pub fn splat(v: u32) -> (r: UVec3)
        ensures
            r == (UVec3 { x: v, y: v, z: v }),
    {
        UVec3 { x: v, y: v, z: v }
    }
}

/// How a vector is written out: `[x, y, z]`.
pub open spec fn ivec3_text(v: IVec3) -> Seq<char> {
    seq!['['] + crate::text::decimal(v.x as int) + seq![',', ' '] + crate::text::decimal(v.y as int)
        + seq![',', ' '] + crate::text::decimal(v.z as int) + seq![']']
}

impl IVec3 {
    /// The vector written out as `[x, y, z]`.
    pub fn to_string(&self) -> (s: String)
        ensures
            s@ == ivec3_text(*self),
    {
        let mut s = String::new();
        push_char(&mut s, '[');
        push_chars(&mut s, &i32_to_chars(self.x));
        push_char(&mut s, ',');
        push_char(&mut s, ' ');
        push_chars(&mut s, &i32_to_chars(self.y));
        push_char(&mut s, ',');
        push_char(&mut s, ' ');
        push_chars(&mut s, &i32_to_chars(self.z));
        push_char(&mut s, ']');
        assert(s@ =~= ivec3_text(*self));
        s
    }
}

} // verus!
