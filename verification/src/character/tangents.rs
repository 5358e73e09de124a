//! The mesh corner by corner, as tangents are made from it.

use crate::arith::{Vec3, ONE, ZERO};
use crate::character::gltf::{corner, MeshData, Quad, Uv};
use crate::single::single;
use vstd::prelude::*;

verus! {

impl MeshData {
    /// Every triangle names vertices that have a position, a normal and texture
    /// coordinates.
    pub open spec fn sound(self) -> bool {
        forall|i: int|
            0 <= i < self.indices@.len() ==> {
                &&& (#[trigger] self.indices@[i]) < self.positions@.len()
                &&& self.indices@[i] < self.normals@.len()
                &&& self.indices@[i] < self.texcoords@.len()
            }
    }

    /// The vertex at a corner of a triangle.
    pub open spec fn vertex_at(self, face: int, vert: int) -> int {
        self.indices@[face * 3 + vert] as int
    }

    /// Whether every triangle names vertices that there are.
    pub fn is_sound(&self) -> (r: bool)
        ensures
            r == self.sound(),
    {
        let mut i: usize = 0;
        while i < self.indices.len()
            invariant
                i <= self.indices@.len(),
                forall|k: int|
                    0 <= k < i ==> {
                        &&& (#[trigger] self.indices@[k]) < self.positions@.len()
                        &&& self.indices@[k] < self.normals@.len()
                        &&& self.indices@[k] < self.texcoords@.len()
                    },
            decreases self.indices@.len() - i,
        {
            let at: usize = self.indices[i] as usize;
            if at >= self.positions.len() || at >= self.normals.len() || at
                >= self.texcoords.len() {
                assert(!(self.indices@[i as int] < self.positions@.len() && self.indices@[i as int]
                    < self.normals@.len() && self.indices@[i as int] < self.texcoords@.len()));
                return false;
            }
            i = i + 1;
        }
        true
    }

    pub fn num_faces(&self) -> (r: usize)
        ensures
            r == self.indices@.len() as int / 3,
    {
        self.indices.len() / 3
    }

    pub fn position(&self, face: usize, vert: usize) -> (r: Vec3)
        requires
            self.sound(),
            face < self.indices@.len() as int / 3,
            vert < 3,
        ensures
            r == self.positions@[self.vertex_at(face as int, vert as int)],
    {
        self.positions[corner(&self.indices, face, vert) as usize]
    }

    pub fn normal(&self, face: usize, vert: usize) -> (r: Vec3)
        requires
            self.sound(),
            face < self.indices@.len() as int / 3,
            vert < 3,
        ensures
            r == self.normals@[self.vertex_at(face as int, vert as int)],
    {
        self.normals[corner(&self.indices, face, vert) as usize]
    }

    pub fn tex_coord(&self, face: usize, vert: usize) -> (r: Uv)
        requires
            self.sound(),
            face < self.indices@.len() as int / 3,
            vert < 3,
        ensures
            r == self.texcoords@[self.vertex_at(face as int, vert as int)],
    {
        self.texcoords[corner(&self.indices, face, vert) as usize]
    }

    /// A tangent for each vertex, along the first axis until it is set.
    pub fn resting_tangents(&self) -> (r: Vec<Quad>)
        ensures
            r@ == Seq::new(self.positions@.len(), |i: int| first_axis()),
    {
        let mut out: Vec<Quad> = Vec::new();
        let mut i: usize = 0;
        while i < self.positions.len()
            invariant
                i <= self.positions@.len(),
                out@ == Seq::new(i as nat, |k: int| first_axis()),
            decreases self.positions@.len() - i,
        {
            out.push(
                Quad { x: single(ONE), y: single(ZERO), z: single(ZERO), w: single(ONE) },
            );
            i = i + 1;
            assert(out@ =~= Seq::new(i as nat, |k: int| first_axis()));
        }
        out
    }

    /// Set the tangent of the vertex at a corner.
    pub fn set_tangent(&self, tangents: &mut Vec<Quad>, face: usize, vert: usize, tangent: Quad)
        requires
            self.sound(),
            face < self.indices@.len() as int / 3,
            vert < 3,
            old(tangents)@.len() == self.positions@.len(),
        ensures
            final(tangents)@ == old(tangents)@.update(
                self.vertex_at(face as int, vert as int),
                tangent,
            ),
    {
        let at: usize = corner(&self.indices, face, vert) as usize;
        tangents.set(at, tangent);
    }
}

/// The first axis, not mirrored.
pub open spec fn first_axis() -> Quad {
    Quad { x: single(ONE), y: single(ZERO), z: single(ZERO), w: single(ONE) }
}

} // verus!
