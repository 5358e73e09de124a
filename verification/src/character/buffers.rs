//! The bytes that go to the graphics card.

use crate::arith::{Vec3, ONE, ZERO};
use crate::character::gltf::{JointQuad, MeshData, Quad};
use crate::single::{single, Single};
use crate::text::{decimal, push_decimal};
use vstd::prelude::*;
use vstd::string::StringExecFns;

verus! {

/// Words of a vertex: position and normal, padded to four each, joints, and
/// weights.
pub const VERTEX_WORDS: usize = 16;

/// Bytes of a matrix.
pub const MATRIX_BYTES: u64 = 64;

/// A four by four matrix, column by column.
#[derive(Clone, Copy, Debug, PartialEq, Eq, Structural)]
pub struct Matrix {
    pub x: Quad,
    pub y: Quad,
    pub z: Quad,
    pub w: Quad,
}

/// Byte `k` of a word, the lowest first.
pub open spec fn byte_of(word: u32, k: int) -> u8 {
    (if k == 0 {
        word as int % 0x100
    } else if k == 1 {
        word as int / 0x100 % 0x100
    } else if k == 2 {
        word as int / 0x1_0000 % 0x100
    } else {
        word as int / 0x100_0000
    }) as u8
}

/// The bytes of words, the lowest byte of each first.
pub open spec fn low_first(words: Seq<u32>) -> Seq<u8> {
    Seq::new(words.len() * 4, |i: int| byte_of(words[i / 4], i % 4))
}

/// The bytes of words, the highest byte of each first.
pub open spec fn high_first(words: Seq<u32>) -> Seq<u8> {
    Seq::new(words.len() * 4, |i: int| byte_of(words[i / 4], 3 - i % 4))
}

/// The bytes of words in the order of the machine.
pub open spec fn laid_out(bytes: Seq<u8>, words: Seq<u32>) -> bool {
    bytes == low_first(words) || bytes == high_first(words)
}

/// The words as they lie in memory, by `bytemuck::cast_slice` from `u32` to
/// `u8`. Four bytes come out for each word; whether the lowest or the highest
/// is first depends on the machine, and is the same for all words.
#[verifier::external_body]
pub(crate) fn bytes_of_words(words: &Vec<u32>) -> (r: Vec<u8>)
    ensures
        laid_out(r@, words@),
{
    bytemuck::cast_slice::<u32, u8>(words.as_slice()).to_vec()
}

pub open spec fn quad_words(q: Quad) -> Seq<u32> {
    seq![q.x.bits, q.y.bits, q.z.bits, q.w.bits]
}

/// Three singles, padded with a zero.
pub open spec fn padded_words(v: Vec3) -> Seq<u32> {
    seq![v.x.bits, v.y.bits, v.z.bits, ZERO]
}

pub open spec fn joint_words(j: JointQuad) -> Seq<u32> {
    seq![j.a as u32, j.b as u32, j.c as u32, j.d as u32]
}

pub open spec fn matrix_words(m: Matrix) -> Seq<u32> {
    quad_words(m.x) + quad_words(m.y) + quad_words(m.z) + quad_words(m.w)
}

/// The words of vertex `i`.
pub open spec fn vertex_words(mesh: MeshData, i: int) -> Seq<u32> {
    padded_words(mesh.positions@[i]) + padded_words(mesh.normals@[i]) + joint_words(mesh.joints@[i])
        + quad_words(mesh.weights@[i])
}

/// The words of the first `n` vertices.
pub open spec fn mesh_words(mesh: MeshData, n: nat) -> Seq<u32>
    decreases n,
{
    if n == 0 {
        Seq::empty()
    } else {
        mesh_words(mesh, (n - 1) as nat) + vertex_words(mesh, n - 1)
    }
}

/// The words of matrices, one after the other.
pub open spec fn all_matrix_words(mats: Seq<Matrix>) -> Seq<u32>
    decreases mats.len(),
{
    if mats.len() == 0 {
        Seq::empty()
    } else {
        all_matrix_words(mats.drop_last()) + matrix_words(mats.last())
    }
}

pub(crate) fn push_quad(out: &mut Vec<u32>, q: Quad)
    ensures
        final(out)@ == old(out)@ + quad_words(q),
{
    out.push(q.x.bits);
    out.push(q.y.bits);
    out.push(q.z.bits);
    out.push(q.w.bits);
    assert(out@ =~= old(out)@ + quad_words(q));
}

fn push_padded(out: &mut Vec<u32>, v: Vec3)
    ensures
        final(out)@ == old(out)@ + padded_words(v),
{
    out.push(v.x.bits);
    out.push(v.y.bits);
    out.push(v.z.bits);
    out.push(ZERO);
    assert(out@ =~= old(out)@ + padded_words(v));
}

fn push_joints(out: &mut Vec<u32>, j: JointQuad)
    ensures
        final(out)@ == old(out)@ + joint_words(j),
{
    out.push(j.a as u32);
    out.push(j.b as u32);
    out.push(j.c as u32);
    out.push(j.d as u32);
    assert(out@ =~= old(out)@ + joint_words(j));
}

pub(crate) fn push_matrix(out: &mut Vec<u32>, m: Matrix)
    ensures
        final(out)@ == old(out)@ + matrix_words(m),
{
    push_quad(out, m.x);
    push_quad(out, m.y);
    push_quad(out, m.z);
    push_quad(out, m.w);
    assert(out@ =~= old(out)@ + matrix_words(m));
}

/// The vertex buffer of a mesh.
pub fn vertex_bytes(mesh: &MeshData) -> (r: Vec<u8>)
    requires
        mesh.normals@.len() >= mesh.positions@.len(),
        mesh.joints@.len() >= mesh.positions@.len(),
        mesh.weights@.len() >= mesh.positions@.len(),
    ensures
        laid_out(r@, mesh_words(*mesh, mesh.positions@.len())),
{
    let mut words: Vec<u32> = Vec::new();
    let mut i: usize = 0;
    while i < mesh.positions.len()
        invariant
            i <= mesh.positions@.len(),
            mesh.normals@.len() >= mesh.positions@.len(),
            mesh.joints@.len() >= mesh.positions@.len(),
            mesh.weights@.len() >= mesh.positions@.len(),
            words@ == mesh_words(*mesh, i as nat),
        decreases mesh.positions@.len() - i,
    {
        let ghost before = words@;
        push_padded(&mut words, mesh.positions[i]);
        push_padded(&mut words, mesh.normals[i]);
        push_joints(&mut words, mesh.joints[i]);
        push_quad(&mut words, mesh.weights[i]);
        assert(words@ =~= before + vertex_words(*mesh, i as int));
        i = i + 1;
    }
    bytes_of_words(&words)
}

/// The index buffer of a mesh.
pub fn index_bytes(mesh: &MeshData) -> (r: Vec<u8>)
    ensures
        laid_out(r@, mesh.indices@),
{
    bytes_of_words(&mesh.indices)
}

/// The camera as the shader reads it: its matrix, its position, and padding.
pub fn camera_bytes(view_proj: Matrix, cam_pos: Vec3) -> (r: Vec<u8>)
    ensures
        laid_out(r@, matrix_words(view_proj) + padded_words(cam_pos)),
{
    let mut words: Vec<u32> = Vec::new();
    push_matrix(&mut words, view_proj);
    push_padded(&mut words, cam_pos);
    assert(words@ =~= matrix_words(view_proj) + padded_words(cam_pos));
    bytes_of_words(&words)
}

/// A character as the shader reads it: its matrix, its colour, and padding.
pub fn instance_bytes(model: Matrix, base_color: Vec3) -> (r: Vec<u8>)
    ensures
        laid_out(r@, matrix_words(model) + padded_words(base_color)),
{
    camera_bytes(model, base_color)
}

/// The number of matrices is not that of the joints.
#[derive(Clone, Copy, Debug, PartialEq, Eq, Structural)]
pub struct SkinMismatch {
    /// Bytes that the buffer holds, and bytes that came.
    pub expected: u64,
    pub got: u64,
}

impl SkinMismatch {
    pub fn message(&self) -> (r: String)
        ensures
            r@ == "skin matrix count mismatch: buffer expects "@ + decimal(self.expected as nat)
                + " bytes, got "@ + decimal(self.got as nat),
    {
        let mut out: String = String::from_str("skin matrix count mismatch: buffer expects ");
        push_decimal(&mut out, self.expected);
        out.append(" bytes, got ");
        push_decimal(&mut out, self.got);
        out
    }
}

/// The skin buffer of a character with the given number of joints.
pub fn skin_bytes(joint_count: u32, mats: &Vec<Matrix>) -> (r: Result<Vec<u8>, SkinMismatch>)
    requires
        mats@.len() * MATRIX_BYTES <= u64::MAX,
    ensures
        mats@.len() != joint_count ==> r == Err::<Vec<u8>, SkinMismatch>(
            SkinMismatch {
                expected: (joint_count * MATRIX_BYTES) as u64,
                got: (mats@.len() * MATRIX_BYTES) as u64,
            },
        ),
        mats@.len() == joint_count ==> (r matches Ok(bytes) && laid_out(
            bytes@,
            all_matrix_words(mats@),
        )),
{
    let expected: u64 = joint_count as u64 * MATRIX_BYTES;
    let got: u64 = mats.len() as u64 * MATRIX_BYTES;
    if got != expected {
        return Err(SkinMismatch { expected, got });
    }
    let mut words: Vec<u32> = Vec::new();
    let mut i: usize = 0;
    while i < mats.len()
        invariant
            i <= mats@.len(),
            words@ == all_matrix_words(mats@.take(i as int)),
        decreases mats@.len() - i,
    {
        push_matrix(&mut words, mats[i]);
        assert(mats@.take(i + 1).drop_last() =~= mats@.take(i as int));
        i = i + 1;
    }
    assert(mats@.take(i as int) =~= mats@);
    Ok(bytes_of_words(&words))
}

/// The matrix that changes nothing.
pub open spec fn identity_matrix() -> Matrix {
    let zero = single(ZERO);
    let one = single(ONE);
    Matrix {
        x: Quad { x: one, y: zero, z: zero, w: zero },
        y: Quad { x: zero, y: one, z: zero, w: zero },
        z: Quad { x: zero, y: zero, z: one, w: zero },
        w: Quad { x: zero, y: zero, z: zero, w: one },
    }
}

/// The skin buffer of a character at rest: the identity for each joint.
pub fn resting_skin_bytes(joint_count: u32) -> (r: Vec<u8>)
    ensures
        laid_out(
            r@,
            all_matrix_words(Seq::new(joint_count as nat, |i: int| identity_matrix())),
        ),
{
    let zero: Single = single(ZERO);
    let one: Single = single(ONE);
    let identity: Matrix = Matrix {
        x: Quad { x: one, y: zero, z: zero, w: zero },
        y: Quad { x: zero, y: one, z: zero, w: zero },
        z: Quad { x: zero, y: zero, z: one, w: zero },
        w: Quad { x: zero, y: zero, z: zero, w: one },
    };
    let mut words: Vec<u32> = Vec::new();
    let mut i: u32 = 0;
    while i < joint_count
        invariant
            i <= joint_count,
            identity == identity_matrix(),
            words@ == all_matrix_words(Seq::new(i as nat, |k: int| identity_matrix())),
        decreases joint_count - i,
    {
        push_matrix(&mut words, identity);
        assert(Seq::new((i + 1) as nat, |k: int| identity_matrix()).drop_last() =~= Seq::new(
            i as nat,
            |k: int| identity_matrix(),
        ));
        i = i + 1;
    }
    bytes_of_words(&words)
}

} // verus!
