use crate::model::{Mesh, ModelVertex};
use vstd::prelude::*;
use vstd::string::StringExecFns;

verus! {

/// The bit pattern of the 32-bit IEEE 754 number 1.0.
pub const ONE: u32 = 0x3F80_0000;

/// The bit pattern of the 32-bit IEEE 754 number -1.0.
pub const MINUS_ONE: u32 = 0xBF80_0000;

/// The bit pattern of the coordinate -1.0, 0.0 or 1.0 with the sign `sign`.
pub open spec fn unit_bits(sign: int) -> u32 {
    if sign > 0 {
        ONE
    } else if sign < 0 {
        MINUS_ONE
    } else {
        0
    }
}

/// The signs of the coordinates of the twelve corners of the bounding sphere's mesh: the
/// corners of three squares, one in each coordinate plane.
pub open spec fn corner_signs() -> Seq<Seq<int>> {
    seq![
        seq![0, -1, 1],
        seq![0, 1, 1],
        seq![0, 1, -1],
        seq![0, -1, -1],
        seq![-1, -1, 0],
        seq![-1, 1, 0],
        seq![1, 1, 0],
        seq![1, -1, 0],
        seq![-1, 0, 1],
        seq![1, 0, 1],
        seq![1, 0, -1],
        seq![-1, 0, -1],
    ]
}

/// The indices of the bounding sphere's mesh: two triangles for each square.
pub open spec fn corner_indices() -> Seq<u32> {
    seq![0, 1, 2, 2, 3, 1, 4, 5, 6, 6, 7, 4, 8, 9, 10, 10, 11, 8]
}

/// Whether `vertex` is the corner with the signs `signs`, with every other attribute zero.
pub open spec fn is_corner(vertex: ModelVertex, signs: Seq<int>) -> bool {
    &&& vertex.position@ == seq![unit_bits(signs[0]), unit_bits(signs[1]), unit_bits(signs[2])]
    &&& vertex.tex_coords@ == seq![0u32, 0u32]
    &&& vertex.normal@ == seq![0u32, 0u32, 0u32]
    &&& vertex.tangent@ == seq![0u32, 0u32, 0u32]
    &&& vertex.bitangent@ == seq![0u32, 0u32, 0u32]
}

fn bits_of(sign: i8) -> (bits: u32)
    ensures
        bits == unit_bits(sign as int),
{
    if sign > 0 {
        ONE
    } else if sign < 0 {
        MINUS_ONE
    } else {
        0
    }
}

/// The mesh that stands for a bounding sphere, whatever the model: twelve corners at
/// distance √2 from the origin and eighteen indices. It has no material of its own.
pub fn get_mesh() -> (mesh: Mesh)
    ensures
        mesh.name@ == "bounding sphere mesh"@,
        mesh.material_id == 0,
        mesh.indices@ == corner_indices(),
        mesh.vertices@.len() == 12,
        forall|i: int| 0 <= i < 12 ==> is_corner(#[trigger] mesh.vertices@[i], corner_signs()[i]),
{
    let signs: [[i8; 3]; 12] = [
        [0, -1, 1],
        [0, 1, 1],
        [0, 1, -1],
        [0, -1, -1],
        [-1, -1, 0],
        [-1, 1, 0],
        [1, 1, 0],
        [1, -1, 0],
        [-1, 0, 1],
        [1, 0, 1],
        [1, 0, -1],
        [-1, 0, -1],
    ];
    let order: [u32; 18] = [0, 1, 2, 2, 3, 1, 4, 5, 6, 6, 7, 4, 8, 9, 10, 10, 11, 8];
    let mut vertices: Vec<ModelVertex> = Vec::new();
    let mut i: usize = 0;
    while i < 12
        invariant
            i <= 12,
            vertices@.len() == i,
            forall|k: int, c: int|
                0 <= k < 12 && 0 <= c < 3 ==> (#[trigger] signs@[k]@[c]) as int
                    == corner_signs()[k][c],
            forall|k: int| 0 <= k < i ==> is_corner(#[trigger] vertices@[k], corner_signs()[k]),
        decreases 12 - i,
    {
        let corner = signs[i];
        let vertex = ModelVertex {
            position: [bits_of(corner[0]), bits_of(corner[1]), bits_of(corner[2])],
            tex_coords: [0, 0],
            normal: [0, 0, 0],
            tangent: [0, 0, 0],
            bitangent: [0, 0, 0],
        };
        proof {
            assert(signs@[i as int]@[0] as int == corner_signs()[i as int][0]);
            assert(signs@[i as int]@[1] as int == corner_signs()[i as int][1]);
            assert(signs@[i as int]@[2] as int == corner_signs()[i as int][2]);
            assert(vertex.position@ =~= seq![
                unit_bits(corner_signs()[i as int][0]),
                unit_bits(corner_signs()[i as int][1]),
                unit_bits(corner_signs()[i as int][2]),
            ]);
            assert(vertex.tex_coords@ =~= seq![0u32, 0u32]);
            assert(vertex.normal@ =~= seq![0u32, 0u32, 0u32]);
            assert(vertex.tangent@ =~= seq![0u32, 0u32, 0u32]);
            assert(vertex.bitangent@ =~= seq![0u32, 0u32, 0u32]);
        }
        vertices.push(vertex);
        i = i + 1;
    }
    let mut indices: Vec<u32> = Vec::new();
    let mut j: usize = 0;
    while j < 18
        invariant
            j <= 18,
            order@ == corner_indices(),
            indices@ == corner_indices().take(j as int),
        decreases 18 - j,
    {
        indices.push(order[j]);
        proof {
            assert(indices@ =~= corner_indices().take(j + 1));
        }
        j = j + 1;
    }
    proof {
        assert(corner_indices().take(18) =~= corner_indices());
    }
    Mesh { name: String::from_str("bounding sphere mesh"), vertices, indices, material_id: 0 }
}

} // verus!
