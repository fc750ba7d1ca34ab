use crate::bytes::{is_memory_of, words_to_bytes};
use crate::index::IndexDriver;
use crate::texture::Texture;
use vstd::prelude::*;
use vstd::string::StringExecFns;

verus! {

/// The shape of one vertex attribute. Each component is a 32-bit word.
#[derive(Clone, Copy, Debug, PartialEq, Eq, Structural)]
pub enum VertexFormat {
    /// Two components.
    Pair,
    /// Three components.
    Triple,
}

impl VertexFormat {
    /// Bytes that an attribute of this format takes.
    pub open spec fn size(self) -> nat {
        match self {
            VertexFormat::Pair => 8,
            VertexFormat::Triple => 12,
        }
    }
}

/// Where one attribute of a vertex lies, and under which location a shader reads it.
#[derive(Clone, Copy, Debug, PartialEq, Eq, Structural)]
pub struct VertexAttribute {
    pub offset: u64,
    pub shader_location: u32,
    pub format: VertexFormat,
}

/// How the vertices of a vertex buffer are laid out, one after the other.
#[derive(Debug)]
pub struct VertexBufferLayout {
    /// Bytes from one vertex to the next.
    pub array_stride: u64,
    pub attributes: Vec<VertexAttribute>,
}

/// Whether `attributes` fill `stride` bytes without gap or overlap, in order, at the shader
/// locations 0, 1, 2 and so on.
pub open spec fn is_packed(attributes: Seq<VertexAttribute>, stride: nat) -> bool
    decreases attributes.len(),
{
    if attributes.len() == 0 {
        stride == 0
    } else {
        let last = attributes.last();
        &&& last.shader_location == attributes.len() - 1
        &&& last.offset + last.format.size() == stride
        &&& is_packed(attributes.drop_last(), last.offset as nat)
    }
}

/// A kind of vertex that can say how it lies in a vertex buffer.
pub trait Vertex {
    /// Bytes that one vertex takes.
    spec fn stride() -> nat;

    /// The attributes of one vertex.
    spec fn attributes() -> Seq<VertexAttribute>;

    /// The layout of a buffer of such vertices.
    fn desc() -> (layout: VertexBufferLayout)
        ensures
            layout.array_stride == Self::stride(),
            layout.attributes@ == Self::attributes(),
            is_packed(Self::attributes(), Self::stride()),
    ;
}

/// A vertex that is a position only. Each coordinate is the bit pattern of a 32-bit
/// IEEE 754 number.
#[derive(Clone, Copy, Debug)]
pub struct SimpleVertex {
    pub position: [u32; 3],
}

impl SimpleVertex {
    /// The words of the vertex as a vertex buffer holds them.
    pub open spec fn words(self) -> Seq<u32> {
        self.position@
    }
}

impl Vertex for SimpleVertex {
    open spec fn stride() -> nat {
        12
    }

    open spec fn attributes() -> Seq<VertexAttribute> {
        seq![VertexAttribute { offset: 0, shader_location: 0, format: VertexFormat::Triple }]
    }

    fn desc() -> (layout: VertexBufferLayout) {
        let mut attributes: Vec<VertexAttribute> = Vec::new();
        attributes.push(
            VertexAttribute { offset: 0, shader_location: 0, format: VertexFormat::Triple },
        );
        proof {
            assert(attributes@ =~= Self::attributes());
            lemma_packed_push(
                Seq::empty(),
                0,
                VertexAttribute { offset: 0, shader_location: 0, format: VertexFormat::Triple },
            );
            assert(Seq::<VertexAttribute>::empty().push(
                VertexAttribute { offset: 0, shader_location: 0, format: VertexFormat::Triple },
            ) =~= Self::attributes());
        }
        VertexBufferLayout { array_stride: 12, attributes }
    }
}

/// A vertex of a model. Each component is the bit pattern of a 32-bit IEEE 754 number.
#[derive(Clone, Copy, Debug)]
pub struct ModelVertex {
    pub position: [u32; 3],
    pub tex_coords: [u32; 2],
    pub normal: [u32; 3],
    pub tangent: [u32; 3],
    pub bitangent: [u32; 3],
}

impl Default for ModelVertex {
    /// The vertex at the origin, with every attribute zero.
    fn default() -> (vertex: ModelVertex)
        ensures
            vertex.words() == Seq::new(14, |i: int| 0u32),
    {
        let vertex = ModelVertex {
            position: [0, 0, 0],
            tex_coords: [0, 0],
            normal: [0, 0, 0],
            tangent: [0, 0, 0],
            bitangent: [0, 0, 0],
        };
        proof {
            assert(vertex.words() =~= Seq::new(14, |i: int| 0u32));
        }
        vertex
    }
}

impl ModelVertex {
    /// The words of the vertex as a vertex buffer holds them.
    pub open spec fn words(self) -> Seq<u32> {
        self.position@ + self.tex_coords@ + self.normal@ + self.tangent@ + self.bitangent@
    }
}

/// A packed layout stays packed when one more attribute follows at its end.
proof fn lemma_packed_push(attributes: Seq<VertexAttribute>, stride: nat, next: VertexAttribute)
    requires
        is_packed(attributes, stride),
        next.offset == stride,
        next.shader_location == attributes.len(),
    ensures
        is_packed(attributes.push(next), stride + next.format.size()),
{
    assert(attributes.push(next).drop_last() =~= attributes);
}

impl Vertex for ModelVertex {
    open spec fn stride() -> nat {
        56
    }

    open spec fn attributes() -> Seq<VertexAttribute> {
        seq![
            VertexAttribute { offset: 0, shader_location: 0, format: VertexFormat::Triple },
            VertexAttribute { offset: 12, shader_location: 1, format: VertexFormat::Pair },
            VertexAttribute { offset: 20, shader_location: 2, format: VertexFormat::Triple },
            VertexAttribute { offset: 32, shader_location: 3, format: VertexFormat::Triple },
            VertexAttribute { offset: 44, shader_location: 4, format: VertexFormat::Triple },
        ]
    }

    fn desc() -> (layout: VertexBufferLayout) {
        let formats = [
            VertexFormat::Triple,
            VertexFormat::Pair,
            VertexFormat::Triple,
            VertexFormat::Triple,
            VertexFormat::Triple,
        ];
        let mut attributes: Vec<VertexAttribute> = Vec::new();
        let mut offset: u64 = 0;
        let mut location: u32 = 0;
        while location < 5
            invariant
                location <= 5,
                attributes@ == Self::attributes().take(location as int),
                is_packed(attributes@, offset as nat),
                offset <= 12 * location,
                formats@ == seq![
                    VertexFormat::Triple,
                    VertexFormat::Pair,
                    VertexFormat::Triple,
                    VertexFormat::Triple,
                    VertexFormat::Triple,
                ],
                location < 5 ==> offset == Self::attributes()[location as int].offset,
                location == 5 ==> offset == 56,
            decreases 5 - location,
        {
            let format = formats[location as usize];
            let next = VertexAttribute { offset, shader_location: location, format };
            proof {
                lemma_packed_push(attributes@, offset as nat, next);
                assert(Self::attributes().take(location as int).push(next)
                    =~= Self::attributes().take(location + 1));
            }
            attributes.push(next);
            offset = offset + match format {
                VertexFormat::Pair => 8,
                VertexFormat::Triple => 12,
            };
            location = location + 1;
        }
        proof {
            assert(Self::attributes().take(5) =~= Self::attributes());
        }
        VertexBufferLayout { array_stride: offset, attributes }
    }
}

/// The words of `vertices`, vertex after vertex.
pub open spec fn vertex_words(vertices: Seq<ModelVertex>) -> Seq<u32>
    decreases vertices.len(),
{
    if vertices.len() == 0 {
        Seq::<u32>::empty()
    } else {
        vertex_words(vertices.drop_last()) + vertices.last().words()
    }
}

/// The surface look of a mesh: a name and two textures.
#[derive(Debug)]
pub struct Material {
    pub name: String,
    pub diffuse_texture: Texture,
    pub normal_texture: Texture,
}

impl Material {
    pub fn new(name: &str, diffuse_texture: Texture, normal_texture: Texture) -> (material:
        Material)
        ensures
            material.name@ == name@,
            material.diffuse_texture == diffuse_texture,
            material.normal_texture == normal_texture,
    {
        Material { name: String::from_str(name), diffuse_texture, normal_texture }
    }
}

/// A named list of vertices, the indices that make triangles or lines of them, and the
/// place of its material in the list of the model that owns it.
#[derive(Debug)]
pub struct Mesh {
    pub name: String,
    pub vertices: Vec<ModelVertex>,
    pub indices: Vec<u32>,
    pub material_id: usize,
}

impl Mesh {
    /// The contents of the mesh's index buffer.
    pub fn index_bytes(&self) -> (bytes: Vec<u8>)
        ensures
            is_memory_of(bytes@, self.indices@),
    {
        words_to_bytes(&self.indices)
    }

    /// The contents of the mesh's vertex buffer: every vertex in the layout that
    /// `ModelVertex::desc` describes.
    pub fn vertex_bytes(&self) -> (bytes: Vec<u8>)
        ensures
            is_memory_of(bytes@, vertex_words(self.vertices@)),
    {
        let mut words: Vec<u32> = Vec::new();
        let mut i: usize = 0;
        while i < self.vertices.len()
            invariant
                i <= self.vertices@.len(),
                words@ == vertex_words(self.vertices@.take(i as int)),
            decreases self.vertices@.len() - i,
        {
            let v = self.vertices[i];
            let ghost before = words@;
            words.push(v.position[0]);
            words.push(v.position[1]);
            words.push(v.position[2]);
            words.push(v.tex_coords[0]);
            words.push(v.tex_coords[1]);
            words.push(v.normal[0]);
            words.push(v.normal[1]);
            words.push(v.normal[2]);
            words.push(v.tangent[0]);
            words.push(v.tangent[1]);
            words.push(v.tangent[2]);
            words.push(v.bitangent[0]);
            words.push(v.bitangent[1]);
            words.push(v.bitangent[2]);
            proof {
                assert(words@ =~= before + v.words());
                assert(self.vertices@.take(i + 1).drop_last() =~= self.vertices@.take(i as int));
                assert(self.vertices@.take(i + 1).last() == v);
            }
            i = i + 1;
        }
        proof {
            assert(self.vertices@.take(i as int) =~= self.vertices@);
        }
        words_to_bytes(&words)
    }
}

/// A 3D asset: what is drawn once for each of its instances.
#[derive(Debug)]
pub struct Model {
    pub id: usize,
    pub label: String,
    pub meshes: Vec<Mesh>,
    pub materials: Vec<Material>,
}

impl Model {
    /// Whether every mesh names a material that the model has. A model without materials is
    /// drawn without any.
    pub open spec fn wf(&self) -> bool {
        self.materials@.len() > 0 ==> forall|i: int|
            0 <= i < self.meshes@.len() ==> (#[trigger] self.meshes@[i]).material_id
                < self.materials@.len()
    }

    /// Whether every mesh names a material that the model has.
    pub fn is_wf(&self) -> (ok: bool)
        ensures
            ok == self.wf(),
    {
        if self.materials.len() == 0 {
            return true;
        }
        let mut i: usize = 0;
        while i < self.meshes.len()
            invariant
                i <= self.meshes@.len(),
                self.materials@.len() > 0,
                forall|k: int|
                    0 <= k < i ==> (#[trigger] self.meshes@[k]).material_id < self.materials@.len(),
            decreases self.meshes@.len() - i,
        {
            if self.meshes[i].material_id >= self.materials.len() {
                return false;
            }
            i = i + 1;
        }
        true
    }
}

/// The bit pattern of the 32-bit IEEE 754 number 1.0, the component of a normal that a
/// shape without normals gets.
pub const DEFAULT_NORMAL: u32 = 0x3F80_0000;

/// One shape of a mesh file as it was read: flat lists of the components of its vertices,
/// each the bit pattern of a 32-bit IEEE 754 number.
#[derive(Debug)]
pub struct Shape {
    pub name: String,
    /// Three components for each vertex.
    pub positions: Vec<u32>,
    /// Two components for each vertex, or none at all.
    pub texcoords: Vec<u32>,
    /// Three components for each vertex, or none at all.
    pub normals: Vec<u32>,
    pub indices: Vec<u32>,
    pub material_id: Option<usize>,
}

impl Shape {
    /// The number of vertices of the shape.
    pub open spec fn vertex_count(&self) -> nat {
        self.positions@.len() / 3
    }

    /// Whether the shape has texture coordinates and normals for all its vertices or for
    /// none.
    pub open spec fn wf(&self) -> bool {
        &&& self.texcoords@.len() == 0 || self.texcoords@.len() >= 2 * self.vertex_count()
        &&& self.normals@.len() == 0 || self.normals@.len() >= 3 * self.vertex_count()
    }

    /// Whether `vertex` is vertex `i` of the shape. A primitive has neither texture
    /// coordinates nor normals of its own; a vertex without texture coordinates gets zeros,
    /// one without a normal gets ones. Tangent and bitangent are zero.
    pub open spec fn is_vertex(&self, i: int, vertex: ModelVertex, primitive: bool) -> bool {
        &&& vertex.position@ == seq![
            self.positions@[3 * i],
            self.positions@[3 * i + 1],
            self.positions@[3 * i + 2],
        ]
        &&& vertex.tex_coords@ == if primitive || self.texcoords@.len() == 0 {
            seq![0u32, 0u32]
        } else {
            seq![self.texcoords@[2 * i], self.texcoords@[2 * i + 1]]
        }
        &&& vertex.normal@ == if primitive || self.normals@.len() == 0 {
            seq![DEFAULT_NORMAL, DEFAULT_NORMAL, DEFAULT_NORMAL]
        } else {
            seq![self.normals@[3 * i], self.normals@[3 * i + 1], self.normals@[3 * i + 2]]
        }
        &&& vertex.tangent@ == seq![0u32, 0u32, 0u32]
        &&& vertex.bitangent@ == seq![0u32, 0u32, 0u32]
    }

    /// Whether `mesh` is the mesh of the shape: its name, its indices, its vertices, and its
    /// material, which is the first where the shape names none.
    pub open spec fn is_mesh(&self, mesh: Mesh, primitive: bool) -> bool {
        &&& mesh.name@ == self.name@
        &&& mesh.indices@ == self.indices@
        &&& mesh.material_id == match self.material_id {
            Some(id) => id,
            None => 0,
        }
        &&& mesh.vertices@.len() == self.vertex_count()
        &&& forall|i: int|
            0 <= i < mesh.vertices@.len()
                ==> self.is_vertex(i, #[trigger] mesh.vertices@[i], primitive)
    }

    fn to_mesh(&self, primitive: bool) -> (mesh: Mesh)
        requires
            self.wf(),
        ensures
            self.is_mesh(mesh, primitive),
    {
        let total: usize = self.positions.len();
        let count: usize = total / 3;
        let mut vertices: Vec<ModelVertex> = Vec::new();
        let mut i: usize = 0;
        while i < count
            invariant
                self.wf(),
                total == self.positions@.len(),
                count == self.vertex_count(),
                i <= count,
                vertices@.len() == i,
                forall|k: int| 0 <= k < i ==> self.is_vertex(k, #[trigger] vertices@[k], primitive),
            decreases count - i,
        {
            let tex_coords: [u32; 2] = if primitive || self.texcoords.len() == 0 {
                [0, 0]
            } else {
                [self.texcoords[i * 2], self.texcoords[i * 2 + 1]]
            };
            let normal: [u32; 3] = if primitive || self.normals.len() == 0 {
                [DEFAULT_NORMAL, DEFAULT_NORMAL, DEFAULT_NORMAL]
            } else {
                [self.normals[i * 3], self.normals[i * 3 + 1], self.normals[i * 3 + 2]]
            };
            let vertex = ModelVertex {
                position: [
                    self.positions[i * 3],
                    self.positions[i * 3 + 1],
                    self.positions[i * 3 + 2],
                ],
                tex_coords,
                normal,
                tangent: [0, 0, 0],
                bitangent: [0, 0, 0],
            };
            proof {
                assert(vertex.position@ =~= seq![
                    self.positions@[3 * i],
                    self.positions@[3 * i + 1],
                    self.positions@[3 * i + 2],
                ]);
                assert(vertex.tex_coords@ =~= if primitive || self.texcoords@.len() == 0 {
                    seq![0u32, 0u32]
                } else {
                    seq![self.texcoords@[2 * i], self.texcoords@[2 * i + 1]]
                });
                assert(vertex.normal@ =~= if primitive || self.normals@.len() == 0 {
                    seq![DEFAULT_NORMAL, DEFAULT_NORMAL, DEFAULT_NORMAL]
                } else {
                    seq![self.normals@[3 * i], self.normals@[3 * i + 1], self.normals@[3 * i + 2]]
                });
                assert(vertex.tangent@ =~= seq![0u32, 0u32, 0u32]);
                assert(vertex.bitangent@ =~= seq![0u32, 0u32, 0u32]);
            }
            vertices.push(vertex);
            i = i + 1;
        }
        Mesh {
            name: self.name.clone(),
            vertices,
            indices: self.indices.clone(),
            material_id: match self.material_id {
                Some(id) => id,
                None => 0,
            },
        }
    }
}

/// Makes models of what was read from mesh files, and gives each a handle of its own.
pub struct Loader {
    index_driver: IndexDriver,
}

impl Loader {
    /// The handle that the next model gets.
    pub closed spec fn next(&self) -> nat {
        self.index_driver.next()
    }

    pub fn new() -> (loader: Loader)
        ensures
            loader.next() == 0,
    {
        Loader { index_driver: IndexDriver::new() }
    }

    /// The handle that the next model gets.
    pub fn next_handle(&self) -> (next: usize)
        ensures
            next == self.next(),
    {
        self.index_driver.peek()
    }

    fn build(&mut self, label: &str, shapes: &Vec<Shape>, materials: Vec<Material>,
        primitive: bool) -> (model:
        Model)
        requires
            old(self).next() < usize::MAX,
            forall|i: int| 0 <= i < shapes@.len() ==> (#[trigger] shapes@[i]).wf(),
        ensures
            final(self).next() == old(self).next() + 1,
            model.id == old(self).next(),
            model.label@ == label@,
            model.materials == materials,
            model.meshes@.len() == shapes@.len(),
            forall|i: int|
                0 <= i < shapes@.len()
                    ==> (#[trigger] shapes@[i]).is_mesh(model.meshes@[i], primitive),
    {
        let mut meshes: Vec<Mesh> = Vec::new();
        let mut i: usize = 0;
        while i < shapes.len()
            invariant
                i <= shapes@.len(),
                forall|k: int| 0 <= k < shapes@.len() ==> (#[trigger] shapes@[k]).wf(),
                meshes@.len() == i,
                forall|k: int| 0 <= k < i
                    ==> (#[trigger] shapes@[k]).is_mesh(meshes@[k], primitive),
            decreases shapes@.len() - i,
        {
            let mesh = shapes[i].to_mesh(primitive);
            meshes.push(mesh);
            i = i + 1;
        }
        Model { id: self.index_driver.next_id(), label: String::from_str(label), meshes, materials }
    }

    /// The model of the shapes and materials read from a mesh file, under the next handle.
    /// Tangents and bitangents are left at zero.
    pub fn load(&mut self, label: &str, shapes: &Vec<Shape>, materials: Vec<Material>) -> (model:
        Model)
        requires
            old(self).next() < usize::MAX,
            forall|i: int| 0 <= i < shapes@.len() ==> (#[trigger] shapes@[i]).wf(),
        ensures
            final(self).next() == old(self).next() + 1,
            model.id == old(self).next(),
            model.label@ == label@,
            model.materials == materials,
            model.meshes@.len() == shapes@.len(),
            forall|i: int|
                0 <= i < shapes@.len() ==> (#[trigger] shapes@[i]).is_mesh(model.meshes@[i], false),
    {
        self.build(label, shapes, materials, false)
    }

    /// The model of a primitive, under the next handle: positions and indices alone count,
    /// every vertex gets the texture coordinates and the normal of a vertex without.
    pub fn load_primitive(&mut self, label: &str, shapes: &Vec<Shape>,
        materials: Vec<Material>) -> (model:
        Model)
        requires
            old(self).next() < usize::MAX,
            forall|i: int| 0 <= i < shapes@.len() ==> (#[trigger] shapes@[i]).wf(),
        ensures
            final(self).next() == old(self).next() + 1,
            model.id == old(self).next(),
            model.label@ == label@,
            model.materials == materials,
            model.meshes@.len() == shapes@.len(),
            forall|i: int|
                0 <= i < shapes@.len() ==> (#[trigger] shapes@[i]).is_mesh(model.meshes@[i], true),
    {
        self.build(label, shapes, materials, true)
    }
}

} // verus!
