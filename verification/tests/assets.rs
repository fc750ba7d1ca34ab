use image::{DynamicImage, ImageOutputFormat, RgbaImage};
use scene_viewer::bytes::words_to_bytes;
use scene_viewer::model::{
    Material, Mesh, ModelVertex, SimpleVertex, Vertex, VertexAttribute, VertexFormat,
};
use scene_viewer::primitives::{get_mesh, MINUS_ONE, ONE};
use scene_viewer::renderer::layout::{
    bind_group_layout, debug_pipeline_layout, model_pipeline_layout, sphere_pipeline_layout,
    BindGroupRole, BindingKind,
};
use scene_viewer::texture::{Texture, TextureError, TextureFormat, TextureType};
use std::io::Cursor;

fn png(width: u32, height: u32, pixels: Vec<u8>) -> Vec<u8> {
    let image = DynamicImage::ImageRgba8(RgbaImage::from_raw(width, height, pixels).unwrap());
    let mut encoded = Cursor::new(Vec::new());
    image.write_to(&mut encoded, ImageOutputFormat::Png).unwrap();
    encoded.into_inner()
}

#[test]
fn words_become_their_bytes_in_memory() {
    let words = vec![0u32, 1, 0x0102_0304, u32::MAX, 1.0f32.to_bits()];
    let bytes = words_to_bytes(&words);
    assert_eq!(bytes.len(), 20);
    let expected: Vec<u8> = words.iter().flat_map(|word| word.to_ne_bytes()).collect();
    assert_eq!(bytes, expected);
    assert!(words_to_bytes(&vec![]).is_empty());
}

#[test]
fn texture_from_bytes_decodes_to_rgba() {
    let pixels =
        vec![255, 0, 0, 255, 0, 255, 0, 128, 0, 0, 255, 0, 9, 8, 7, 6, 1, 2, 3, 4, 5, 6, 7, 8];
    let texture = Texture::from_bytes(&png(3, 2, pixels.clone()), "bricks", false).unwrap();
    assert_eq!(texture.label, "bricks");
    assert_eq!(texture.dimensions, (3, 2));
    assert_eq!(texture.type_, TextureType::Diffuse);
    assert_eq!(texture.rgba_image, Some(pixels.clone()));
    let normal = Texture::from_bytes(&png(2, 3, pixels.clone()), "bumps", true).unwrap();
    assert_eq!(normal.dimensions, (2, 3));
    assert_eq!(normal.type_, TextureType::Normal);
    assert_eq!(normal.rgba_image.unwrap().len(), 4 * 2 * 3);
}

#[test]
fn texture_from_bytes_rejects_what_is_no_image() {
    assert_eq!(
        Texture::from_bytes(b"this is no image", "noise", false).unwrap_err(),
        TextureError::Undecodable
    );
    assert_eq!(Texture::from_bytes(&[], "empty", true).unwrap_err(), TextureError::Undecodable);
    let mut cut = png(2, 2, vec![7; 16]);
    cut.truncate(20);
    assert_eq!(Texture::from_bytes(&cut, "cut", false).unwrap_err(), TextureError::Undecodable);
}

#[test]
fn texture_from_image_keeps_what_it_is_given() {
    let texture = Texture::from_image((1, 2), vec![1, 2, 3, 4, 5, 6, 7, 8], "tiny", true);
    assert_eq!(texture.label, "tiny");
    assert_eq!(texture.dimensions, (1, 2));
    assert_eq!(texture.rgba_image, Some(vec![1, 2, 3, 4, 5, 6, 7, 8]));
    assert_eq!(texture.type_, TextureType::Normal);
}

#[test]
fn depth_texture_has_no_pixels() {
    let texture = Texture::create_depth_texture(1920, 1080, "depth_texture");
    assert_eq!(texture.label, "depth_texture");
    assert_eq!(texture.dimensions, (1920, 1080));
    assert_eq!(texture.type_, TextureType::Depth);
    assert!(texture.rgba_image.is_none());
}

#[test]
fn material_keeps_name_and_textures() {
    let diffuse = Texture::from_image((1, 1), vec![1, 2, 3, 4], "d", false);
    let normal = Texture::from_image((1, 1), vec![5, 6, 7, 8], "n", true);
    let material = Material::new("skin", diffuse, normal);
    assert_eq!(material.name, "skin");
    assert_eq!(material.diffuse_texture.rgba_image, Some(vec![1, 2, 3, 4]));
    assert_eq!(material.diffuse_texture.type_, TextureType::Diffuse);
    assert_eq!(material.normal_texture.rgba_image, Some(vec![5, 6, 7, 8]));
    assert_eq!(material.normal_texture.type_, TextureType::Normal);
}

#[test]
fn vertex_layouts_are_packed() {
    let simple = SimpleVertex::desc();
    assert_eq!(simple.array_stride, 12);
    assert_eq!(
        simple.attributes,
        vec![VertexAttribute { offset: 0, shader_location: 0, format: VertexFormat::Triple }]
    );
    let model = ModelVertex::desc();
    assert_eq!(model.array_stride, 56);
    assert_eq!(
        model.attributes,
        vec![
            VertexAttribute { offset: 0, shader_location: 0, format: VertexFormat::Triple },
            VertexAttribute { offset: 12, shader_location: 1, format: VertexFormat::Pair },
            VertexAttribute { offset: 20, shader_location: 2, format: VertexFormat::Triple },
            VertexAttribute { offset: 32, shader_location: 3, format: VertexFormat::Triple },
            VertexAttribute { offset: 44, shader_location: 4, format: VertexFormat::Triple },
        ]
    );
}

#[test]
fn mesh_bytes_follow_the_vertex_layout() {
    let vertex = ModelVertex {
        position: [1, 2, 3],
        tex_coords: [4, 5],
        normal: [6, 7, 8],
        tangent: [9, 10, 11],
        bitangent: [12, 13, 14],
    };
    let mut second = vertex;
    second.position = [101, 102, 103];
    let mesh = Mesh {
        name: "m".to_string(),
        vertices: vec![vertex, second],
        indices: vec![0, 1, 1],
        material_id: 0,
    };
    let bytes = mesh.vertex_bytes();
    assert_eq!(bytes.len(), 2 * 56);
    let mut expected: Vec<u8> = (1u32..=14).flat_map(|word| word.to_ne_bytes()).collect();
    expected.extend([101u32, 102, 103].iter().flat_map(|word| word.to_ne_bytes()));
    expected.extend((4u32..=14).flat_map(|word| word.to_ne_bytes()));
    assert_eq!(bytes, expected);
    let expected: Vec<u8> = [0u32, 1, 1].iter().flat_map(|word| word.to_ne_bytes()).collect();
    assert_eq!(mesh.index_bytes(), expected);
}

#[test]
fn sphere_mesh_has_twelve_corners_and_eighteen_indices() {
    assert_eq!(f32::from_bits(ONE), 1.0);
    assert_eq!(f32::from_bits(MINUS_ONE), -1.0);
    let mesh = get_mesh();
    assert_eq!(mesh.name, "bounding sphere mesh");
    assert_eq!(mesh.material_id, 0);
    assert_eq!(mesh.indices, vec![0, 1, 2, 2, 3, 1, 4, 5, 6, 6, 7, 4, 8, 9, 10, 10, 11, 8]);
    let corners: Vec<[f32; 3]> = mesh
        .vertices
        .iter()
        .map(|vertex| {
            [
                f32::from_bits(vertex.position[0]),
                f32::from_bits(vertex.position[1]),
                f32::from_bits(vertex.position[2]),
            ]
        })
        .collect();
    assert_eq!(
        corners,
        vec![
            [0.0, -1.0, 1.0],
            [0.0, 1.0, 1.0],
            [0.0, 1.0, -1.0],
            [0.0, -1.0, -1.0],
            [-1.0, -1.0, 0.0],
            [-1.0, 1.0, 0.0],
            [1.0, 1.0, 0.0],
            [1.0, -1.0, 0.0],
            [-1.0, 0.0, 1.0],
            [1.0, 0.0, 1.0],
            [1.0, 0.0, -1.0],
            [-1.0, 0.0, -1.0],
        ]
    );
    for vertex in &mesh.vertices {
        assert_eq!(vertex.tex_coords, [0, 0]);
        assert_eq!(vertex.normal, [0, 0, 0]);
        assert_eq!(vertex.tangent, [0, 0, 0]);
        assert_eq!(vertex.bitangent, [0, 0, 0]);
    }
}

#[test]
fn texture_formats_follow_the_type() {
    let diffuse = Texture::from_image((2, 1), vec![0; 8], "d", false);
    let normal = Texture::from_image((2, 1), vec![0; 8], "n", true);
    let depth = Texture::create_depth_texture(4, 4, "z");
    assert_eq!(diffuse.format(), TextureFormat::Rgba8UnormSrgb);
    assert_eq!(normal.format(), TextureFormat::Rgba8Unorm);
    assert_eq!(depth.format(), TextureFormat::Depth32);
    assert_eq!(diffuse.upload_layout(), Some((8, 1)));
    assert_eq!(depth.upload_layout(), None);
    let wide = Texture::from_image((u32::MAX / 4 + 1, 1), vec![], "w", false);
    assert_eq!(wide.upload_layout(), None);
    let widest = Texture::from_image((u32::MAX / 4, 7), vec![], "w", false);
    assert_eq!(widest.upload_layout(), Some((u32::MAX - 3, 7)));
}

#[test]
fn default_vertex_is_all_zero() {
    let vertex = ModelVertex::default();
    assert_eq!(vertex.position, [0, 0, 0]);
    assert_eq!(vertex.tex_coords, [0, 0]);
    assert_eq!(vertex.normal, [0, 0, 0]);
    assert_eq!(vertex.tangent, [0, 0, 0]);
    assert_eq!(vertex.bitangent, [0, 0, 0]);
}

#[test]
fn bind_group_layouts_number_their_bindings() {
    let uniform = bind_group_layout(BindGroupRole::Uniform);
    assert_eq!(uniform.len(), 2);
    assert_eq!(uniform[0].kind, BindingKind::Uniform);
    assert!(uniform[0].visibility.vertex && uniform[0].visibility.fragment);
    assert_eq!(uniform[1].kind, BindingKind::Storage);
    assert!(uniform[1].visibility.vertex && !uniform[1].visibility.fragment);
    let material = bind_group_layout(BindGroupRole::Material);
    let kinds: Vec<BindingKind> = material.iter().map(|entry| entry.kind).collect();
    assert_eq!(
        kinds,
        vec![
            BindingKind::Texture,
            BindingKind::Sampler,
            BindingKind::Texture,
            BindingKind::Sampler
        ]
    );
    assert!(material.iter().all(|entry| entry.visibility.fragment && !entry.visibility.vertex));
    let light = bind_group_layout(BindGroupRole::Light);
    assert_eq!(light.len(), 1);
    assert!(light[0].visibility.vertex && light[0].visibility.fragment);
    let camera = bind_group_layout(BindGroupRole::Camera);
    assert_eq!(camera.len(), 1);
    assert!(camera[0].visibility.vertex && !camera[0].visibility.fragment);
    for role in [
        BindGroupRole::Uniform,
        BindGroupRole::Material,
        BindGroupRole::Light,
        BindGroupRole::Camera,
    ] {
        for (place, entry) in bind_group_layout(role).iter().enumerate() {
            assert_eq!(entry.binding as usize, place);
        }
    }
}

#[test]
fn pipelines_have_a_slot_for_each_bind_group() {
    assert_eq!(
        model_pipeline_layout(),
        vec![BindGroupRole::Uniform, BindGroupRole::Material, BindGroupRole::Light]
    );
    assert_eq!(debug_pipeline_layout(), vec![BindGroupRole::Camera]);
    assert_eq!(sphere_pipeline_layout(), vec![BindGroupRole::Uniform]);
}
