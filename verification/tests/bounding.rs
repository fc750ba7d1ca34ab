use ordered_float::OrderedFloat;
use scene_viewer::gpu::{BindGroup, BufferCommand, Command, DrawCommand};
use scene_viewer::primitives::get_mesh;
use scene_viewer::renderer::bounding_sphere::{
    calc_bounding_sphere_radius, BoundingSpheresDrawer, SPHERE_INDICES, SPHERE_VERTICES,
};
use scene_viewer::renderer::render::Drawer;
use scene_viewer::scene::{Object, Transform};

fn lengths(vertices: &[[f32; 3]]) -> Vec<u32> {
    vertices.iter().map(|v| (v[0] * v[0] + v[1] * v[1] + v[2] * v[2]).sqrt().to_bits()).collect()
}

fn cube() -> Vec<[f32; 3]> {
    let mut corners = Vec::new();
    for x in [-1.0f32, 1.0] {
        for y in [-1.0f32, 1.0] {
            for z in [-1.0f32, 1.0] {
                corners.push([x, y, z]);
            }
        }
    }
    corners
}

fn object(id: usize, model_id: usize, instance_id: usize, position: [f32; 3]) -> Object {
    Object {
        id,
        model_id,
        instance_id,
        transform: Transform {
            position: [position[0].to_bits(), position[1].to_bits(), position[2].to_bits()],
            rotation: [0, 0, 0, 1.0f32.to_bits()],
            scale: [1.0f32.to_bits(); 3],
        },
    }
}

#[test]
fn radius_of_the_unit_cube_is_root_three() {
    let radius = calc_bounding_sphere_radius(&vec![lengths(&cube())]).unwrap();
    assert_eq!(f32::from_bits(radius), 3.0f32.sqrt());
}

#[test]
fn radius_is_the_greatest_length_over_all_meshes() {
    let far = vec![[0.0f32, 0.0, 0.5], [3.0, 4.0, 0.0], [1.0, 1.0, 1.0]];
    let near = vec![[0.0f32, 2.0, 0.0]];
    let radius = calc_bounding_sphere_radius(&vec![lengths(&far), lengths(&near)]).unwrap();
    assert_eq!(f32::from_bits(radius), 5.0);
    let radius = calc_bounding_sphere_radius(&vec![lengths(&near), vec![], lengths(&cube())]);
    assert_eq!(f32::from_bits(radius.unwrap()), 2.0);
    let radius = calc_bounding_sphere_radius(&vec![vec![], lengths(&[[0.0, 0.0, 0.0]])]);
    assert_eq!(radius, Some(0));
}

#[test]
fn model_without_vertices_has_no_radius() {
    assert_eq!(calc_bounding_sphere_radius(&vec![]), None);
    assert_eq!(calc_bounding_sphere_radius(&vec![vec![], vec![]]), None);
}

#[test]
fn radius_of_the_sphere_mesh_is_root_two() {
    let mesh = get_mesh();
    let corners: Vec<[f32; 3]> = mesh
        .vertices
        .iter()
        .map(|v| {
            [
                f32::from_bits(v.position[0]),
                f32::from_bits(v.position[1]),
                f32::from_bits(v.position[2]),
            ]
        })
        .collect();
    let radius = calc_bounding_sphere_radius(&vec![lengths(&corners)]).unwrap();
    assert_eq!(f32::from_bits(radius), 2.0f32.sqrt());
}

#[test]
fn sphere_drawer_sets_up_the_sphere_mesh() {
    let (drawer, setup) = BoundingSpheresDrawer::new();
    assert_eq!(setup.len(), 2);
    match &setup[0] {
        Command::Buffer(BufferCommand::CreateInit { buffer, contents, usage }) => {
            assert_eq!(*buffer, SPHERE_VERTICES);
            assert!(usage.vertex);
            assert_eq!(contents.len(), 12 * 56);
            assert_eq!(&contents[0..4], &0.0f32.to_ne_bytes());
            assert_eq!(&contents[4..8], &(-1.0f32).to_ne_bytes());
            assert_eq!(&contents[8..12], &1.0f32.to_ne_bytes());
            assert_eq!(&contents[12..56], &[0u8; 44]);
        }
        other => panic!("unexpected command {:?}", other),
    }
    match &setup[1] {
        Command::Buffer(BufferCommand::CreateInit { buffer, contents, usage }) => {
            assert_eq!(*buffer, SPHERE_INDICES);
            assert!(usage.index);
            let expected: Vec<u8> = [0u32, 1, 2, 2, 3, 1, 4, 5, 6, 6, 7, 4, 8, 9, 10, 10, 11, 8]
                .iter()
                .flat_map(|index| index.to_ne_bytes())
                .collect();
            assert_eq!(contents, &expected);
        }
        other => panic!("unexpected command {:?}", other),
    }
    assert_eq!(drawer.draw(), vec![DrawCommand::SetPipeline]);
}

#[test]
fn spheres_hold_centre_and_radius_of_each_instance() {
    let (mut drawer, _) = BoundingSpheresDrawer::new();
    let first = object(0, 3, 0, [1.0, 2.0, 3.0]);
    let second = object(1, 3, 1, [-4.0, 0.0, 0.5]);
    let radius = 3.0f32.sqrt();
    let commands = drawer.add(3, &vec![&first, &second], radius.to_bits());
    assert_eq!(commands.len(), 2);
    match &commands[0] {
        Command::Buffer(BufferCommand::CreateInit { buffer, contents, usage }) => {
            assert_eq!(*buffer, 2);
            assert!(usage.storage && !usage.copy_dst);
            let expected: Vec<u8> = [1.0f32, 2.0, 3.0, radius, -4.0, 0.0, 0.5, radius]
                .iter()
                .flat_map(|value| value.to_ne_bytes())
                .collect();
            assert_eq!(contents, &expected);
        }
        other => panic!("unexpected command {:?}", other),
    }
    match &commands[1] {
        Command::UniformBindGroup { bind_group, instances } => {
            assert_eq!((*bind_group, *instances), (3, 2));
        }
        other => panic!("unexpected command {:?}", other),
    }
    let third = object(2, 8, 0, [0.0, 0.0, 0.0]);
    drawer.add(8, &vec![&third], 1.0f32.to_bits());
    assert_eq!(
        drawer.draw(),
        vec![
            DrawCommand::SetPipeline,
            DrawCommand::SetVertexBuffer { slot: 0, buffer: SPHERE_VERTICES },
            DrawCommand::SetIndexBuffer { buffer: SPHERE_INDICES },
            DrawCommand::SetBindGroup { slot: 0, bind_group: BindGroup::Created(3) },
            DrawCommand::DrawIndexed { indices: 18, instances: 2 },
            DrawCommand::SetVertexBuffer { slot: 0, buffer: SPHERE_VERTICES },
            DrawCommand::SetIndexBuffer { buffer: SPHERE_INDICES },
            DrawCommand::SetBindGroup { slot: 0, bind_group: BindGroup::Created(5) },
            DrawCommand::DrawIndexed { indices: 18, instances: 1 },
        ]
    );
}

#[test]
fn bit_patterns_order_lengths_as_ordered_floats_do() {
    let meshes: Vec<Vec<[f32; 3]>> = vec![
        vec![[0.5, 0.25, 0.125], [3.0, -4.0, 12.0], [1.0e-20, 0.0, 0.0]],
        vec![[-7.0, 0.0, 0.0], [0.0, 0.0, 0.0]],
        vec![[1.0e19, 1.0e19, 1.0e19], [2.0, 2.0, 1.0]],
    ];
    for upto in 1..=meshes.len() {
        let keys: Vec<Vec<u32>> = meshes[..upto].iter().map(|mesh| lengths(mesh)).collect();
        let expected = meshes[..upto]
            .iter()
            .flatten()
            .map(|v| OrderedFloat((v[0] * v[0] + v[1] * v[1] + v[2] * v[2]).sqrt()))
            .max()
            .unwrap();
        let radius = calc_bounding_sphere_radius(&keys).unwrap();
        assert_eq!(OrderedFloat(f32::from_bits(radius)), expected);
    }
    let with_nan = vec![vec![1.0f32.to_bits(), f32::NAN.to_bits(), f32::INFINITY.to_bits()]];
    let radius = calc_bounding_sphere_radius(&with_nan).unwrap();
    assert_eq!(
        OrderedFloat(f32::from_bits(radius)),
        [1.0f32, f32::NAN, f32::INFINITY].iter().map(|v| OrderedFloat(*v)).max().unwrap()
    );
}

#[test]
fn sphere_drawer_knows_what_it_was_given() {
    let (mut drawer, _) = BoundingSpheresDrawer::new();
    assert_eq!(drawer.next_handle(), 2);
    assert!(!drawer.knows(3));
    let only = object(0, 3, 0, [0.0, 0.0, 0.0]);
    drawer.add(3, &vec![&only], 1.0f32.to_bits());
    assert!(drawer.knows(3));
    assert!(!drawer.knows(0));
    assert_eq!(drawer.next_handle(), 4);
}
