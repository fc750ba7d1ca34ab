use scene_viewer::gpu::{BindGroup, BufferCommand, Command, DrawCommand, PrimitiveTopology};
use scene_viewer::mirror::Mirror;
use scene_viewer::model::{Material, Mesh, Model, ModelVertex};
use scene_viewer::renderer::model::{ModelDrawer, INITIAL_INSTANCES, INSTANCE_SIZE};
use scene_viewer::renderer::render::Drawer;
use scene_viewer::scene::{Object, RawTransform, Transform};
use scene_viewer::texture::Texture;

fn vertex(x: f32, y: f32, z: f32) -> ModelVertex {
    ModelVertex {
        position: [x.to_bits(), y.to_bits(), z.to_bits()],
        tex_coords: [0.25f32.to_bits(), 0.75f32.to_bits()],
        normal: [0, 0, 1.0f32.to_bits()],
        tangent: [0; 3],
        bitangent: [0; 3],
    }
}

fn mesh(name: &str, vertices: usize, indices: Vec<u32>, material_id: usize) -> Mesh {
    Mesh {
        name: name.to_string(),
        vertices: (0..vertices).map(|i| vertex(i as f32, 1.0, -1.0)).collect(),
        indices,
        material_id,
    }
}

fn material(name: &str) -> Material {
    Material::new(
        name,
        Texture::from_image((1, 1), vec![255, 0, 0, 255], "diffuse", false),
        Texture::from_image((1, 1), vec![128, 128, 255, 255], "normal", true),
    )
}

fn two_mesh_model(id: usize) -> Model {
    Model {
        id,
        label: "penguin.obj".to_string(),
        meshes: vec![mesh("body", 4, vec![0, 1, 2, 2, 3, 0], 0), mesh("beak", 3, vec![0, 1, 2], 0)],
        materials: vec![material("skin")],
    }
}

fn grid(rows: u32, per_row: u32) -> Vec<RawTransform> {
    let mut transforms = Vec::new();
    for z in 0..rows {
        for x in 0..per_row {
            let mut matrix = [0u32; 16];
            matrix[0] = 1.0f32.to_bits();
            matrix[5] = 1.0f32.to_bits();
            matrix[10] = 1.0f32.to_bits();
            matrix[15] = 1.0f32.to_bits();
            matrix[12] = ((x * 6) as f32 - 2.5).to_bits();
            matrix[14] = ((z * 6) as f32 - 2.5).to_bits();
            transforms.push(RawTransform { transform: matrix });
        }
    }
    transforms
}

fn raw_bytes(transforms: &[RawTransform]) -> Vec<u8> {
    let mut bytes = Vec::new();
    for transform in transforms {
        for word in transform.transform {
            bytes.extend(f32::from_bits(word).to_ne_bytes());
        }
    }
    bytes
}

fn run(mirror: &mut Mirror, commands: &[Command]) {
    for command in commands {
        if let Command::Buffer(buffer_command) = command {
            assert!(mirror.execute(buffer_command), "the device refused {:?}", buffer_command);
        }
    }
}

fn draw_calls(commands: &[DrawCommand]) -> Vec<(u32, u32)> {
    commands
        .iter()
        .filter_map(|command| match command {
            DrawCommand::DrawIndexed { indices, instances } => Some((*indices, *instances)),
            _ => None,
        })
        .collect()
}

#[test]
fn new_drawer_draws_nothing_but_binds_its_pipeline() {
    let drawer = ModelDrawer::new(PrimitiveTopology::TriangleList);
    assert_eq!(drawer.topology(), PrimitiveTopology::TriangleList);
    assert!(drawer.models().is_empty());
    assert_eq!(drawer.draw(), vec![DrawCommand::SetPipeline]);
}

#[test]
fn init_model_registers_materials_meshes_and_an_empty_instance_buffer() {
    let mut drawer = ModelDrawer::new(PrimitiveTopology::TriangleList);
    let model = two_mesh_model(5);
    let commands = drawer.init_model(&model);
    // one material, two meshes with two buffers each, the instance buffer, the bind group
    assert_eq!(commands.len(), 1 + 4 + 2);
    match &commands[0] {
        Command::MaterialBindGroup { bind_group, material } => {
            assert_eq!((*bind_group, *material), (1, 0));
        }
        other => panic!("unexpected command {:?}", other),
    }
    match &commands[1] {
        Command::Buffer(BufferCommand::CreateInit { buffer, contents, usage }) => {
            assert_eq!(*buffer, 3);
            assert!(usage.index && !usage.vertex && !usage.copy_dst);
            let expected: Vec<u8> =
                [0u32, 1, 2, 2, 3, 0].iter().flat_map(|i| i.to_ne_bytes()).collect();
            assert_eq!(contents, &expected);
        }
        other => panic!("unexpected command {:?}", other),
    }
    match &commands[2] {
        Command::Buffer(BufferCommand::CreateInit { buffer, contents, usage }) => {
            assert_eq!(*buffer, 4);
            assert!(usage.vertex && !usage.index);
            assert_eq!(contents.len(), 4 * 56);
            assert_eq!(&contents[0..4], &0.0f32.to_ne_bytes());
            assert_eq!(&contents[4..8], &1.0f32.to_ne_bytes());
            assert_eq!(&contents[8..12], &(-1.0f32).to_ne_bytes());
            assert_eq!(&contents[12..16], &0.25f32.to_ne_bytes());
            assert_eq!(&contents[16..20], &0.75f32.to_ne_bytes());
            assert_eq!(&contents[28..32], &1.0f32.to_ne_bytes());
            assert_eq!(&contents[56..60], &1.0f32.to_ne_bytes());
        }
        other => panic!("unexpected command {:?}", other),
    }
    match &commands[3] {
        Command::Buffer(BufferCommand::CreateInit { buffer, contents, .. }) => {
            assert_eq!(*buffer, 6);
            assert_eq!(contents.len(), 12);
        }
        other => panic!("unexpected command {:?}", other),
    }
    match &commands[4] {
        Command::Buffer(BufferCommand::CreateInit { buffer, contents, .. }) => {
            assert_eq!(*buffer, 7);
            assert_eq!(contents.len(), 3 * 56);
        }
        other => panic!("unexpected command {:?}", other),
    }
    match &commands[5] {
        Command::Buffer(BufferCommand::Create { buffer, size, usage }) => {
            assert_eq!(*buffer, 8);
            assert_eq!(*size, (INITIAL_INSTANCES * INSTANCE_SIZE) as u64);
            assert!(usage.storage && usage.copy_dst && usage.copy_src);
        }
        other => panic!("unexpected command {:?}", other),
    }
    match &commands[6] {
        Command::UniformBindGroup { bind_group, instances } => {
            assert_eq!((*bind_group, *instances), (9, 8));
        }
        other => panic!("unexpected command {:?}", other),
    }
    assert!(drawer.knows(5));
    assert!(!drawer.knows(0));
    let models = drawer.models();
    assert_eq!(models.len(), 1);
    assert_eq!(models[0].id, 5);
    assert_eq!(models[0].num_of_instances, 0);
    assert_eq!(models[0].internal_meshes.len(), 2);
    assert_eq!(models[0].internal_meshes[0].id, 2);
    assert_eq!(models[0].internal_meshes[0].count, 6);
    assert_eq!(models[0].internal_meshes[0].material_id, Some(0));
    assert_eq!(models[0].internal_meshes[1].id, 5);
    assert_eq!(models[0].internal_meshes[1].count, 3);
    let buffer = drawer.get_instance_buffer(5);
    assert_eq!((buffer.len(), buffer.capacity(), buffer.record_size()), (0, 4, 64));
}

#[test]
fn model_without_materials_is_drawn_without_any() {
    let mut drawer = ModelDrawer::new(PrimitiveTopology::LineList);
    let model = Model {
        id: 0,
        label: "sphere.obj".to_string(),
        meshes: vec![mesh("shell", 3, vec![0, 1, 2], 7)],
        materials: vec![],
    };
    let commands = drawer.init_model(&model);
    assert_eq!(commands.len(), 4);
    assert_eq!(drawer.models()[0].internal_meshes[0].material_id, None);
    let calls = drawer.draw();
    assert_eq!(
        calls,
        vec![
            DrawCommand::SetPipeline,
            DrawCommand::SetVertexBuffer { slot: 0, buffer: 2 },
            DrawCommand::SetIndexBuffer { buffer: 1 },
            DrawCommand::SetBindGroup { slot: 0, bind_group: BindGroup::Created(4) },
            DrawCommand::SetBindGroup { slot: 2, bind_group: BindGroup::Light },
            DrawCommand::DrawIndexed { indices: 3, instances: 0 },
        ]
    );
}

#[test]
fn twenty_five_instances_are_counted_and_drawn() {
    let mut drawer = ModelDrawer::new(PrimitiveTopology::TriangleList);
    let mut mirror = Mirror::new();
    let model = two_mesh_model(0);
    let commands = drawer.init_model(&model);
    run(&mut mirror, &commands);
    let transforms = grid(5, 5);
    let commands = drawer.add_instances(0, &transforms);
    run(&mut mirror, &commands);
    assert_eq!(drawer.models()[0].num_of_instances, 25);
    let buffer = drawer.get_instance_buffer(0);
    assert_eq!(buffer.len(), 25);
    assert_eq!(buffer.capacity(), 50);
    let held = mirror.contents(buffer.get_buffer()).unwrap();
    assert_eq!(&held[..25 * 64], &raw_bytes(&transforms)[..]);
    match commands.last().unwrap() {
        Command::UniformBindGroup { instances, .. } => assert_eq!(*instances, buffer.get_buffer()),
        other => panic!("unexpected command {:?}", other),
    }
    let calls = drawer.draw();
    assert_eq!(draw_calls(&calls), vec![(6, 25), (3, 25)]);
    assert_eq!(
        calls,
        vec![
            DrawCommand::SetPipeline,
            DrawCommand::SetVertexBuffer { slot: 0, buffer: 4 },
            DrawCommand::SetIndexBuffer { buffer: 3 },
            DrawCommand::SetBindGroup { slot: 0, bind_group: BindGroup::Created(11) },
            DrawCommand::SetBindGroup { slot: 1, bind_group: BindGroup::Created(1) },
            DrawCommand::SetBindGroup { slot: 2, bind_group: BindGroup::Light },
            DrawCommand::DrawIndexed { indices: 6, instances: 25 },
            DrawCommand::SetVertexBuffer { slot: 0, buffer: 7 },
            DrawCommand::SetIndexBuffer { buffer: 6 },
            DrawCommand::SetBindGroup { slot: 0, bind_group: BindGroup::Created(11) },
            DrawCommand::SetBindGroup { slot: 1, bind_group: BindGroup::Created(1) },
            DrawCommand::SetBindGroup { slot: 2, bind_group: BindGroup::Light },
            DrawCommand::DrawIndexed { indices: 3, instances: 25 },
        ]
    );
}

#[test]
fn adding_instances_grows_the_count_and_keeps_earlier_records() {
    let mut drawer = ModelDrawer::new(PrimitiveTopology::TriangleList);
    let mut mirror = Mirror::new();
    run(&mut mirror, &drawer.init_model(&two_mesh_model(0)));
    run(&mut mirror, &drawer.init_model(&two_mesh_model(1)));
    let first = grid(1, 3);
    run(&mut mirror, &drawer.add_instances(0, &first));
    let other = grid(2, 1);
    run(&mut mirror, &drawer.add_instances(1, &other));
    assert_eq!(drawer.models()[0].num_of_instances, 3);
    assert_eq!(drawer.models()[1].num_of_instances, 2);
    let before = drawer.get_instance_buffer(0);
    let held_before = mirror.contents(before.get_buffer()).unwrap();
    // four fit, the fourth and the rest do not: the buffer moves
    let second = grid(2, 2);
    let commands = drawer.add_instances(0, &second);
    assert_eq!(commands.len(), 4);
    run(&mut mirror, &commands);
    assert_eq!(drawer.models()[0].num_of_instances, 3 + 4);
    assert_eq!(drawer.models()[1].num_of_instances, 2);
    let after = drawer.get_instance_buffer(0);
    assert_ne!(after.get_buffer(), before.get_buffer());
    assert_eq!(after.capacity(), 14);
    let held = mirror.contents(after.get_buffer()).unwrap();
    assert_eq!(&held[..3 * 64], &held_before[..3 * 64]);
    assert_eq!(&held[..3 * 64], &raw_bytes(&first)[..]);
    assert_eq!(&held[3 * 64..7 * 64], &raw_bytes(&second)[..]);
    let untouched = drawer.get_instance_buffer(1);
    let held_other = mirror.contents(untouched.get_buffer()).unwrap();
    assert_eq!(&held_other[..2 * 64], &raw_bytes(&other)[..]);
    assert_eq!(draw_calls(&drawer.draw()), vec![(6, 7), (3, 7), (6, 2), (3, 2)]);
}

#[test]
fn update_object_rewrites_bytes_448_to_512_only() {
    let mut drawer = ModelDrawer::new(PrimitiveTopology::TriangleList);
    let mut mirror = Mirror::new();
    run(&mut mirror, &drawer.init_model(&two_mesh_model(0)));
    run(&mut mirror, &drawer.add_instances(0, &grid(5, 5)));
    let buffer = drawer.get_instance_buffer(0);
    let before = mirror.contents(buffer.get_buffer()).unwrap();
    let object = Object {
        id: 7,
        model_id: 0,
        instance_id: 7,
        transform: Transform { position: [0; 3], rotation: [0; 4], scale: [0; 3] },
    };
    let mut matrix = [0u32; 16];
    for (i, word) in matrix.iter_mut().enumerate() {
        *word = (i as f32 + 0.5).to_bits();
    }
    let moved = RawTransform { transform: matrix };
    let command = drawer.update_object(&object, &moved);
    match &command {
        Command::Buffer(BufferCommand::Write { buffer: target, offset, data }) => {
            assert_eq!(*target, buffer.get_buffer());
            assert_eq!(*offset, 7 * 64);
            assert_eq!(data.len(), 64);
            assert_eq!(data, &raw_bytes(&[moved]));
        }
        other => panic!("unexpected command {:?}", other),
    }
    run(&mut mirror, &[command]);
    let after = mirror.contents(buffer.get_buffer()).unwrap();
    assert_eq!(after.len(), before.len());
    assert_eq!(&after[..448], &before[..448]);
    assert_eq!(&after[448..512], &raw_bytes(&[moved])[..]);
    assert_ne!(&after[448..512], &before[448..512]);
    assert_eq!(&after[512..], &before[512..]);
    assert_eq!(drawer.models()[0].num_of_instances, 25);
}

#[test]
fn models_are_drawn_in_the_order_of_their_initialisation() {
    let mut drawer = ModelDrawer::new(PrimitiveTopology::TriangleList);
    drawer.init_model(&two_mesh_model(9));
    drawer.init_model(&two_mesh_model(3));
    drawer.init_model(&two_mesh_model(6));
    let ids: Vec<usize> = drawer.models().iter().map(|model| model.id).collect();
    assert_eq!(ids, vec![9, 3, 6]);
    drawer.add_instances(3, &grid(1, 2));
    assert_eq!(draw_calls(&drawer.draw()), vec![(6, 0), (3, 0), (6, 2), (3, 2), (6, 0), (3, 0)]);
    assert_eq!(drawer.draw(), drawer.draw());
}

#[test]
fn drawer_says_what_it_can_take() {
    let mut drawer = ModelDrawer::new(PrimitiveTopology::TriangleList);
    let model = two_mesh_model(3);
    assert!(drawer.can_init(&model));
    assert!(!drawer.can_add(3, 1));
    let mut broken = two_mesh_model(4);
    broken.meshes[1].material_id = 1;
    assert!(!broken.is_wf());
    assert!(!drawer.can_init(&broken));
    drawer.init_model(&model);
    assert!(!drawer.can_init(&model));
    assert!(drawer.can_init(&two_mesh_model(4)));
    assert!(drawer.can_add(3, 0));
    assert!(drawer.can_add(3, 4));
    assert!(drawer.can_add(3, 5));
    assert!(drawer.can_add(3, usize::MAX / 128));
    assert!(!drawer.can_add(3, usize::MAX / 128 + 1));
    assert!(!drawer.can_add(3, usize::MAX));
    assert!(!drawer.can_add(4, 1));
    let mut object = Object {
        id: 0,
        model_id: 3,
        instance_id: 0,
        transform: Transform { position: [0; 3], rotation: [0; 4], scale: [0; 3] },
    };
    assert!(!drawer.can_update(&object));
    drawer.add_instances(3, &grid(1, 2));
    assert!(drawer.can_update(&object));
    object.instance_id = 1;
    assert!(drawer.can_update(&object));
    object.instance_id = 2;
    assert!(!drawer.can_update(&object));
    object.model_id = 9;
    object.instance_id = 0;
    assert!(!drawer.can_update(&object));
    assert_eq!(drawer.next_handle(), 11);
}
