use scene_viewer::gpu::{BufferCommand, Command, DrawCommand, PrimitiveTopology};
use scene_viewer::gui::{Color, GUIState, Message};
use scene_viewer::model::{Mesh, Model, ModelVertex, SimpleVertex};
use scene_viewer::renderer::render::{DrawerKind, FrameStep, RenderingState};
use scene_viewer::scene::{Object, RawTransform, Transform};
use scene_viewer::texture::TextureType;

fn triangle(id: usize) -> Model {
    let corner = ModelVertex {
        position: [0; 3],
        tex_coords: [0; 2],
        normal: [0; 3],
        tangent: [0; 3],
        bitangent: [0; 3],
    };
    Model {
        id,
        label: "triangle".to_string(),
        meshes: vec![Mesh {
            name: "face".to_string(),
            vertices: vec![corner; 3],
            indices: vec![0, 1, 2],
            material_id: 0,
        }],
        materials: vec![],
    }
}

fn object(id: usize, model_id: usize, instance_id: usize) -> Object {
    Object {
        id,
        model_id,
        instance_id,
        transform: Transform {
            position: [(id as f32).to_bits(), 0, 0],
            rotation: [0, 0, 0, 1.0f32.to_bits()],
            scale: [1.0f32.to_bits(); 3],
        },
    }
}

fn identity() -> RawTransform {
    let mut matrix = [0u32; 16];
    for k in [0, 5, 10, 15] {
        matrix[k] = 1.0f32.to_bits();
    }
    RawTransform { transform: matrix }
}

fn kinds(steps: &[FrameStep]) -> Vec<u8> {
    steps
        .iter()
        .map(|step| match step {
            FrameStep::AcquireFrame => 0,
            FrameStep::BeginPass { .. } => 1,
            FrameStep::Draw { drawer: DrawerKind::Model, .. } => 2,
            FrameStep::Draw { drawer: DrawerKind::Debug, .. } => 3,
            FrameStep::Draw { drawer: DrawerKind::BoundingSpheres, .. } => 4,
            FrameStep::EndPass => 5,
            FrameStep::CompositeGui => 6,
            FrameStep::Submit => 7,
            FrameStep::UpdateCursor => 8,
        })
        .collect()
}

#[test]
fn empty_state_renders_the_debug_line_only() {
    let (state, setup) = RenderingState::new(800, 600);
    assert_eq!(state.size(), (800, 600));
    match setup {
        Command::Buffer(BufferCommand::CreateInit { buffer, contents, usage }) => {
            assert_eq!(buffer, 0);
            assert!(usage.vertex && usage.copy_dst);
            let mut expected = Vec::new();
            for value in [0.1f32, 0.1, 0.1, 5.3, 5.3, 5.3] {
                expected.extend(value.to_ne_bytes());
            }
            assert_eq!(contents, expected);
        }
        other => panic!("unexpected command {:?}", other),
    }
    assert!(state.bounding_spheres_drawer().is_none());
    let steps = state.render(Color::Black);
    assert_eq!(
        steps,
        vec![
            FrameStep::AcquireFrame,
            FrameStep::BeginPass { clear: Color::Black },
            FrameStep::Draw { drawer: DrawerKind::Model, command: DrawCommand::SetPipeline },
            FrameStep::Draw { drawer: DrawerKind::Debug, command: DrawCommand::SetPipeline },
            FrameStep::Draw {
                drawer: DrawerKind::Debug,
                command: DrawCommand::SetVertexBuffer { slot: 0, buffer: 0 },
            },
            FrameStep::Draw {
                drawer: DrawerKind::Debug,
                command: DrawCommand::SetBindGroup {
                    slot: 0,
                    bind_group: scene_viewer::gpu::BindGroup::Camera,
                },
            },
            FrameStep::Draw {
                drawer: DrawerKind::Debug,
                command: DrawCommand::Draw { vertices: 2, instances: 1 },
            },
            FrameStep::EndPass,
            FrameStep::CompositeGui,
            FrameStep::Submit,
            FrameStep::UpdateCursor,
        ]
    );
}

#[test]
fn render_is_repeatable_and_ordered_by_drawer() {
    let (mut state, _) = RenderingState::new(640, 480);
    let first = triangle(0);
    let second = triangle(1);
    state.init_model(&first);
    state.init_model(&second);
    state.add_instances(&first, &vec![identity(); 3]);
    state.add_instances(&second, &vec![identity(); 2]);
    let objects: Vec<Object> = (0..5).map(|k| object(k, 0, k)).collect();
    state.add_bounding_sphere_instances(0, &objects.iter().collect(), 2.0f32.to_bits());
    let steps = state.render(Color::White);
    assert_eq!(steps, state.render(Color::White));
    assert_eq!(steps, state.render(Color::White));
    assert_eq!(steps[1], FrameStep::BeginPass { clear: Color::White });
    assert_eq!(steps[2..], state.render(Color::Black)[2..]);
    let order = kinds(&steps);
    let mut sorted = order.clone();
    sorted.sort();
    assert_eq!(order, sorted);
    assert_eq!(order.iter().filter(|kind| **kind == 2).count(), 1 + 2 * 5);
    assert_eq!(order.iter().filter(|kind| **kind == 3).count(), 4);
    assert_eq!(order.iter().filter(|kind| **kind == 4).count(), 1 + 4);
    let instances: Vec<(DrawerKind, u32, u32)> = steps
        .iter()
        .filter_map(|step| match step {
            FrameStep::Draw {
                drawer,
                command: DrawCommand::DrawIndexed { indices, instances },
            } => Some((*drawer, *indices, *instances)),
            _ => None,
        })
        .collect();
    assert_eq!(
        instances,
        vec![
            (DrawerKind::Model, 3, 3),
            (DrawerKind::Model, 3, 2),
            (DrawerKind::BoundingSpheres, 18, 5),
        ]
    );
}

#[test]
fn bounding_spheres_drawer_is_created_on_first_use() {
    let (mut state, _) = RenderingState::new(1, 1);
    assert_eq!(state.model_drawer().topology(), PrimitiveTopology::TriangleList);
    assert!(state.bounding_spheres_drawer().is_none());
    let before = state.render(Color::Black);
    assert!(kinds(&before).iter().all(|kind| *kind != 4));
    let first = object(0, 7, 0);
    let commands = state.add_bounding_sphere_instances(7, &vec![&first], 1.5f32.to_bits());
    // two commands set the drawer up, two add the spheres
    assert_eq!(commands.len(), 4);
    match &commands[0] {
        Command::Buffer(BufferCommand::CreateInit { buffer, contents, .. }) => {
            assert_eq!(*buffer, 0);
            assert_eq!(contents.len(), 12 * 56);
        }
        other => panic!("unexpected command {:?}", other),
    }
    match &commands[2] {
        Command::Buffer(BufferCommand::CreateInit { buffer, contents, .. }) => {
            assert_eq!(*buffer, 2);
            let expected: Vec<u8> =
                [0.0f32, 0.0, 0.0, 1.5].iter().flat_map(|value| value.to_ne_bytes()).collect();
            assert_eq!(contents, &expected);
        }
        other => panic!("unexpected command {:?}", other),
    }
    let drawer = state.bounding_spheres_drawer().unwrap();
    assert!(drawer.knows(7));
    let second = object(1, 8, 0);
    let commands = state.add_bounding_sphere_instances(8, &vec![&second, &first], 1.0f32.to_bits());
    assert_eq!(commands.len(), 2);
    assert!(state.bounding_spheres_drawer().unwrap().knows(8));
    assert_eq!(kinds(&state.render(Color::Black)).iter().filter(|kind| **kind == 4).count(), 9);
}

#[test]
fn bounding_spheres_drawer_can_be_created_ahead() {
    let (mut state, _) = RenderingState::new(1, 1);
    let setup = state.init_bounding_sphere();
    assert_eq!(setup.len(), 2);
    assert!(state.bounding_spheres_drawer().is_some());
    let only = object(0, 1, 0);
    let commands = state.add_bounding_sphere_instances(1, &vec![&only], 1.0f32.to_bits());
    assert_eq!(commands.len(), 2);
    let steps = state.render(Color::White);
    assert_eq!(
        steps[7..12],
        [
            FrameStep::Draw {
                drawer: DrawerKind::BoundingSpheres,
                command: DrawCommand::SetPipeline
            },
            FrameStep::Draw {
                drawer: DrawerKind::BoundingSpheres,
                command: DrawCommand::SetVertexBuffer { slot: 0, buffer: 0 },
            },
            FrameStep::Draw {
                drawer: DrawerKind::BoundingSpheres,
                command: DrawCommand::SetIndexBuffer { buffer: 1 },
            },
            FrameStep::Draw {
                drawer: DrawerKind::BoundingSpheres,
                command: DrawCommand::SetBindGroup {
                    slot: 0,
                    bind_group: scene_viewer::gpu::BindGroup::Created(3),
                },
            },
            FrameStep::Draw {
                drawer: DrawerKind::BoundingSpheres,
                command: DrawCommand::DrawIndexed { indices: 18, instances: 1 },
            },
        ]
    );
}

#[test]
fn background_follows_the_overlay() {
    let (state, _) = RenderingState::new(10, 10);
    let mut gui = GUIState::new();
    assert_eq!(
        state.render(gui.background_color())[1],
        FrameStep::BeginPass { clear: Color::Black }
    );
    gui.update(Message::ChangeBackgroundColor);
    assert_eq!(
        state.render(gui.background_color())[1],
        FrameStep::BeginPass { clear: Color::White }
    );
    gui.update(Message::UpdateFps(59));
    assert_eq!(
        state.render(gui.background_color())[1],
        FrameStep::BeginPass { clear: Color::White }
    );
    gui.update(Message::ChangeBackgroundColor);
    assert_eq!(
        state.render(gui.background_color())[1],
        FrameStep::BeginPass { clear: Color::Black }
    );
}

#[test]
fn resize_gives_a_depth_texture_of_the_new_size() {
    let (mut state, _) = RenderingState::new(800, 600);
    let depth = state.depth_texture();
    assert_eq!(depth.dimensions, (800, 600));
    assert_eq!(depth.label, "depth_texture");
    let depth = state.resize(1024, 768);
    assert_eq!(depth.dimensions, (1024, 768));
    assert_eq!(depth.type_, TextureType::Depth);
    assert!(depth.rgba_image.is_none());
    assert_eq!(state.size(), (1024, 768));
    assert_eq!(state.depth_texture().dimensions, (1024, 768));
}

#[test]
fn state_forwards_updates_and_lines() {
    let (mut state, _) = RenderingState::new(10, 10);
    let model = triangle(0);
    state.init_model(&model);
    state.add_instances(&model, &vec![identity(); 2]);
    let object = Object {
        id: 1,
        model_id: 0,
        instance_id: 1,
        transform: Transform { position: [0; 3], rotation: [0; 4], scale: [0; 3] },
    };
    match state.update_object(&object, &identity()) {
        Command::Buffer(BufferCommand::Write { offset, data, .. }) => {
            assert_eq!(offset, 64);
            assert_eq!(data.len(), 64);
        }
        other => panic!("unexpected command {:?}", other),
    }
    let start = SimpleVertex { position: [1, 2, 3] };
    let end = SimpleVertex { position: [4, 5, 6] };
    match state.add_line(start, end) {
        Command::Buffer(BufferCommand::Write { buffer, offset, data }) => {
            assert_eq!((buffer, offset), (0, 0));
            let expected: Vec<u8> =
                [1u32, 2, 3, 4, 5, 6].iter().flat_map(|word| word.to_ne_bytes()).collect();
            assert_eq!(data, expected);
        }
        other => panic!("unexpected command {:?}", other),
    }
}
