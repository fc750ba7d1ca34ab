use cgmath::{Deg, InnerSpace, Matrix4, Point3, SquareMatrix, Vector3, Vector4};
use scene_viewer::gpu::{BindGroup, BufferCommand, Command, DrawCommand};
use scene_viewer::mirror::Mirror;
use scene_viewer::model::SimpleVertex;
use scene_viewer::renderer::debug::{DebugDrawer, LINE_BUFFER, LINE_SIZE};
use scene_viewer::renderer::render::Drawer;

fn bits(x: f32, y: f32, z: f32) -> SimpleVertex {
    SimpleVertex { position: [x.to_bits(), y.to_bits(), z.to_bits()] }
}

fn bytes(values: &[f32]) -> Vec<u8> {
    values.iter().flat_map(|value| value.to_ne_bytes()).collect()
}

fn execute(mirror: &mut Mirror, command: &Command) {
    match command {
        Command::Buffer(buffer_command) => assert!(mirror.execute(buffer_command)),
        other => panic!("unexpected command {:?}", other),
    }
}

#[test]
fn debug_drawer_draws_two_vertices_once() {
    let (drawer, _) = DebugDrawer::new();
    assert_eq!(
        drawer.draw(),
        vec![
            DrawCommand::SetPipeline,
            DrawCommand::SetVertexBuffer { slot: 0, buffer: LINE_BUFFER },
            DrawCommand::SetBindGroup { slot: 0, bind_group: BindGroup::Camera },
            DrawCommand::Draw { vertices: 2, instances: 1 },
        ]
    );
}

#[test]
fn add_line_overwrites_both_vertices_in_place() {
    let (drawer, setup) = DebugDrawer::new();
    let mut mirror = Mirror::new();
    execute(&mut mirror, &setup);
    assert_eq!(mirror.contents(LINE_BUFFER).unwrap(), bytes(&[0.1, 0.1, 0.1, 5.3, 5.3, 5.3]));
    let command = drawer.add_line(bits(1.0, -2.0, 3.5), bits(0.0, 8.25, -1.0));
    match &command {
        Command::Buffer(BufferCommand::Write { buffer, offset, data }) => {
            assert_eq!((*buffer, *offset), (LINE_BUFFER, 0));
            assert_eq!(data.len(), LINE_SIZE);
        }
        other => panic!("unexpected command {:?}", other),
    }
    execute(&mut mirror, &command);
    assert_eq!(mirror.contents(LINE_BUFFER).unwrap(), bytes(&[1.0, -2.0, 3.5, 0.0, 8.25, -1.0]));
    execute(&mut mirror, &drawer.add_line(bits(9.0, 9.0, 9.0), bits(7.0, 7.0, 7.0)));
    assert_eq!(mirror.contents(LINE_BUFFER).unwrap(), bytes(&[9.0, 9.0, 9.0, 7.0, 7.0, 7.0]));
}

#[test]
fn click_ray_ends_up_in_the_line_buffer() {
    let (width, height) = (800.0f32, 600.0f32);
    let cursor = (200.0f32, 450.0f32);
    let zfar = 1000.0f32;
    let view = Matrix4::look_at_rh(
        Point3::new(10.0, 0.0, -25.0),
        Point3::new(10.0, 0.0, 0.0),
        Vector3::unit_y(),
    );
    let projection = cgmath::perspective(Deg(50.0f32), width / height, 0.1, zfar);
    let click = Vector4::new(2.0 * cursor.0 / width - 1.0, 1.0 - 2.0 * cursor.1 / height, 0.0, 1.0);
    let mut start = (projection * view).invert().unwrap() * click;
    start.x /= start.w;
    start.y /= start.w;
    start.z /= start.w;
    let mut ray_eye = projection.invert().unwrap() * Vector4::new(click.x, click.y, -1.0, 1.0);
    ray_eye.z = -1.0;
    ray_eye.w = 0.0;
    let ray_world = (view.invert().unwrap() * ray_eye).normalize();
    let end = start + zfar * ray_world;

    let (drawer, setup) = DebugDrawer::new();
    let mut mirror = Mirror::new();
    execute(&mut mirror, &setup);
    execute(
        &mut mirror,
        &drawer.add_line(bits(start.x, start.y, start.z), bits(end.x, end.y, end.z)),
    );
    let held = mirror.contents(LINE_BUFFER).unwrap();
    assert_eq!(held, bytes(&[start.x, start.y, start.z, end.x, end.y, end.z]));
    let read: Vec<f32> = held
        .chunks(4)
        .map(|chunk| f32::from_ne_bytes([chunk[0], chunk[1], chunk[2], chunk[3]]))
        .collect();
    assert_eq!(read, vec![start.x, start.y, start.z, end.x, end.y, end.z]);
    assert!(read.iter().all(|value| value.is_finite()));
}
