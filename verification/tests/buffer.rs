use scene_viewer::buffer::{DynamicBuffer, GROWTH_FACTOR};
use scene_viewer::gpu::{BufferCommand, BufferUsage};
use scene_viewer::index::IndexDriver;
use scene_viewer::mirror::Mirror;

fn storage() -> BufferUsage {
    BufferUsage {
        copy_src: true,
        copy_dst: false,
        index: false,
        vertex: false,
        uniform: false,
        storage: true,
    }
}

fn record(tag: u8, size: usize) -> Vec<u8> {
    (0..size).map(|i| tag.wrapping_mul(31).wrapping_add(i as u8)).collect()
}

fn records(first: u8, count: u8, size: usize) -> Vec<u8> {
    let mut data = Vec::new();
    for k in 0..count {
        data.extend(record(first + k, size));
    }
    data
}

fn run(mirror: &mut Mirror, commands: &[BufferCommand]) {
    for command in commands {
        assert!(mirror.execute(command), "the device refused {:?}", command);
    }
}

#[test]
fn with_capacity_allocates_an_empty_writable_buffer() {
    let mut ids = IndexDriver::new();
    let (buffer, create) = DynamicBuffer::with_capacity(&mut ids, 4, 64, storage());
    assert_eq!(buffer.len(), 0);
    assert_eq!(buffer.capacity(), 4);
    assert_eq!(buffer.record_size(), 64);
    assert_eq!(buffer.get_buffer(), 0);
    assert!(buffer.usage().copy_dst);
    assert!(buffer.usage().copy_src);
    assert!(buffer.usage().storage);
    match create {
        BufferCommand::Create { buffer, size, usage } => {
            assert_eq!(buffer, 0);
            assert_eq!(size, 256);
            assert!(usage.copy_dst);
        }
        other => panic!("unexpected command {:?}", other),
    }
    assert_eq!(ids.next_id(), 1);
}

#[test]
fn append_within_capacity_writes_in_place() {
    let mut ids = IndexDriver::new();
    let (mut buffer, _) = DynamicBuffer::with_capacity(&mut ids, 4, 8, storage());
    let data = records(1, 3, 8);
    let commands = buffer.append(&mut ids, &data);
    assert_eq!(commands.len(), 1);
    match &commands[0] {
        BufferCommand::Write { buffer, offset, data: written } => {
            assert_eq!(*buffer, 0);
            assert_eq!(*offset, 0);
            assert_eq!(written, &data);
        }
        other => panic!("unexpected command {:?}", other),
    }
    assert_eq!(buffer.len(), 3);
    assert_eq!(buffer.capacity(), 4);
    assert_eq!(buffer.get_buffer(), 0);
    let more = records(4, 1, 8);
    let commands = buffer.append(&mut ids, &more);
    assert_eq!(commands.len(), 1);
    match &commands[0] {
        BufferCommand::Write { offset, .. } => assert_eq!(*offset, 24),
        other => panic!("unexpected command {:?}", other),
    }
    assert_eq!(buffer.len(), 4);
    assert_eq!(buffer.capacity(), 4);
}

#[test]
fn append_beyond_capacity_reallocates_copies_and_writes() {
    let mut ids = IndexDriver::new();
    let (mut buffer, _) = DynamicBuffer::with_capacity(&mut ids, 4, 8, storage());
    buffer.append(&mut ids, &records(1, 3, 8));
    let data = records(10, 2, 8);
    let commands = buffer.append(&mut ids, &data);
    assert_eq!(commands.len(), 3);
    match &commands[0] {
        BufferCommand::Create { buffer, size, usage } => {
            assert_eq!(*buffer, 1);
            assert_eq!(*size, 80);
            assert!(usage.copy_dst && usage.copy_src && usage.storage);
        }
        other => panic!("unexpected command {:?}", other),
    }
    match &commands[1] {
        BufferCommand::Copy { source, destination, size } => {
            assert_eq!((*source, *destination, *size), (0, 1, 24));
        }
        other => panic!("unexpected command {:?}", other),
    }
    match &commands[2] {
        BufferCommand::Write { buffer, offset, data: written } => {
            assert_eq!((*buffer, *offset), (1, 24));
            assert_eq!(written, &data);
        }
        other => panic!("unexpected command {:?}", other),
    }
    assert_eq!(buffer.len(), 5);
    assert_eq!(buffer.capacity(), 10);
    assert_eq!(buffer.get_buffer(), 1);
}

#[test]
fn ten_records_into_capacity_four_reallocate_to_twenty() {
    let mut ids = IndexDriver::new();
    let mut mirror = Mirror::new();
    let (mut buffer, create) = DynamicBuffer::with_capacity(&mut ids, 4, 64, storage());
    run(&mut mirror, &[create]);
    let data = records(1, 10, 64);
    let commands = buffer.append(&mut ids, &data);
    run(&mut mirror, &commands);
    assert!(buffer.capacity() >= 14);
    assert_eq!(buffer.capacity(), (0 + 10) * GROWTH_FACTOR);
    assert_eq!(buffer.len(), 10);
    let held = mirror.contents(buffer.get_buffer()).unwrap();
    assert_eq!(held.len(), 20 * 64);
    assert_eq!(&held[..640], &data[..]);
    for k in 0..10 {
        assert_eq!(&held[k * 64..(k + 1) * 64], &record(1 + k as u8, 64)[..]);
    }
}

#[test]
fn appends_accumulate_in_order_across_reallocations() {
    let mut ids = IndexDriver::new();
    let mut mirror = Mirror::new();
    let (mut buffer, create) = DynamicBuffer::with_capacity(&mut ids, 2, 4, storage());
    run(&mut mirror, &[create]);
    let batches: [u8; 7] = [1, 0, 2, 5, 1, 9, 3];
    let mut all: Vec<u8> = Vec::new();
    let mut total = 0usize;
    let mut tag = 0u8;
    for count in batches {
        let data = records(tag, count, 4);
        tag += count;
        let commands = buffer.append(&mut ids, &data);
        run(&mut mirror, &commands);
        all.extend(data);
        total += count as usize;
        assert_eq!(buffer.len(), total);
        assert!(buffer.len() <= buffer.capacity());
        let held = mirror.contents(buffer.get_buffer()).unwrap();
        assert_eq!(held.len(), buffer.capacity() * 4);
        assert_eq!(&held[..total * 4], &all[..]);
    }
    assert_eq!(total, 21);
}

#[test]
fn appending_nothing_writes_nothing_new() {
    let mut ids = IndexDriver::new();
    let mut mirror = Mirror::new();
    let (mut buffer, create) = DynamicBuffer::with_capacity(&mut ids, 1, 16, storage());
    run(&mut mirror, &[create]);
    let commands = buffer.append(&mut ids, &Vec::new());
    assert_eq!(commands.len(), 1);
    run(&mut mirror, &commands);
    assert_eq!(buffer.len(), 0);
    assert_eq!(buffer.capacity(), 1);
    assert_eq!(mirror.contents(0).unwrap(), vec![0u8; 16]);
}

#[test]
fn growth_from_a_full_buffer_doubles_what_is_needed() {
    let mut ids = IndexDriver::new();
    let (mut buffer, _) = DynamicBuffer::with_capacity(&mut ids, 0, 4, storage());
    buffer.append(&mut ids, &records(0, 1, 4));
    assert_eq!(buffer.capacity(), 2);
    buffer.append(&mut ids, &records(1, 1, 4));
    assert_eq!(buffer.capacity(), 2);
    buffer.append(&mut ids, &records(2, 1, 4));
    assert_eq!(buffer.capacity(), 6);
    assert_eq!(buffer.len(), 3);
}

#[test]
fn overwrite_at_touches_one_slot_only() {
    let mut ids = IndexDriver::new();
    let mut mirror = Mirror::new();
    let (mut other, create_other) = DynamicBuffer::with_capacity(&mut ids, 2, 8, storage());
    let (mut buffer, create) = DynamicBuffer::with_capacity(&mut ids, 8, 8, storage());
    run(&mut mirror, &[create_other, create]);
    let commands = other.append(&mut ids, &records(50, 2, 8));
    run(&mut mirror, &commands);
    let commands = buffer.append(&mut ids, &records(1, 6, 8));
    run(&mut mirror, &commands);
    let before = mirror.contents(buffer.get_buffer()).unwrap();
    let other_before = mirror.contents(other.get_buffer()).unwrap();
    let replacement = record(200, 8);
    let command = buffer.overwrite_at(3, &replacement);
    match &command {
        BufferCommand::Write { buffer: target, offset, data } => {
            assert_eq!(*target, buffer.get_buffer());
            assert_eq!(*offset, 24);
            assert_eq!(data, &replacement);
        }
        other => panic!("unexpected command {:?}", other),
    }
    run(&mut mirror, &[command]);
    let after = mirror.contents(buffer.get_buffer()).unwrap();
    assert_eq!(&after[24..32], &replacement[..]);
    for slot in 0..8 {
        if slot != 3 {
            assert_eq!(&after[slot * 8..(slot + 1) * 8], &before[slot * 8..(slot + 1) * 8]);
        }
    }
    assert_eq!(mirror.contents(other.get_buffer()).unwrap(), other_before);
    assert_eq!(buffer.len(), 6);
}

#[test]
fn mirror_refuses_what_the_device_refuses() {
    let mut mirror = Mirror::new();
    let usage = storage();
    assert!(mirror.execute(&BufferCommand::Create { buffer: 3, size: 8, usage }));
    assert!(!mirror.execute(&BufferCommand::Create { buffer: 3, size: 4, usage }));
    assert!(!mirror.execute(&BufferCommand::Write { buffer: 4, offset: 0, data: vec![1] }));
    assert!(!mirror.execute(&BufferCommand::Write { buffer: 3, offset: 6, data: vec![1, 2, 3] }));
    assert!(!mirror.execute(&BufferCommand::Copy { source: 3, destination: 3, size: 1 }));
    assert!(!mirror.execute(&BufferCommand::Copy { source: 3, destination: 9, size: 1 }));
    assert_eq!(mirror.contents(3).unwrap(), vec![0u8; 8]);
    assert!(mirror.execute(&BufferCommand::Write { buffer: 3, offset: 5, data: vec![1, 2, 3] }));
    assert_eq!(mirror.contents(3).unwrap(), vec![0, 0, 0, 0, 0, 1, 2, 3]);
    assert!(mirror.execute(&BufferCommand::CreateInit {
        buffer: 7,
        contents: vec![9, 9, 9, 9, 9, 9, 9, 9, 9, 9],
        usage,
    }));
    assert!(!mirror.execute(&BufferCommand::Copy { source: 7, destination: 3, size: 9 }));
    assert!(mirror.execute(&BufferCommand::Copy { source: 3, destination: 7, size: 7 }));
    assert_eq!(mirror.contents(7).unwrap(), vec![0, 0, 0, 0, 0, 1, 2, 9, 9, 9]);
    assert!(mirror.contents(1).is_none());
}
