use crate::gpu::{accepted, apply, overwrite, BufferCommand, Memory};
use std::collections::HashMap;
use vstd::prelude::*;

verus! {

broadcast use vstd::std_specs::hash::group_hash_axioms;

/// A copy of the device's storage buffers in main memory. It carries out buffer commands as
/// the device does, so that what the device holds can be read back.
pub struct Mirror {
    buffers: HashMap<usize, Vec<u8>>,
}

impl View for Mirror {
    type V = Memory;

    closed spec fn view(&self) -> Memory {
        Map::new(
            |handle: usize| self.buffers@.dom().contains(handle),
            |handle: usize| self.buffers@[handle]@,
        )
    }
}

fn zeros(size: u64) -> (bytes: Vec<u8>)
    ensures
        bytes@ == Seq::new(size as nat, |i: int| 0u8),
{
    let mut bytes: Vec<u8> = Vec::new();
    let mut i: u64 = 0;
    while i < size
        invariant
            i <= size,
            bytes@ == Seq::new(i as nat, |k: int| 0u8),
        decreases size - i,
    {
        bytes.push(0);
        proof {
            assert(bytes@ =~= Seq::new((i + 1) as nat, |k: int| 0u8));
        }
        i = i + 1;
    }
    bytes
}

fn overwritten(base: Vec<u8>, offset: usize, data: &Vec<u8>) -> (bytes: Vec<u8>)
    requires
        offset + data@.len() <= base@.len(),
    ensures
        bytes@ == overwrite(base@, offset as int, data@),
{
    let total: usize = base.len();
    let mut bytes = base;
    let mut i: usize = 0;
    while i < data.len()
        invariant
            i <= data@.len(),
            total == base@.len(),
            offset + data@.len() <= base@.len(),
            bytes@.len() == base@.len(),
            forall|k: int|
                0 <= k < bytes@.len() ==> bytes@[k] == if offset <= k < offset + i {
                    data@[k - offset]
                } else {
                    base@[k]
                },
        decreases data@.len() - i,
    {
        bytes[offset + i] = data[i];
        i = i + 1;
    }
    proof {
        assert(bytes@ =~= overwrite(base@, offset as int, data@));
    }
    bytes
}

impl Mirror {
    /// A mirror of a device without buffers.
    pub fn new() -> (mirror: Mirror)
        ensures
            mirror@ == Map::<usize, Seq<u8>>::empty(),
    {
        let mirror = Mirror { buffers: HashMap::new() };
        proof {
            assert(mirror@ =~= Map::<usize, Seq<u8>>::empty());
        }
        mirror
    }

    /// Carries out `command` as the device does, and says whether the device accepts it. A
    /// command that the device does not accept changes nothing.
    pub fn execute(&mut self, command: &BufferCommand) -> (done: bool)
        ensures
            done == accepted(old(self)@, command@),
            final(self)@ == apply(old(self)@, command@),
    {
        let ghost before = self@;
        match command {
            BufferCommand::Create { buffer, size, usage } => {
                if self.buffers.contains_key(buffer) {
                    return false;
                }
                self.buffers.insert(*buffer, zeros(*size));
                proof {
                    assert(self@ =~= apply(before, command@));
                }
                true
            },
            BufferCommand::CreateInit { buffer, contents, usage } => {
                if self.buffers.contains_key(buffer) {
                    return false;
                }
                self.buffers.insert(*buffer, contents.clone());
                proof {
                    assert(self@ =~= apply(before, command@));
                }
                true
            },
            BufferCommand::Copy { source, destination, size } => {
                if *source == *destination || !self.buffers.contains_key(source)
                    || !self.buffers.contains_key(destination) {
                    return false;
                }
                let from = self.buffers.get(source).unwrap();
                let into = self.buffers.get(destination).unwrap();
                if *size > from.len() as u64 || *size > into.len() as u64 {
                    return false;
                }
                let mut copied: Vec<u8> = Vec::new();
                let mut i: usize = 0;
                let count: usize = *size as usize;
                while i < count
                    invariant
                        i <= count,
                        count <= from@.len(),
                        copied@ == from@.subrange(0, i as int),
                    decreases count - i,
                {
                    copied.push(from[i]);
                    proof {
                        assert(copied@ =~= from@.subrange(0, i + 1));
                    }
                    i = i + 1;
                }
                let base = self.buffers.remove(destination).unwrap();
                self.buffers.insert(*destination, overwritten(base, 0, &copied));
                proof {
                    assert(self@ =~= apply(before, command@));
                }
                true
            },
            BufferCommand::Write { buffer, offset, data } => {
                if !self.buffers.contains_key(buffer) {
                    return false;
                }
                let into = self.buffers.get(buffer).unwrap();
                if *offset > into.len() as u64 || data.len() > into.len() - (*offset as usize) {
                    return false;
                }
                let base = self.buffers.remove(buffer).unwrap();
                self.buffers.insert(*buffer, overwritten(base, *offset as usize, data));
                proof {
                    assert(self@ =~= apply(before, command@));
                }
                true
            },
        }
    }

    /// The bytes that the buffer `buffer` holds, if there is such a buffer.
    pub fn contents(&self, buffer: usize) -> (bytes: Option<Vec<u8>>)
        ensures
            match bytes {
                Some(held) => self@.dom().contains(buffer) && held@ == self@[buffer],
                None => !self@.dom().contains(buffer),
            },
    {
        match self.buffers.get(&buffer) {
            Some(held) => Some(held.clone()),
            None => None,
        }
    }
}

} // verus!
