use rend3::datatypes::{RendererOptions, VSyncMode};
use rend3::handle::{MeshHandle, ObjectHandle, RawHandle};
use rend3::instruction::{Instruction, InstructionStreamPair};

fn remove_mesh(idx: usize) -> Instruction {
    Instruction::RemoveMesh { handle: MeshHandle { raw: RawHandle { idx, generation: 0 } } }
}

fn mesh_index(instruction: &Instruction) -> usize {
    match instruction {
        Instruction::RemoveMesh { handle } => handle.raw.idx,
        _ => panic!("not a mesh removal"),
    }
}

fn indices(batch: &[Instruction]) -> Vec<usize> {
    batch.iter().map(mesh_index).collect()
}

#[test]
fn new_pair_is_empty() {
    let pair = InstructionStreamPair::new();
    assert!(pair.producer.is_empty());
    assert!(pair.consumer.is_empty());
}

#[test]
fn append_goes_to_the_end_of_the_producer_list() {
    let mut pair = InstructionStreamPair::new();
    pair.append(remove_mesh(1));
    pair.append(remove_mesh(2));
    assert_eq!(indices(&pair.producer), vec![1, 2]);
    assert!(pair.consumer.is_empty());
}

#[test]
fn swap_exchanges_the_lists() {
    let mut pair = InstructionStreamPair::new();
    pair.append(remove_mesh(1));
    pair.swap();
    assert!(pair.producer.is_empty());
    assert_eq!(indices(&pair.consumer), vec![1]);
    pair.append(remove_mesh(2));
    pair.swap();
    assert_eq!(indices(&pair.producer), vec![1]);
    assert_eq!(indices(&pair.consumer), vec![2]);
}

#[test]
fn drain_takes_the_consumer_list() {
    let mut pair = InstructionStreamPair::new();
    pair.append(remove_mesh(1));
    pair.append(remove_mesh(2));
    pair.swap();
    pair.append(remove_mesh(3));
    let batch = pair.drain();
    assert_eq!(indices(&batch), vec![1, 2]);
    assert!(pair.consumer.is_empty());
    assert_eq!(indices(&pair.producer), vec![3]);
    assert!(pair.drain().is_empty());
}

#[test]
fn every_append_reaches_exactly_one_batch_in_order() {
    let mut pair = InstructionStreamPair::new();
    let mut drained: Vec<usize> = Vec::new();
    let mut next = 0usize;
    for frame in 0..10usize {
        for _ in 0..(frame % 4) {
            pair.append(remove_mesh(next));
            next += 1;
        }
        pair.swap();
        pair.append(remove_mesh(next));
        next += 1;
        drained.extend(indices(&pair.drain()));
    }
    pair.swap();
    drained.extend(indices(&pair.drain()));
    assert_eq!(drained, (0..next).collect::<Vec<usize>>());
}

#[test]
fn instructions_carry_their_payload() {
    let mut pair = InstructionStreamPair::new();
    let options = RendererOptions { vsync: VSyncMode::Off, width: 640, height: 480 };
    pair.append(Instruction::SetOptions { options });
    pair.append(Instruction::RemoveObject {
        handle: ObjectHandle { raw: RawHandle { idx: 3, generation: 2 } },
    });
    pair.swap();
    let batch = pair.drain();
    assert_eq!(batch.len(), 2);
    assert!(matches!(batch[0], Instruction::SetOptions { options: o } if o == options));
    assert!(matches!(
        batch[1],
        Instruction::RemoveObject { handle } if handle.raw == RawHandle { idx: 3, generation: 2 }
    ));
}
