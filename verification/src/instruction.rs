//! Scene changes staged by the application and applied at the next frame.

use vstd::prelude::*;
use crate::datatypes::{Material, Mesh, Object, RendererOptions, Texture};
use crate::handle::{MaterialHandle, MeshHandle, ObjectHandle, TextureHandle};

verus! {

/// One staged change to the scene.
#[allow(inconsistent_fields)]
pub enum Instruction {
    AddMesh { handle: MeshHandle, mesh: Mesh },
    RemoveMesh { handle: MeshHandle },
    AddTexture { handle: TextureHandle, texture: Texture },
    RemoveTexture { handle: TextureHandle },
    AddMaterial { handle: MaterialHandle, material: Material },
    RemoveMaterial { handle: MaterialHandle },
    AddObject { handle: ObjectHandle, object: Object },
    SetObjectTransform { handle: ObjectHandle, transform: glam::Mat4 },
    RemoveObject { handle: ObjectHandle },
    SetOptions { options: RendererOptions },
}

/// Two instruction lists: the application appends to `producer`, the render
/// loop reads `consumer`, and `swap` exchanges them at the frame boundary.
pub struct InstructionStreamPair {
    pub producer: Vec<Instruction>,
    pub consumer: Vec<Instruction>,
}

/// The two lists of an [`InstructionStreamPair`] as sequences.
pub struct StreamPairView {
    pub producer: Seq<Instruction>,
    pub consumer: Seq<Instruction>,
}

impl View for InstructionStreamPair {
    type V = StreamPairView;

    /// The two lists as sequences.
    open spec fn view(&self) -> StreamPairView {
        StreamPairView { producer: self.producer@, consumer: self.consumer@ }
    }
}

impl StreamPairView {
    /// Both lists empty.
    pub open spec fn empty() -> StreamPairView {
        StreamPairView { producer: Seq::empty(), consumer: Seq::empty() }
    }

    /// `instruction` goes to the end of the producer list.
    pub open spec fn append(self, instruction: Instruction) -> StreamPairView {
        StreamPairView { producer: self.producer.push(instruction), consumer: self.consumer }
    }

    /// The two lists change places.
    pub open spec fn swap(self) -> StreamPairView {
        StreamPairView { producer: self.consumer, consumer: self.producer }
    }

    /// The consumer list is taken away.
    pub open spec fn drain(self) -> StreamPairView {
        StreamPairView { producer: self.producer, consumer: Seq::empty() }
    }
}

impl InstructionStreamPair {
    /// A pair of empty lists.
    pub fn new() -> (pair: Self)
        ensures
            pair@ == StreamPairView::empty(),
    {
        InstructionStreamPair { producer: Vec::new(), consumer: Vec::new() }
    }

    /// Exchanges the two lists.
    pub fn swap(&mut self)
        ensures
            final(self)@ == old(self)@.swap(),
    {
        std::mem::swap(&mut self.producer, &mut self.consumer);
    }

    /// Stages `instruction` behind everything staged so far.
    pub fn append(&mut self, instruction: Instruction)
        ensures
            final(self)@ == old(self)@.append(instruction),
    {
        self.producer.push(instruction);
    }

    /// Takes the consumer list, leaving it empty.
    pub fn drain(&mut self) -> (batch: Vec<Instruction>)
        ensures
            batch@ == old(self)@.consumer,
            final(self)@ == old(self)@.drain(),
    {
        let mut batch: Vec<Instruction> = Vec::new();
        std::mem::swap(&mut self.consumer, &mut batch);
        batch
    }
}

/// One use of an instruction stream pair.
pub enum StreamOp {
    Append(Instruction),
    Swap,
    Drain,
}

/// The pair after `ops`, starting from two empty lists.
pub open spec fn pair_after(ops: Seq<StreamOp>) -> StreamPairView
    decreases ops.len(),
{
    if ops.len() == 0 {
        StreamPairView::empty()
    } else {
        let before = pair_after(ops.drop_last());
        match ops.last() {
            StreamOp::Append(instruction) => before.append(instruction),
            StreamOp::Swap => before.swap(),
            StreamOp::Drain => before.drain(),
        }
    }
}

/// The batches that the drains among `ops` returned, oldest first.
pub open spec fn batches_of(ops: Seq<StreamOp>) -> Seq<Seq<Instruction>>
    decreases ops.len(),
{
    if ops.len() == 0 {
        Seq::empty()
    } else {
        let before = batches_of(ops.drop_last());
        match ops.last() {
            StreamOp::Drain => before.push(pair_after(ops.drop_last()).consumer),
            _ => before,
        }
    }
}

/// The instructions that `ops` appended, oldest first.
pub open spec fn appended_by(ops: Seq<StreamOp>) -> Seq<Instruction>
    decreases ops.len(),
{
    if ops.len() == 0 {
        Seq::empty()
    } else {
        let before = appended_by(ops.drop_last());
        match ops.last() {
            StreamOp::Append(instruction) => before.push(instruction),
            _ => before,
        }
    }
}

/// The batches laid end to end.
pub open spec fn concat_all(batches: Seq<Seq<Instruction>>) -> Seq<Instruction>
    decreases batches.len(),
{
    if batches.len() == 0 {
        Seq::empty()
    } else {
        concat_all(batches.drop_last()) + batches.last()
    }
}

/// Every swap among `ops` finds the consumer list drained.
pub open spec fn drained_before_each_swap(ops: Seq<StreamOp>) -> bool {
    forall|k: int|
        0 <= k < ops.len() && (#[trigger] ops[k]) is Swap ==> pair_after(ops.take(k)).consumer.len()
            == 0
}

/// Nothing is lost, doubled or reordered: if the consumer list is drained
/// before each swap, then however appends, swaps and drains interleave, the
/// drained batches in order, followed by what waits in the consumer list and
/// then in the producer list, are exactly the appended instructions in the
/// order in which they were appended.
pub proof fn lemma_stream_lossless(ops: Seq<StreamOp>)
    requires
        drained_before_each_swap(ops),
    ensures
        concat_all(batches_of(ops)) + pair_after(ops).consumer + pair_after(ops).producer
            == appended_by(ops),
    decreases ops.len(),
{
    if ops.len() > 0 {
        let rest = ops.drop_last();
        assert forall|k: int| 0 <= k < rest.len() && (#[trigger] rest[k]) is Swap implies pair_after(
            rest.take(k),
        ).consumer.len() == 0 by {
            assert(ops[k] is Swap);
            assert(rest.take(k) =~= ops.take(k));
        }
        lemma_stream_lossless(rest);
        let before = pair_after(rest);
        let drained = concat_all(batches_of(rest));
        match ops.last() {
            StreamOp::Append(instruction) => {
                assert(drained + before.consumer + before.producer.push(instruction) =~= (drained
                    + before.consumer + before.producer).push(instruction));
            },
            StreamOp::Swap => {
                assert(ops[ops.len() - 1] is Swap);
                assert(ops.take(ops.len() - 1) =~= rest);
                assert(before.consumer =~= Seq::<Instruction>::empty());
                assert(drained + before.producer + before.consumer =~= drained + before.consumer
                    + before.producer);
            },
            StreamOp::Drain => {
                assert(batches_of(ops).drop_last() =~= batches_of(rest));
                assert(drained + before.consumer + Seq::<Instruction>::empty() + before.producer
                    =~= drained + before.consumer + before.producer);
            },
        }
    }
}

/// One step of a renderer as its instruction streams see it.
pub enum RendererOp {
    /// The application stages an instruction.
    Stage(Instruction),
    /// The render loop starts a frame: it swaps the lists and drains the
    /// consumer list.
    Frame,
}

/// The uses of the stream pair that the steps of a renderer amount to.
pub open spec fn stream_ops(ops: Seq<RendererOp>) -> Seq<StreamOp>
    decreases ops.len(),
{
    if ops.len() == 0 {
        Seq::empty()
    } else {
        let before = stream_ops(ops.drop_last());
        match ops.last() {
            RendererOp::Stage(instruction) => before.push(StreamOp::Append(instruction)),
            RendererOp::Frame => before.push(StreamOp::Swap).push(StreamOp::Drain),
        }
    }
}

/// A renderer loses nothing: however staging and frames interleave, every
/// swap finds the consumer list drained, so the batches of the frames, laid
/// end to end and followed by what is still staged, are exactly the staged
/// instructions in the order of staging, and between frames the consumer
/// list is empty.
pub proof fn lemma_renderer_lossless(ops: Seq<RendererOp>)
    ensures
        drained_before_each_swap(stream_ops(ops)),
        pair_after(stream_ops(ops)).consumer == Seq::<Instruction>::empty(),
        concat_all(batches_of(stream_ops(ops))) + pair_after(stream_ops(ops)).producer
            == appended_by(stream_ops(ops)),
    decreases ops.len(),
{
    let all = stream_ops(ops);
    if ops.len() > 0 {
        let rest = stream_ops(ops.drop_last());
        lemma_renderer_lossless(ops.drop_last());
        match ops.last() {
            RendererOp::Stage(instruction) => {
                assert(all.drop_last() =~= rest);
                assert forall|k: int| 0 <= k < all.len() && (#[trigger] all[k]) is Swap implies pair_after(
                    all.take(k),
                ).consumer.len() == 0 by {
                    assert(rest[k] is Swap);
                    assert(all.take(k) =~= rest.take(k));
                }
            },
            RendererOp::Frame => {
                let swapped = rest.push(StreamOp::Swap);
                assert(all.drop_last() =~= swapped);
                assert(swapped.drop_last() =~= rest);
                assert forall|k: int| 0 <= k < all.len() && (#[trigger] all[k]) is Swap implies pair_after(
                    all.take(k),
                ).consumer.len() == 0 by {
                    if k < rest.len() {
                        assert(rest[k] is Swap);
                        assert(all.take(k) =~= rest.take(k));
                    } else {
                        assert(k == rest.len());
                        assert(all.take(k) =~= rest);
                    }
                }
            },
        }
    } else {
        assert(all.len() == 0);
    }
    lemma_stream_lossless(all);
    assert(concat_all(batches_of(all)) + Seq::<Instruction>::empty() + pair_after(all).producer
        =~= concat_all(batches_of(all)) + pair_after(all).producer);
}

} // verus!
