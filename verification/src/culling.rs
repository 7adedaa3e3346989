//! The culling pass: one compute invocation per object decides whether the
//! object is drawn and, if so, writes its indirect draw command. This module
//! holds everything of the pass that is arithmetic and bookkeeping: buffer
//! sizes, the dispatch grid, the commands recorded into the compute pass and
//! a reference form of the compaction that the shader performs.

use vstd::prelude::*;
use vstd::arithmetic::div_mod::{lemma_fundamental_div_mod, lemma_fundamental_div_mod_converse};
use vstd::string::*;
use crate::limits::DeviceLimits;
use crate::resources::object::InternalObject;

verus! {

/// Bytes that the pass writes per object into the output buffer.
pub const SIZE_OF_OUTPUT_DATA: u64 = 7 * 16;

/// Bytes of one indirect draw command.
pub const SIZE_OF_INDIRECT_CALL: u64 = 5 * 4;

/// Bytes of the counter of visible objects.
pub const SIZE_OF_INDIRECT_COUNT: u64 = 4;

/// The number of groups of `subgroup_size` invocations that cover
/// `object_count` objects: the quotient, rounded up.
pub open spec fn dispatch_groups(object_count: int, subgroup_size: int) -> int {
    (object_count + subgroup_size - 1) / subgroup_size
}

/// The object that invocation `lane` of group `group` tests.
pub open spec fn invocation_object(group: int, lane: int, subgroup_size: int) -> int {
    group * subgroup_size + lane
}

/// The number of objects that were tested before invocation `lane` of group
/// `group` runs, when the invocations run one after the other: each earlier
/// invocation tested its object if there is such an object.
pub open spec fn tested_before(group: int, lane: int, subgroup_size: int, object_count: int)
    -> int {
    if invocation_object(group, lane, subgroup_size) < object_count {
        invocation_object(group, lane, subgroup_size)
    } else {
        object_count
    }
}

/// The dispatch is a ceiling, not a truncation: the groups hold at least as
/// many invocations as there are objects, one group fewer would not, and an
/// empty scene dispatches nothing.
pub proof fn lemma_dispatch_is_ceiling(object_count: int, subgroup_size: int)
    requires
        0 <= object_count,
        0 < subgroup_size,
    ensures
        0 <= dispatch_groups(object_count, subgroup_size),
        dispatch_groups(object_count, subgroup_size) * subgroup_size >= object_count,
        (dispatch_groups(object_count, subgroup_size) - 1) * subgroup_size < object_count,
        object_count == 0 <==> dispatch_groups(object_count, subgroup_size) == 0,
{
    let top = object_count + subgroup_size - 1;
    let groups = top / subgroup_size;
    lemma_fundamental_div_mod(top, subgroup_size);
    assert(top == subgroup_size * groups + top % subgroup_size);
    assert(0 <= top % subgroup_size < subgroup_size);
    assert(subgroup_size * groups == groups * subgroup_size) by (nonlinear_arith);
    assert((groups - 1) * subgroup_size == groups * subgroup_size - subgroup_size)
        by (nonlinear_arith);
    if groups < 0 {
        assert(groups * subgroup_size <= -subgroup_size) by (nonlinear_arith)
            requires
                groups <= -1,
                subgroup_size > 0,
        ;
    }
    if groups == 0 {
        assert(groups * subgroup_size == 0) by (nonlinear_arith)
            requires
                groups == 0,
        ;
    }
    if object_count == 0 && groups > 0 {
        assert(groups * subgroup_size >= subgroup_size) by (nonlinear_arith)
            requires
                groups >= 1,
                subgroup_size > 0,
        ;
    }
}

/// Every object is tested exactly once: object `object` is tested by lane
/// `object % subgroup_size` of group `object / subgroup_size`, that group is
/// dispatched, and no other invocation tests the same object.
pub proof fn lemma_each_object_tested_once(object_count: int, subgroup_size: int, object: int)
    requires
        0 <= object < object_count,
        0 < subgroup_size,
    ensures
        0 <= object / subgroup_size < dispatch_groups(object_count, subgroup_size),
        0 <= object % subgroup_size < subgroup_size,
        invocation_object(object / subgroup_size, object % subgroup_size, subgroup_size)
            == object,
        forall|group: int, lane: int|
            0 <= lane < subgroup_size && #[trigger] invocation_object(group, lane, subgroup_size)
                == object ==> group == object / subgroup_size && lane == object % subgroup_size,
{
    let group = object / subgroup_size;
    let lane = object % subgroup_size;
    lemma_fundamental_div_mod(object, subgroup_size);
    assert(subgroup_size * group == group * subgroup_size) by (nonlinear_arith);
    lemma_dispatch_is_ceiling(object_count, subgroup_size);
    let groups = dispatch_groups(object_count, subgroup_size);
    if group >= groups {
        assert(group * subgroup_size >= groups * subgroup_size) by (nonlinear_arith)
            requires
                group >= groups,
                subgroup_size > 0,
        ;
    }
    if group < 0 {
        assert(group * subgroup_size <= -subgroup_size) by (nonlinear_arith)
            requires
                group <= -1,
                subgroup_size > 0,
        ;
    }
    assert forall|g: int, l: int|
        0 <= l < subgroup_size && #[trigger] invocation_object(g, l, subgroup_size)
            == object implies g == group && l == lane by {
        lemma_fundamental_div_mod_converse(object, subgroup_size, g, l);
    }
}

/// The number of groups to dispatch for `object_count` objects.
pub fn dispatch_group_count(object_count: u32, subgroup_size: u32) -> (groups: u32)
    requires
        subgroup_size > 0,
    ensures
        groups == dispatch_groups(object_count as int, subgroup_size as int),
{
    let full = object_count / subgroup_size;
    let rest = object_count % subgroup_size;
    proof {
        let n = object_count as int;
        let s = subgroup_size as int;
        lemma_fundamental_div_mod(n, s);
        assert(s * (full as int) == (full as int) * s) by (nonlinear_arith);
        if rest == 0 {
            lemma_fundamental_div_mod_converse(n + s - 1, s, full as int, s - 1);
        } else {
            assert((full as int + 1) * s == (full as int) * s + s) by (nonlinear_arith);
            lemma_fundamental_div_mod_converse(n + s - 1, s, full as int + 1, rest as int - 1);
            lemma_dispatch_is_ceiling(n, s);
            assert(full as int + 1 <= n) by (nonlinear_arith)
                requires
                    (full as int) * s + rest == n,
                    s >= 1,
                    rest >= 1,
                    full >= 0,
            ;
        }
    }
    if rest == 0 {
        full
    } else {
        full + 1
    }
}

/// One decimal digit as text.
pub open spec fn digit(d: int) -> Seq<char> {
    if d == 0 {
        "0"@
    } else if d == 1 {
        "1"@
    } else if d == 2 {
        "2"@
    } else if d == 3 {
        "3"@
    } else if d == 4 {
        "4"@
    } else if d == 5 {
        "5"@
    } else if d == 6 {
        "6"@
    } else if d == 7 {
        "7"@
    } else if d == 8 {
        "8"@
    } else {
        "9"@
    }
}

/// A number in decimal, without leading zeros.
pub open spec fn decimal(n: nat) -> Seq<char>
    decreases n,
{
    if n < 10 {
        digit(n as int)
    } else {
        decimal(n / 10) + digit((n % 10) as int)
    }
}

fn digit_text(d: u32) -> (text: &'static str)
    requires
        d < 10,
    ensures
        text@ == digit(d as int),
{
    match d {
        0 => "0",
        1 => "1",
        2 => "2",
        3 => "3",
        4 => "4",
        5 => "5",
        6 => "6",
        7 => "7",
        8 => "8",
        _ => "9",
    }
}

/// Writes `n` in decimal.
pub fn decimal_text(n: u32) -> (text: String)
    ensures
        text@ == decimal(n as nat),
    decreases n,
{
    if n < 10 {
        String::from_str(digit_text(n))
    } else {
        let mut text = decimal_text(n / 10);
        text.append(digit_text(n % 10));
        text
    }
}

/// The kind of program a shader source is compiled to.
#[derive(Clone, Copy, Debug, PartialEq, Eq, Structural)]
pub enum ShaderKind {
    Vertex,
    Fragment,
    Compute,
}

/// A name that the shader compiler defines, with its value if it has one.
pub struct ShaderDefine {
    pub name: String,
    pub value: Option<String>,
}

/// What the shader compiler is asked for.
pub struct ShaderArguments {
    pub file: String,
    pub defines: Vec<ShaderDefine>,
    pub kind: ShaderKind,
    pub debug: bool,
}

/// `args` asks for the culling shader, compiled for subgroups of
/// `subgroup_size` invocations.
pub open spec fn is_culling_shader(args: ShaderArguments, subgroup_size: u32) -> bool {
    &&& args.file@ == "rend3/shaders/cull.comp"@
    &&& args.defines@.len() == 1
    &&& args.defines@[0].name@ == "WARP_SIZE"@
    &&& args.defines@[0].value matches Some(value) && value@ == decimal(subgroup_size as nat)
    &&& args.kind == ShaderKind::Compute
    &&& args.debug
}

/// How the compute pipeline of the pass and its layout are made.
pub struct PipelinePlan {
    pub layout_label: String,
    /// The bind groups of the layout, by position.
    pub bind_groups: Vec<BindGroupSource>,
    /// The bytes of push constants that the compute stage reads.
    pub push_constants: IndexRangeU32,
    pub label: String,
    pub entry_point: String,
}

/// A half-open range of 32-bit offsets.
#[derive(Clone, Copy, Debug, PartialEq, Eq, Structural)]
pub struct IndexRangeU32 {
    pub start: u32,
    pub end: u32,
}

/// `plan` is the plan of the culling pipeline.
pub open spec fn is_culling_pipeline(plan: PipelinePlan) -> bool {
    &&& plan.layout_label@ == "culling pipeline layout"@
    &&& plan.bind_groups@ == seq![
        BindGroupSource::Input,
        BindGroupSource::Output,
        BindGroupSource::Uniform,
    ]
    &&& plan.push_constants == (IndexRangeU32 { start: 0, end: 4 })
    &&& plan.label@ == "culling pipeline"@
    &&& plan.entry_point@ == "main"@
}

/// What a buffer is used for.
#[derive(Clone, Copy, Debug, PartialEq, Eq, Structural)]
pub struct BufferUsage {
    pub storage: bool,
    pub indirect: bool,
}

/// How a buffer is to be created.
pub struct BufferPlan {
    pub label: String,
    pub size: u64,
    pub usage: BufferUsage,
    pub mapped_at_creation: bool,
}

/// A [`BufferPlan`] with its label as a sequence of characters.
pub struct BufferPlanView {
    pub label: Seq<char>,
    pub size: u64,
    pub usage: BufferUsage,
    pub mapped_at_creation: bool,
}

impl View for BufferPlan {
    type V = BufferPlanView;

    /// The plan with its label as characters.
    open spec fn view(&self) -> BufferPlanView {
        BufferPlanView {
            label: self.label@,
            size: self.size,
            usage: self.usage,
            mapped_at_creation: self.mapped_at_creation,
        }
    }
}

/// Why the culling pass cannot be set up or run.
#[derive(Clone, Copy, Debug, PartialEq, Eq, Structural)]
pub enum CullingError {
    /// A subgroup of no invocations covers no object.
    ZeroSubgroupSize,
    /// A buffer of `requested` bytes is more than the device's `limit`.
    BufferTooLarge { requested: u64, limit: u64 },
    /// More objects than a 32-bit count holds.
    TooManyObjects,
}

/// The buffers of one frame's culling, sized to its number of objects.
pub struct CullingPassData {
    pub name: String,
    pub object_count: u32,
    /// Bound at position 0: what the shader writes per visible object.
    pub output_buffer: BufferPlan,
    /// Bound at position 1: the indirect draw commands.
    pub indirect_buffer: BufferPlan,
    /// Bound at position 2: the counter of visible objects.
    pub count_buffer: BufferPlan,
    /// What the counter holds before the dispatch.
    pub count_contents: Vec<u8>,
    pub bind_group_label: String,
}

/// A [`CullingPassData`] with its texts and bytes as sequences.
pub struct CullingPassDataView {
    pub name: Seq<char>,
    pub object_count: u32,
    pub output_buffer: BufferPlanView,
    pub indirect_buffer: BufferPlanView,
    pub count_buffer: BufferPlanView,
    pub count_contents: Seq<u8>,
    pub bind_group_label: Seq<char>,
}

impl View for CullingPassData {
    type V = CullingPassDataView;

    /// The data with its texts as characters and its bytes as a sequence.
    open spec fn view(&self) -> CullingPassDataView {
        CullingPassDataView {
            name: self.name@,
            object_count: self.object_count,
            output_buffer: self.output_buffer@,
            indirect_buffer: self.indirect_buffer@,
            count_buffer: self.count_buffer@,
            count_contents: self.count_contents@,
            bind_group_label: self.bind_group_label@,
        }
    }
}

/// The error of `prepare`, if any: each of the three buffers has to fit the
/// device's limit; the first that does not is reported.
pub open spec fn prepare_error(limits: DeviceLimits, object_count: u32) -> Option<CullingError> {
    let limit = limits.spec_storage_limit();
    if SIZE_OF_OUTPUT_DATA * object_count > limit {
        Some(
            CullingError::BufferTooLarge {
                requested: (SIZE_OF_OUTPUT_DATA * object_count) as u64,
                limit,
            },
        )
    } else if SIZE_OF_INDIRECT_CALL * object_count > limit {
        Some(
            CullingError::BufferTooLarge {
                requested: (SIZE_OF_INDIRECT_CALL * object_count) as u64,
                limit,
            },
        )
    } else if SIZE_OF_INDIRECT_COUNT > limit {
        Some(CullingError::BufferTooLarge { requested: SIZE_OF_INDIRECT_COUNT, limit })
    } else {
        None
    }
}

/// What `prepare` returns for `object_count` objects under the name `name`.
pub open spec fn prepared(name: Seq<char>, object_count: u32) -> CullingPassDataView {
    CullingPassDataView {
        name,
        object_count,
        output_buffer: BufferPlanView {
            label: "object output buffer for "@ + name,
            size: (SIZE_OF_OUTPUT_DATA * object_count) as u64,
            usage: BufferUsage { storage: true, indirect: false },
            mapped_at_creation: false,
        },
        indirect_buffer: BufferPlanView {
            label: "indirect buffer for "@ + name,
            size: (SIZE_OF_INDIRECT_CALL * object_count) as u64,
            usage: BufferUsage { storage: true, indirect: true },
            mapped_at_creation: false,
        },
        count_buffer: BufferPlanView {
            label: "count buffer for "@ + name,
            size: SIZE_OF_INDIRECT_COUNT,
            usage: BufferUsage { storage: true, indirect: true },
            mapped_at_creation: true,
        },
        count_contents: seq![0u8, 0u8, 0u8, 0u8],
        bind_group_label: "output bind group for "@ + name,
    }
}

/// The bytes of `value`, least significant first.
pub open spec fn le_bytes(value: u32) -> Seq<u8> {
    seq![
        (value % 256) as u8,
        (value / 256 % 256) as u8,
        (value / 65536 % 256) as u8,
        (value / 16777216) as u8,
    ]
}

/// The bytes of `value`, most significant first.
pub open spec fn be_bytes(value: u32) -> Seq<u8> {
    seq![
        (value / 16777216) as u8,
        (value / 65536 % 256) as u8,
        (value / 256 % 256) as u8,
        (value % 256) as u8,
    ]
}

/// `bytemuck::bytes_of` on a 32-bit number: the four bytes of the number as
/// they lie in memory. Which end comes first depends on the machine, so the
/// contract allows both orders and nothing else.
#[verifier::external_body]
fn bytes_of_u32(value: u32) -> (bytes: Vec<u8>)
    ensures
        bytes@ == le_bytes(value) || bytes@ == be_bytes(value),
{
    bytemuck::bytes_of(&value).to_vec()
}

/// Which bind group a position of the pipeline layout takes.
#[derive(Clone, Copy, Debug, PartialEq, Eq, Structural)]
pub enum BindGroupSource {
    /// The objects of the frame.
    Input,
    /// The buffers that `prepare` planned.
    Output,
    /// The camera and frustum of the frame.
    Uniform,
}

/// One command recorded into the compute pass.
#[derive(Clone, Copy, Debug, PartialEq, Eq, Structural)]
pub enum PassCommand {
    SetPipeline,
    SetPushConstants { offset: u32, value: u32 },
    SetBindGroup { index: u32, source: BindGroupSource },
    Dispatch { x: u32, y: u32, z: u32 },
}

/// The commands of one run of the pass, in order.
pub open spec fn run_commands(object_count: u32, subgroup_size: u32) -> Seq<PassCommand> {
    seq![
        PassCommand::SetPipeline,
        PassCommand::SetPushConstants { offset: 0, value: object_count },
        PassCommand::SetBindGroup { index: 0, source: BindGroupSource::Input },
        PassCommand::SetBindGroup { index: 1, source: BindGroupSource::Output },
        PassCommand::SetBindGroup { index: 2, source: BindGroupSource::Uniform },
        PassCommand::Dispatch {
            x: dispatch_groups(object_count as int, subgroup_size as int) as u32,
            y: 1,
            z: 1,
        },
    ]
}

/// The draw that consumes what the pass wrote: the device reads up to
/// `max_count` commands from the indirect buffer, as many as the counter
/// says, so that the processor never learns how many objects are visible.
#[derive(Clone, Copy, Debug, PartialEq, Eq, Structural)]
pub struct IndirectDraw {
    /// Where in the indirect buffer the first command lies.
    pub indirect_offset: u64,
    /// Where in the count buffer the counter lies.
    pub count_offset: u64,
    /// The most commands that the pass can have written.
    pub max_count: u32,
}

/// A draw call that the device reads from a buffer. The five fields lie in
/// this order, four bytes each.
#[derive(Clone, Copy, Debug, PartialEq, Eq, Structural)]
pub struct IndirectDrawCommand {
    pub index_count: u32,
    pub instance_count: u32,
    pub first_index: u32,
    pub base_vertex: i32,
    pub first_instance: u32,
}

/// What culling leaves behind: the commands of the visible objects, packed
/// without gaps, the value of the counter of visible objects, and the number
/// of objects that were culled.
pub struct CullingOutput {
    pub commands: Vec<IndirectDrawCommand>,
    pub count: u32,
    pub culled: u32,
}

/// The command that draws `object` once, written to position `slot` of the
/// indirect buffer. The first instance is the slot, by which the draw finds
/// what the pass wrote for the object.
pub open spec fn draw_command(object: InternalObject, slot: int) -> IndirectDrawCommand {
    IndirectDrawCommand {
        index_count: object.count,
        instance_count: 1,
        first_index: object.start_idx,
        base_vertex: object.vertex_offset,
        first_instance: slot as u32,
    }
}

/// Whether object `i` is visible. An object without a decision is not.
pub open spec fn passes(decisions: Seq<bool>, i: int) -> bool {
    0 <= i < decisions.len() && decisions[i]
}

/// The commands of the visible ones among `objects`, in the order of the
/// objects.
pub open spec fn visible_commands(objects: Seq<InternalObject>, decisions: Seq<bool>) -> Seq<
    IndirectDrawCommand,
>
    decreases objects.len(),
{
    if objects.len() == 0 {
        Seq::empty()
    } else {
        let rest = visible_commands(objects.drop_last(), decisions);
        if passes(decisions, objects.len() - 1) {
            rest.push(draw_command(objects.last(), rest.len() as int))
        } else {
            rest
        }
    }
}

/// How many of the first `n` objects are not visible.
pub open spec fn culled_count(n: nat, decisions: Seq<bool>) -> nat
    decreases n,
{
    if n == 0 {
        0
    } else if passes(decisions, n - 1) {
        culled_count((n - 1) as nat, decisions)
    } else {
        culled_count((n - 1) as nat, decisions) + 1
    }
}

/// Culling decides on every object exactly once: the objects that pass and
/// the objects that fail add up to all of them.
pub proof fn lemma_culling_complete(objects: Seq<InternalObject>, decisions: Seq<bool>)
    ensures
        visible_commands(objects, decisions).len() + culled_count(objects.len(), decisions)
            == objects.len(),
    decreases objects.len(),
{
    if objects.len() > 0 {
        lemma_culling_complete(objects.drop_last(), decisions);
    }
}

/// The number of objects as the pass counts them, in 32 bits. A scene with
/// more objects than that is reported rather than cut short.
pub fn object_count(objects: usize) -> (r: Result<u32, CullingError>)
    ensures
        r == if objects <= u32::MAX {
            Ok::<u32, CullingError>(objects as u32)
        } else {
            Err::<u32, CullingError>(CullingError::TooManyObjects)
        },
{
    if objects > u32::MAX as usize {
        Err(CullingError::TooManyObjects)
    } else {
        Ok(objects as u32)
    }
}

/// The culling pass of a device whose subgroups have a fixed size.
pub struct CullingPass {
    subgroup_size: u32,
}

impl CullingPass {
    #[verifier::type_invariant]
    spec fn subgroup_is_not_empty(self) -> bool {
        self.subgroup_size > 0
    }

    /// The number of invocations in a subgroup.
    pub closed spec fn spec_subgroup_size(&self) -> u32 {
        self.subgroup_size
    }

    /// A pass for subgroups of `subgroup_size` invocations.
    pub fn new(subgroup_size: u32) -> (r: Result<Self, CullingError>)
        ensures
            subgroup_size == 0 ==> r is Err && r->Err_0 == CullingError::ZeroSubgroupSize,
            subgroup_size > 0 ==> r is Ok && r->Ok_0.spec_subgroup_size() == subgroup_size,
    {
        if subgroup_size == 0 {
            Err(CullingError::ZeroSubgroupSize)
        } else {
            Ok(CullingPass { subgroup_size })
        }
    }

    /// The number of invocations in a subgroup, which is not zero.
    #[verifier::when_used_as_spec(spec_subgroup_size)]
    pub fn subgroup_size(&self) -> (size: u32)
        ensures
            size == self.spec_subgroup_size(),
            size > 0,
    {
        proof {
            use_type_invariant(self);
        }
        self.subgroup_size
    }

    /// What to ask of the shader compiler for this pass.
    pub fn shader_arguments(&self) -> (args: ShaderArguments)
        ensures
            is_culling_shader(args, self.spec_subgroup_size()),
    {
        let mut defines: Vec<ShaderDefine> = Vec::new();
        defines.push(
            ShaderDefine {
                name: String::from_str("WARP_SIZE"),
                value: Some(decimal_text(self.subgroup_size)),
            },
        );
        ShaderArguments {
            file: String::from_str("rend3/shaders/cull.comp"),
            defines,
            kind: ShaderKind::Compute,
            debug: true,
        }
    }

    /// How to make the compute pipeline of this pass.
    pub fn pipeline_plan(&self) -> (plan: PipelinePlan)
        ensures
            is_culling_pipeline(plan),
    {
        let mut bind_groups: Vec<BindGroupSource> = Vec::new();
        bind_groups.push(BindGroupSource::Input);
        bind_groups.push(BindGroupSource::Output);
        bind_groups.push(BindGroupSource::Uniform);
        assert(bind_groups@ =~= seq![
            BindGroupSource::Input,
            BindGroupSource::Output,
            BindGroupSource::Uniform,
        ]);
        PipelinePlan {
            layout_label: String::from_str("culling pipeline layout"),
            bind_groups,
            push_constants: IndexRangeU32 { start: 0, end: 4 },
            label: String::from_str("culling pipeline"),
            entry_point: String::from_str("main"),
        }
    }

    /// Plans the buffers for a frame of `object_count` objects. The counter
    /// starts at zero. A buffer larger than the device allows is reported.
    pub fn prepare(&self, limits: &DeviceLimits, object_count: u32, name: String) -> (r: Result<
        CullingPassData,
        CullingError,
    >)
        ensures
            match prepare_error(*limits, object_count) {
                Some(error) => r is Err && r->Err_0 == error,
                None => r is Ok && r->Ok_0@ == prepared(name@, object_count),
            },
    {
        let limit = limits.storage_limit();
        let output_size = SIZE_OF_OUTPUT_DATA * (object_count as u64);
        if output_size > limit {
            return Err(CullingError::BufferTooLarge { requested: output_size, limit });
        }
        let indirect_size = SIZE_OF_INDIRECT_CALL * (object_count as u64);
        if SIZE_OF_INDIRECT_COUNT > limit {
            return Err(
                CullingError::BufferTooLarge { requested: SIZE_OF_INDIRECT_COUNT, limit },
            );
        }
        let output_buffer = BufferPlan {
            label: String::from_str("object output buffer for ").concat(name.as_str()),
            size: output_size,
            usage: BufferUsage { storage: true, indirect: false },
            mapped_at_creation: false,
        };
        let indirect_buffer = BufferPlan {
            label: String::from_str("indirect buffer for ").concat(name.as_str()),
            size: indirect_size,
            usage: BufferUsage { storage: true, indirect: true },
            mapped_at_creation: false,
        };
        let count_buffer = BufferPlan {
            label: String::from_str("count buffer for ").concat(name.as_str()),
            size: SIZE_OF_INDIRECT_COUNT,
            usage: BufferUsage { storage: true, indirect: true },
            mapped_at_creation: true,
        };
        let count_contents = bytes_of_u32(0);
        assert(count_contents@ =~= seq![0u8, 0u8, 0u8, 0u8]);
        let bind_group_label = String::from_str("output bind group for ").concat(name.as_str());
        Ok(
            CullingPassData {
                name,
                object_count,
                output_buffer,
                indirect_buffer,
                count_buffer,
                count_contents,
                bind_group_label,
            },
        )
    }

    /// The commands that run the pass over the buffers of `data`: one
    /// invocation per object, in groups of the subgroup's size.
    pub fn run(&self, data: &CullingPassData) -> (commands: Vec<PassCommand>)
        ensures
            commands@ == run_commands(data.object_count, self.spec_subgroup_size()),
    {
        proof {
            use_type_invariant(self);
        }
        let mut commands: Vec<PassCommand> = Vec::new();
        commands.push(PassCommand::SetPipeline);
        commands.push(PassCommand::SetPushConstants { offset: 0, value: data.object_count });
        commands.push(PassCommand::SetBindGroup { index: 0, source: BindGroupSource::Input });
        commands.push(PassCommand::SetBindGroup { index: 1, source: BindGroupSource::Output });
        commands.push(PassCommand::SetBindGroup { index: 2, source: BindGroupSource::Uniform });
        commands.push(
            PassCommand::Dispatch {
                x: dispatch_group_count(data.object_count, self.subgroup_size),
                y: 1,
                z: 1,
            },
        );
        commands
    }

    /// The indirect draw over the buffers of `data`.
    pub fn draw(&self, data: &CullingPassData) -> (draw: IndirectDraw)
        ensures
            draw == (IndirectDraw {
                indirect_offset: 0,
                count_offset: 0,
                max_count: data.object_count,
            }),
    {
        IndirectDraw { indirect_offset: 0, count_offset: 0, max_count: data.object_count }
    }

    /// Culls on the processor what the shader culls on the device: runs the
    /// groups of the dispatch grid one after the other, and in each group one
    /// invocation after the other, lets each test its object, and packs the
    /// commands of the visible objects in the order of the objects. On the device the order in which visible
    /// objects take their places is not fixed; this is one of its outcomes.
    pub fn cull(&self, objects: &Vec<InternalObject>, decisions: &Vec<bool>) -> (r: Result<
        CullingOutput,
        CullingError,
    >)
        ensures
            objects@.len() > u32::MAX ==> r is Err && r->Err_0 == CullingError::TooManyObjects,
            objects@.len() <= u32::MAX ==> r is Ok && {
                let output = r->Ok_0;
                &&& output.commands@ == visible_commands(objects@, decisions@)
                &&& output.count == output.commands@.len()
                &&& output.culled == culled_count(objects@.len(), decisions@)
                &&& output.count + output.culled == objects@.len()
            },
    {
        proof {
            use_type_invariant(self);
        }
        let object_count = match object_count(objects.len()) {
            Ok(count) => count,
            Err(error) => {
                return Err(error);
            },
        };
        let subgroup_size = self.subgroup_size;
        let groups = dispatch_group_count(object_count, subgroup_size);
        let mut commands: Vec<IndirectDrawCommand> = Vec::new();
        let mut count: u32 = 0;
        let mut culled: u32 = 0;
        let mut group: u32 = 0;
        proof {
            assert(objects@.take(0) =~= Seq::<InternalObject>::empty());
            assert(0 * subgroup_size == 0) by (nonlinear_arith);
        }
        while group < groups
            invariant
                group <= groups,
                subgroup_size > 0,
                object_count == objects@.len(),
                groups == dispatch_groups(object_count as int, subgroup_size as int),
                ({
                    let tested = tested_before(
                        group as int,
                        0,
                        subgroup_size as int,
                        object_count as int,
                    );
                    &&& commands@ == visible_commands(objects@.take(tested), decisions@)
                    &&& culled == culled_count(tested as nat, decisions@)
                    &&& count == commands@.len()
                    &&& count + culled == tested
                }),
            decreases groups - group,
        {
            let mut lane: u32 = 0;
            while lane < subgroup_size
                invariant
                    lane <= subgroup_size,
                    group < groups,
                    object_count == objects@.len(),
                    ({
                        let tested = tested_before(
                            group as int,
                            lane as int,
                            subgroup_size as int,
                            object_count as int,
                        );
                        &&& commands@ == visible_commands(objects@.take(tested), decisions@)
                        &&& culled == culled_count(tested as nat, decisions@)
                        &&& count == commands@.len()
                        &&& count + culled == tested
                    }),
                decreases subgroup_size - lane,
            {
                proof {
                    assert(0 <= group * subgroup_size <= u32::MAX * u32::MAX) by (nonlinear_arith)
                        requires
                            0 <= group <= u32::MAX,
                            0 <= subgroup_size <= u32::MAX,
                    ;
                }
                let object: u64 = (group as u64) * (subgroup_size as u64) + (lane as u64);
                if object < object_count as u64 {
                    let i = object as usize;
                    assert(objects@.take(i as int + 1).drop_last() =~= objects@.take(i as int));
                    assert(objects@.take(i as int + 1).last() == objects@[i as int]);
                    if i < decisions.len() && decisions[i] {
                        let visible = &objects[i];
                        commands.push(
                            IndirectDrawCommand {
                                index_count: visible.count,
                                instance_count: 1,
                                first_index: visible.start_idx,
                                base_vertex: visible.vertex_offset,
                                first_instance: count,
                            },
                        );
                        count += 1;
                    } else {
                        culled += 1;
                    }
                }
                lane += 1;
            }
            proof {
                assert((group + 1) * subgroup_size == group * subgroup_size + subgroup_size)
                    by (nonlinear_arith);
            }
            group += 1;
        }
        proof {
            lemma_dispatch_is_ceiling(object_count as int, subgroup_size as int);
        }
        assert(objects@.take(object_count as int) =~= objects@);
        Ok(CullingOutput { commands, count, culled })
    }
}

} // verus!
