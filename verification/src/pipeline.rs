use vstd::prelude::*;

use crate::descriptor::{
    error_in_layout, find_unsupported_binding, layout_supported, plan_descriptor_set_layouts,
    set_plans_cover_layout, DescriptorInfoView, LayoutError, SetLayoutPlan,
    StageDescriptorSetLayout,
};
use crate::descriptor::binding_plan;
use crate::merge::{
    lemma_merge_all_keeps_bindings, merge_all, merge_shader_stage_layouts, pairwise_compatible,
    stage_layouts_all_agree, stage_views,
};
use crate::sampler::chars_of;
use crate::module_scan::{is_reflectable, reflectable};
use crate::spirv::{reflect_descriptor_sets, reflected_descriptor_sets, spirv_words, words_of};

verus! {

/// Vulkan `VkShaderStageFlags` bits used by the pipelines.
pub const SHADER_STAGE_VERTEX: u32 = 0x1;

pub const SHADER_STAGE_FRAGMENT: u32 = 0x10;

pub const SHADER_STAGE_COMPUTE: u32 = 0x20;

pub const SHADER_STAGE_ALL_GRAPHICS: u32 = 0x1f;

/// Which programmable stage of the raster pipeline a shader feeds.
#[derive(Copy, Clone, Hash, Eq, PartialEq, Structural, Debug)]
pub enum RasterStage {
    Vertex,
    Pixel,
}

pub open spec fn raster_stage_flags(stage: RasterStage) -> u32 {
    match stage {
        RasterStage::Vertex => SHADER_STAGE_VERTEX,
        RasterStage::Pixel => SHADER_STAGE_FRAGMENT,
    }
}

/// The shader stage flag of a raster stage: vertex, or fragment for pixel shaders.
pub fn shader_stage_flags(stage: RasterStage) -> (r: u32)
    ensures
        r == raster_stage_flags(stage),
{
    match stage {
        RasterStage::Vertex => SHADER_STAGE_VERTEX,
        RasterStage::Pixel => SHADER_STAGE_FRAGMENT,
    }
}

/// Whether `s` holds a NUL character (which no C string can hold).
pub fn contains_nul(s: &str) -> (r: bool)
    ensures
        r == s@.contains('\0'),
{
    let chars = chars_of(s);
    let mut i: usize = 0;
    while i < chars.len()
        invariant
            chars@ == s@,
            0 <= i <= chars@.len(),
            forall|j: int| 0 <= j < i ==> chars@[j] != '\0',
        decreases chars@.len() - i,
    {
        if chars[i] == '\0' {
            return true;
        }
        i = i + 1;
    }
    false
}

/// A push constant range of a pipeline layout.
#[derive(Copy, Clone, PartialEq, Eq, Structural, Debug)]
pub struct PushConstantRange {
    pub stage_flags: u32,
    pub offset: u32,
    pub size: u32,
}

pub open spec fn push_constant_range_for(stage_flags: u32, bytes: usize) -> Option<PushConstantRange> {
    if bytes > 0 {
        Some(PushConstantRange { stage_flags, offset: 0, size: bytes as u32 })
    } else {
        None
    }
}

/// The push constant range of a pipeline whose push constants take `bytes` bytes:
/// none for zero bytes, else one range at offset zero (its size is `bytes`
/// truncated to 32 bits).
pub fn push_constant_range(stage_flags: u32, bytes: usize) -> (r: Option<PushConstantRange>)
    ensures
        r == push_constant_range_for(stage_flags, bytes),
{
    if bytes > 0 {
        Some(PushConstantRange { stage_flags, offset: 0, size: bytes as u32 })
    } else {
        None
    }
}

/// A field that a description builder needs and was not given.
#[derive(Copy, Clone, PartialEq, Eq, Structural, Debug)]
pub enum DescBuildError {
    MissingStage,
    MissingSpirv,
    MissingEntryName,
}

/// What a compute pipeline is built from.
pub struct ComputePipelineDesc<'a, 'b> {
    pub spirv: &'a [u8],
    pub entry_name: &'b str,
    /// Creation flags (Vulkan `VkDescriptorSetLayoutCreateFlags` bits) per set index.
    pub descriptor_set_layout_flags: Option<&'a [(usize, u32)]>,
    pub push_constants_bytes: usize,
}

/// Builder of a [`ComputePipelineDesc`]; `spirv` and `entry_name` must be set,
/// the flags default to none and the push constants to zero bytes.
pub struct ComputePipelineDescBuilder<'a, 'b> {
    pub spirv: Option<&'a [u8]>,
    pub entry_name: Option<&'b str>,
    pub descriptor_set_layout_flags: Option<&'a [(usize, u32)]>,
    pub push_constants_bytes: Option<usize>,
}

impl<'a, 'b> ComputePipelineDesc<'a, 'b> {
    /// A builder with no field set.
    pub fn builder() -> (r: ComputePipelineDescBuilder<'a, 'b>)
        ensures
            r.spirv is None,
            r.entry_name is None,
            r.descriptor_set_layout_flags is None,
            r.push_constants_bytes is None,
            r == fresh_compute_builder::<'a, 'b>(),
    {
        ComputePipelineDescBuilder {
            spirv: None,
            entry_name: None,
            descriptor_set_layout_flags: None,
            push_constants_bytes: None,
        }
    }
}

impl<'a, 'b> ComputePipelineDescBuilder<'a, 'b> {
    pub fn spirv(self, value: &'a [u8]) -> (r: Self)
        ensures
            r.spirv == Some(value),
            r.entry_name == self.entry_name,
            r.descriptor_set_layout_flags == self.descriptor_set_layout_flags,
            r.push_constants_bytes == self.push_constants_bytes,
            r == apply_compute_setter(self, ComputeDescSetter::Spirv(value)),
    {
        ComputePipelineDescBuilder { spirv: Some(value), ..self }
    }

    pub fn entry_name(self, value: &'b str) -> (r: Self)
        ensures
            r.spirv == self.spirv,
            r.entry_name == Some(value),
            r.descriptor_set_layout_flags == self.descriptor_set_layout_flags,
            r.push_constants_bytes == self.push_constants_bytes,
            r == apply_compute_setter(self, ComputeDescSetter::EntryName(value)),
    {
        ComputePipelineDescBuilder { entry_name: Some(value), ..self }
    }

    pub fn descriptor_set_layout_flags(self, value: &'a [(usize, u32)]) -> (r: Self)
        ensures
            r.spirv == self.spirv,
            r.entry_name == self.entry_name,
            r.descriptor_set_layout_flags == Some(value),
            r.push_constants_bytes == self.push_constants_bytes,
            r == apply_compute_setter(self, ComputeDescSetter::DescriptorSetLayoutFlags(value)),
    {
        ComputePipelineDescBuilder { descriptor_set_layout_flags: Some(value), ..self }
    }

    pub fn push_constants_bytes(self, value: usize) -> (r: Self)
        ensures
            r.spirv == self.spirv,
            r.entry_name == self.entry_name,
            r.descriptor_set_layout_flags == self.descriptor_set_layout_flags,
            r.push_constants_bytes == Some(value),
            r == apply_compute_setter(self, ComputeDescSetter::PushConstantsBytes(value)),
    {
        ComputePipelineDescBuilder { push_constants_bytes: Some(value), ..self }
    }

    /// The description; fails on the first unset required field, `spirv` first.
    pub fn build(self) -> (r: Result<ComputePipelineDesc<'a, 'b>, DescBuildError>)
        ensures
            match r {
                Ok(d) => self.spirv == Some(d.spirv) && self.entry_name == Some(d.entry_name)
                    && d.descriptor_set_layout_flags == self.descriptor_set_layout_flags
                    && d.push_constants_bytes == match self.push_constants_bytes {
                    Some(n) => n,
                    None => 0,
                },
                Err(e) => if self.spirv is None {
                    e == DescBuildError::MissingSpirv
                } else {
                    self.entry_name is None && e == DescBuildError::MissingEntryName
                },
            },
            r == compute_build_result(self),
    {
        let spirv = match self.spirv {
            Some(s) => s,
            None => return Err(DescBuildError::MissingSpirv),
        };
        let entry_name = match self.entry_name {
            Some(s) => s,
            None => return Err(DescBuildError::MissingEntryName),
        };
        let push_constants_bytes = match self.push_constants_bytes {
            Some(n) => n,
            None => 0,
        };
        Ok(
            ComputePipelineDesc {
                spirv,
                entry_name,
                descriptor_set_layout_flags: self.descriptor_set_layout_flags,
                push_constants_bytes,
            },
        )
    }
}

/// One setter call on a [`ComputePipelineDescBuilder`], with its argument.
pub enum ComputeDescSetter<'a, 'b> {
    Spirv(&'a [u8]),
    EntryName(&'b str),
    DescriptorSetLayoutFlags(&'a [(usize, u32)]),
    PushConstantsBytes(usize),
}

/// The builder as `builder()` returns it: no field set.
pub open spec fn fresh_compute_builder<'a, 'b>() -> ComputePipelineDescBuilder<'a, 'b> {
    ComputePipelineDescBuilder {
        spirv: None,
        entry_name: None,
        descriptor_set_layout_flags: None,
        push_constants_bytes: None,
    }
}

/// The builder after one setter call.
pub open spec fn apply_compute_setter<'a, 'b>(
    b: ComputePipelineDescBuilder<'a, 'b>,
    s: ComputeDescSetter<'a, 'b>,
) -> ComputePipelineDescBuilder<'a, 'b> {
    match s {
        ComputeDescSetter::Spirv(v) => ComputePipelineDescBuilder { spirv: Some(v), ..b },
        ComputeDescSetter::EntryName(v) => ComputePipelineDescBuilder { entry_name: Some(v), ..b },
        ComputeDescSetter::DescriptorSetLayoutFlags(v) => ComputePipelineDescBuilder {
            descriptor_set_layout_flags: Some(v),
            ..b
        },
        ComputeDescSetter::PushConstantsBytes(v) => ComputePipelineDescBuilder {
            push_constants_bytes: Some(v),
            ..b
        },
    }
}

/// The builder after the setter calls `calls`, in order.
pub open spec fn apply_compute_setters<'a, 'b>(
    b: ComputePipelineDescBuilder<'a, 'b>,
    calls: Seq<ComputeDescSetter<'a, 'b>>,
) -> ComputePipelineDescBuilder<'a, 'b>
    decreases calls.len(),
{
    if calls.len() == 0 {
        b
    } else {
        apply_compute_setter(apply_compute_setters(b, calls.drop_last()), calls.last())
    }
}

/// What `build` returns for builder `b`.
pub open spec fn compute_build_result<'a, 'b>(b: ComputePipelineDescBuilder<'a, 'b>) -> Result<
    ComputePipelineDesc<'a, 'b>,
    DescBuildError,
> {
    match (b.spirv, b.entry_name) {
        (Some(spirv), Some(entry_name)) => Ok(
            ComputePipelineDesc {
                spirv,
                entry_name,
                descriptor_set_layout_flags: b.descriptor_set_layout_flags,
                push_constants_bytes: match b.push_constants_bytes {
                    Some(n) => n,
                    None => 0,
                },
            },
        ),
        (None, _) => Err(DescBuildError::MissingSpirv),
        (Some(_), None) => Err(DescBuildError::MissingEntryName),
    }
}

/// Which field a setter call sets: 0 `spirv`, 1 `entry_name`, 2 the flags, 3 the
/// push constant size.
pub open spec fn setter_field(s: ComputeDescSetter) -> int {
    match s {
        ComputeDescSetter::Spirv(_) => 0,
        ComputeDescSetter::EntryName(_) => 1,
        ComputeDescSetter::DescriptorSetLayoutFlags(_) => 2,
        ComputeDescSetter::PushConstantsBytes(_) => 3,
    }
}

/// Call `i` of `calls` is the last one that sets field `field`.
pub open spec fn is_last_setter_of(calls: Seq<ComputeDescSetter>, field: int, i: int) -> bool {
    &&& 0 <= i < calls.len()
    &&& setter_field(calls[i]) == field
    &&& forall|j: int| i < j < calls.len() ==> setter_field(#[trigger] calls[j]) != field
}

/// Some call of `calls` sets field `field`.
pub open spec fn sets_field(calls: Seq<ComputeDescSetter>, field: int) -> bool {
    exists|i: int| 0 <= i < calls.len() && setter_field(#[trigger] calls[i]) == field
}

/// Whatever setter calls follow `builder()`, `build` succeeds exactly when
/// `spirv` and `entry_name` were both set, failing on `spirv` first; each field of
/// the description is the value of the last call that set it, and the flags are
/// none and the push constants zero bytes where no call set them.
pub proof fn lemma_compute_builder_keeps_last_setting<'a, 'b>(
    calls: Seq<ComputeDescSetter<'a, 'b>>,
)
    ensures
        ({
            let r = compute_build_result(apply_compute_setters(fresh_compute_builder(), calls));
            &&& (r is Ok <==> sets_field(calls, 0) && sets_field(calls, 1))
            &&& (!sets_field(calls, 0) ==> r == Err::<ComputePipelineDesc, _>(
                DescBuildError::MissingSpirv,
            ))
            &&& (sets_field(calls, 0) && !sets_field(calls, 1) ==> r == Err::<
                ComputePipelineDesc,
                _,
            >(DescBuildError::MissingEntryName))
            &&& forall|i: int|
                #![trigger is_last_setter_of(calls, 0, i)]
                #![trigger is_last_setter_of(calls, 1, i)]
                #![trigger is_last_setter_of(calls, 2, i)]
                #![trigger is_last_setter_of(calls, 3, i)]
                r is Ok ==> {
                    let d = r->Ok_0;
                    &&& (is_last_setter_of(calls, 0, i) ==> calls[i] == ComputeDescSetter::Spirv(
                        d.spirv,
                    ))
                    &&& (is_last_setter_of(calls, 1, i) ==> calls[i]
                        == ComputeDescSetter::EntryName(d.entry_name))
                    &&& (is_last_setter_of(calls, 2, i) ==> d.descriptor_set_layout_flags
                        is Some && calls[i] == ComputeDescSetter::DescriptorSetLayoutFlags(
                        d.descriptor_set_layout_flags->0,
                    ))
                    &&& (is_last_setter_of(calls, 3, i) ==> calls[i]
                        == ComputeDescSetter::PushConstantsBytes(d.push_constants_bytes))
                }
            &&& (r is Ok && !sets_field(calls, 2) ==> r->Ok_0.descriptor_set_layout_flags
                is None)
            &&& (r is Ok && !sets_field(calls, 3) ==> r->Ok_0.push_constants_bytes == 0)
        }),
{
    lemma_compute_setters_fields(calls);
}

/// Field by field: a field of the builder after `calls` is set exactly when some
/// call set it, and then holds the value of the last such call.
proof fn lemma_compute_setters_fields<'a, 'b>(calls: Seq<ComputeDescSetter<'a, 'b>>)
    ensures
        ({
            let b = apply_compute_setters(fresh_compute_builder(), calls);
            &&& (b.spirv is Some <==> sets_field(calls, 0))
            &&& (b.entry_name is Some <==> sets_field(calls, 1))
            &&& (b.descriptor_set_layout_flags is Some <==> sets_field(calls, 2))
            &&& (b.push_constants_bytes is Some <==> sets_field(calls, 3))
            &&& forall|i: int|
                #![trigger is_last_setter_of(calls, 0, i)]
                #![trigger is_last_setter_of(calls, 1, i)]
                #![trigger is_last_setter_of(calls, 2, i)]
                #![trigger is_last_setter_of(calls, 3, i)]
                {
                    &&& (is_last_setter_of(calls, 0, i) ==> calls[i] == ComputeDescSetter::Spirv(
                        b.spirv->0,
                    ))
                    &&& (is_last_setter_of(calls, 1, i) ==> calls[i]
                        == ComputeDescSetter::EntryName(b.entry_name->0))
                    &&& (is_last_setter_of(calls, 2, i) ==> calls[i]
                        == ComputeDescSetter::DescriptorSetLayoutFlags(
                        b.descriptor_set_layout_flags->0,
                    ))
                    &&& (is_last_setter_of(calls, 3, i) ==> calls[i]
                        == ComputeDescSetter::PushConstantsBytes(b.push_constants_bytes->0))
                }
        }),
    decreases calls.len(),
{
    if calls.len() > 0 {
        let init = calls.drop_last();
        lemma_compute_setters_fields(init);
        let n = calls.len() - 1;
        assert forall|k: int| 0 <= k < init.len() implies init[k] == calls[k] by {}
        assert forall|f: int| sets_field(calls, f) <==> sets_field(init, f) || setter_field(
            calls[n],
        ) == f by {
            if sets_field(init, f) {
                let k = choose|k: int| 0 <= k < init.len() && setter_field(#[trigger] init[k]) == f;
                assert(setter_field(calls[k]) == f);
            }
            if setter_field(calls[n]) == f {
                assert(0 <= n < calls.len() && setter_field(calls[n]) == f);
            }
            if sets_field(calls, f) && setter_field(calls[n]) != f {
                let k = choose|k: int| 0 <= k < calls.len() && setter_field(#[trigger] calls[k]) == f;
                assert(k != n);
                assert(setter_field(init[k]) == f);
            }
        }
        assert forall|f: int, i: int|
            is_last_setter_of(calls, f, i) && i != n implies #[trigger] is_last_setter_of(
            init,
            f,
            i,
        ) && setter_field(calls[n]) != f by {
            assert(setter_field(calls[n]) != f);
            assert forall|j: int| i < j < init.len() implies setter_field(#[trigger] init[j]) != f by {
                assert(setter_field(calls[j]) != f);
            }
        }
        let b0 = apply_compute_setters(fresh_compute_builder(), init);
        let b = apply_compute_setters(fresh_compute_builder(), calls);
        assert(b == apply_compute_setter(b0, calls[n]));
        assert forall|f: int, i: int| is_last_setter_of(calls, f, i) && i == n implies match calls[i] {
            ComputeDescSetter::Spirv(v) => b.spirv == Some(v),
            ComputeDescSetter::EntryName(v) => b.entry_name == Some(v),
            ComputeDescSetter::DescriptorSetLayoutFlags(v) => b.descriptor_set_layout_flags == Some(v),
            ComputeDescSetter::PushConstantsBytes(v) => b.push_constants_bytes == Some(v),
        } by {}
        assert forall|f: int, i: int| is_last_setter_of(calls, f, i) && i != n implies match calls[i] {
            ComputeDescSetter::Spirv(v) => b.spirv == Some(v),
            ComputeDescSetter::EntryName(v) => b.entry_name == Some(v),
            ComputeDescSetter::DescriptorSetLayoutFlags(v) => b.descriptor_set_layout_flags == Some(v),
            ComputeDescSetter::PushConstantsBytes(v) => b.push_constants_bytes == Some(v),
        } by {
            assert(is_last_setter_of(init, f, i));
            assert(init[i] == calls[i]);
            assert(setter_field(calls[n]) != f);
        }
    }
}

/// One shader of a raster pipeline.
pub struct RasterShaderDesc<'a, 'b> {
    pub stage: RasterStage,
    pub spirv: &'a [u8],
    pub entry_name: &'b str,
    /// Creation flags (Vulkan `VkDescriptorSetLayoutCreateFlags` bits) per set index.
    pub descriptor_set_layout_flags: Option<&'a [(usize, u32)]>,
    pub push_constants_bytes: usize,
}

/// Builder of a [`RasterShaderDesc`]; `stage`, `spirv` and `entry_name` must be
/// set, the flags default to none and the push constants to zero bytes.
pub struct RasterShaderDescBuilder<'a, 'b> {
    pub stage: Option<RasterStage>,
    pub spirv: Option<&'a [u8]>,
    pub entry_name: Option<&'b str>,
    pub descriptor_set_layout_flags: Option<&'a [(usize, u32)]>,
    pub push_constants_bytes: Option<usize>,
}

impl<'a, 'b> RasterShaderDesc<'a, 'b> {
    /// A builder with the stage, the module and the entry point set.
    pub fn new(stage: RasterStage, spirv: &'a [u8], entry_name: &'b str) -> (r:
        RasterShaderDescBuilder<'a, 'b>)
        ensures
            r.stage == Some(stage),
            r.spirv == Some(spirv),
            r.entry_name == Some(entry_name),
            r.descriptor_set_layout_flags is None,
            r.push_constants_bytes is None,
    {
        RasterShaderDescBuilder {
            stage: Some(stage),
            spirv: Some(spirv),
            entry_name: Some(entry_name),
            descriptor_set_layout_flags: None,
            push_constants_bytes: None,
        }
    }
}

impl<'a, 'b> RasterShaderDescBuilder<'a, 'b> {
    pub fn stage(self, value: RasterStage) -> (r: Self)
        ensures
            r.stage == Some(value),
            r.spirv == self.spirv,
            r.entry_name == self.entry_name,
            r.descriptor_set_layout_flags == self.descriptor_set_layout_flags,
            r.push_constants_bytes == self.push_constants_bytes,
    {
        RasterShaderDescBuilder { stage: Some(value), ..self }
    }

    pub fn spirv(self, value: &'a [u8]) -> (r: Self)
        ensures
            r.stage == self.stage,
            r.spirv == Some(value),
            r.entry_name == self.entry_name,
            r.descriptor_set_layout_flags == self.descriptor_set_layout_flags,
            r.push_constants_bytes == self.push_constants_bytes,
    {
        RasterShaderDescBuilder { spirv: Some(value), ..self }
    }

    pub fn entry_name(self, value: &'b str) -> (r: Self)
        ensures
            r.stage == self.stage,
            r.spirv == self.spirv,
            r.entry_name == Some(value),
            r.descriptor_set_layout_flags == self.descriptor_set_layout_flags,
            r.push_constants_bytes == self.push_constants_bytes,
    {
        RasterShaderDescBuilder { entry_name: Some(value), ..self }
    }

    pub fn descriptor_set_layout_flags(self, value: &'a [(usize, u32)]) -> (r: Self)
        ensures
            r.stage == self.stage,
            r.spirv == self.spirv,
            r.entry_name == self.entry_name,
            r.descriptor_set_layout_flags == Some(value),
            r.push_constants_bytes == self.push_constants_bytes,
    {
        RasterShaderDescBuilder { descriptor_set_layout_flags: Some(value), ..self }
    }

    pub fn push_constants_bytes(self, value: usize) -> (r: Self)
        ensures
            r.stage == self.stage,
            r.spirv == self.spirv,
            r.entry_name == self.entry_name,
            r.descriptor_set_layout_flags == self.descriptor_set_layout_flags,
            r.push_constants_bytes == Some(value),
    {
        RasterShaderDescBuilder { push_constants_bytes: Some(value), ..self }
    }

    /// The description; fails on the first unset required field, in the order
    /// `stage`, `spirv`, `entry_name`.
    pub fn build(self) -> (r: Result<RasterShaderDesc<'a, 'b>, DescBuildError>)
        ensures
            match r {
                Ok(d) => self.stage == Some(d.stage) && self.spirv == Some(d.spirv)
                    && self.entry_name == Some(d.entry_name) && d.descriptor_set_layout_flags
                    == self.descriptor_set_layout_flags && d.push_constants_bytes
                    == match self.push_constants_bytes {
                    Some(n) => n,
                    None => 0,
                },
                Err(e) => if self.stage is None {
                    e == DescBuildError::MissingStage
                } else if self.spirv is None {
                    e == DescBuildError::MissingSpirv
                } else {
                    self.entry_name is None && e == DescBuildError::MissingEntryName
                },
            },
    {
        let stage = match self.stage {
            Some(s) => s,
            None => return Err(DescBuildError::MissingStage),
        };
        let spirv = match self.spirv {
            Some(s) => s,
            None => return Err(DescBuildError::MissingSpirv),
        };
        let entry_name = match self.entry_name {
            Some(s) => s,
            None => return Err(DescBuildError::MissingEntryName),
        };
        let push_constants_bytes = match self.push_constants_bytes {
            Some(n) => n,
            None => 0,
        };
        Ok(
            RasterShaderDesc {
                stage,
                spirv,
                entry_name,
                descriptor_set_layout_flags: self.descriptor_set_layout_flags,
                push_constants_bytes,
            },
        )
    }
}

/// Why a pipeline cannot be planned.
#[derive(Debug)]
pub enum PipelineError {
    /// Reflection rejected the module of the shader with this index.
    InvalidSpirv { shader: usize },
    /// The module of the shader with this index is one that rspirv-reflect
    /// cannot read without panicking (see `reflectable`).
    UnreflectableSpirv { shader: usize },
    /// Some descriptor binding cannot be laid out.
    Layout(LayoutError),
    /// Two shaders describe one binding differently.
    ConflictingStageLayouts,
    /// The module of the shader with this index cannot be read as 32-bit words.
    SpirvNotWords { shader: usize },
    /// The entry point name of the shader with this index holds a NUL character.
    EntryNameHasNul { shader: usize },
}

/// Everything a compute pipeline is created from.
pub struct ComputePipelinePlan<'a, 'b> {
    pub set_layouts: Vec<SetLayoutPlan>,
    pub push_constant_range: Option<PushConstantRange>,
    pub code: &'a [u32],
    pub entry_name: &'b str,
}

pub open spec fn flags_seq(flags: Option<&[(usize, u32)]>) -> Seq<(usize, u32)> {
    match flags {
        Some(f) => f@,
        None => Seq::empty(),
    }
}


/// What `plan_compute_pipeline` needs of a description: reflection reads its
/// module without panicking and accepts it, every binding it finds can be laid
/// out, the module is a whole number of 32-bit words, and the entry point name
/// holds no NUL.
pub open spec fn compute_pipeline_admissible(desc: ComputePipelineDesc) -> bool {
    &&& reflectable(desc.spirv@)
    &&& reflected_descriptor_sets(desc.spirv@) is Some
    &&& layout_supported(reflected_descriptor_sets(desc.spirv@).unwrap())
    &&& desc.spirv@.len() % 4 == 0
    &&& !desc.entry_name@.contains('\0')
}

/// `p` is the plan of the compute pipeline `desc`.
pub open spec fn compute_plan_matches(p: ComputePipelinePlan, desc: ComputePipelineDesc) -> bool {
    &&& set_plans_cover_layout(
        p.set_layouts@,
        reflected_descriptor_sets(desc.spirv@).unwrap(),
        SHADER_STAGE_COMPUTE,
        flags_seq(desc.descriptor_set_layout_flags),
    )
    &&& p.push_constant_range == push_constant_range_for(
        SHADER_STAGE_COMPUTE,
        desc.push_constants_bytes,
    )
    &&& p.code@.len() * 4 == desc.spirv@.len()
    &&& exists|le: bool| p.code@ == words_of(desc.spirv@, le)
    &&& p.entry_name@ == desc.entry_name@
}

/// Plans a compute pipeline: the descriptor set layouts that reflection finds in
/// the module, all seen by the compute stage, with the description's creation
/// flags; a push constant range if the push constants take any bytes; the
/// module's words and the entry point. The only failure left is the module's
/// bytes not lying 4-byte aligned in memory, which the words cast decides.
pub fn plan_compute_pipeline<'a, 'b>(desc: &ComputePipelineDesc<'a, 'b>) -> (r: Result<
    ComputePipelinePlan<'a, 'b>,
    PipelineError,
>)
    requires
        compute_pipeline_admissible(*desc),
    ensures
        r matches Ok(p) ==> compute_plan_matches(p, *desc),
        r matches Err(e) ==> (e matches PipelineError::SpirvNotWords { shader } && shader == 0),
{
    let sets = match reflect_descriptor_sets(desc.spirv) {
        Some(sets) => sets,
        None => {
            proof {
                assert(false);
            }
            return Err(PipelineError::InvalidSpirv { shader: 0 });
        },
    };
    let no_flags: [(usize, u32); 0] = [];
    let flags: &[(usize, u32)] = match desc.descriptor_set_layout_flags {
        Some(f) => f,
        None => &no_flags,
    };
    assert(flags@ == flags_seq(desc.descriptor_set_layout_flags));
    let set_layouts = plan_descriptor_set_layouts(&sets, SHADER_STAGE_COMPUTE, flags);
    let push_constant_range = push_constant_range(SHADER_STAGE_COMPUTE, desc.push_constants_bytes);
    let code = match spirv_words(desc.spirv) {
        Some(w) => w,
        None => return Err(PipelineError::SpirvNotWords { shader: 0 }),
    };
    Ok(ComputePipelinePlan { set_layouts, push_constant_range, code, entry_name: desc.entry_name })
}

/// Checks a compute pipeline description and plans it (see
/// `plan_compute_pipeline`). The checks run in the order in which creating the
/// pipeline would meet them: a module that rspirv-reflect cannot read without
/// panicking, reflection, layout, module words, entry point name.
pub fn try_plan_compute_pipeline<'a, 'b>(desc: &ComputePipelineDesc<'a, 'b>) -> (r: Result<
    ComputePipelinePlan<'a, 'b>,
    PipelineError,
>)
    ensures
        !reflectable(desc.spirv@) ==> (r matches Err(PipelineError::UnreflectableSpirv { shader })
            && shader == 0),
        reflectable(desc.spirv@) ==> match reflected_descriptor_sets(desc.spirv@) {
            None => r matches Err(PipelineError::InvalidSpirv { shader }) && shader == 0,
            Some(lv) => if !layout_supported(lv) {
                r matches Err(PipelineError::Layout(e)) && error_in_layout(e, lv)
            } else {
                &&& desc.spirv@.len() % 4 != 0 ==> (r matches Err(
                    PipelineError::SpirvNotWords { shader },
                ) && shader == 0)
                &&& desc.spirv@.len() % 4 == 0 && desc.entry_name@.contains('\0') ==> (r matches Err(
                    PipelineError::EntryNameHasNul { shader },
                ) && shader == 0)
                &&& compute_pipeline_admissible(*desc) ==> (r matches Ok(p)
                    && compute_plan_matches(p, *desc)) || (r matches Err(
                    PipelineError::SpirvNotWords { shader },
                ) && shader == 0)
                &&& r matches Ok(p) ==> compute_pipeline_admissible(*desc) && compute_plan_matches(
                    p,
                    *desc,
                )
            },
        },
{
    if !is_reflectable(desc.spirv) {
        return Err(PipelineError::UnreflectableSpirv { shader: 0 });
    }
    let sets = match reflect_descriptor_sets(desc.spirv) {
        Some(sets) => sets,
        None => return Err(PipelineError::InvalidSpirv { shader: 0 }),
    };
    match find_unsupported_binding(&sets) {
        Some(e) => return Err(PipelineError::Layout(e)),
        None => {},
    }
    if desc.spirv.len() % 4 != 0 {
        return Err(PipelineError::SpirvNotWords { shader: 0 });
    }
    if contains_nul(desc.entry_name) {
        return Err(PipelineError::EntryNameHasNul { shader: 0 });
    }
    plan_compute_pipeline(desc)
}

/// One shader stage of a raster pipeline to be created.
pub struct ShaderStagePlan<'a, 'b> {
    /// The stage's Vulkan `VkShaderStageFlags` bit.
    pub stage_flags: u32,
    pub code: &'a [u32],
    pub entry_name: &'b str,
}

/// Everything a raster pipeline's layout and shader stages are created from.
pub struct RasterPipelinePlan<'a, 'b> {
    pub set_layouts: Vec<SetLayoutPlan>,
    pub stages: Vec<ShaderStagePlan<'a, 'b>>,
}

/// The reflected descriptor sets of every shader, all of which reflection accepts.
pub open spec fn reflected_stage_layouts(shaders: Seq<RasterShaderDesc>) -> Seq<
    Map<u32, Map<u32, DescriptorInfoView>>,
> {
    Seq::new(shaders.len(), |i: int| reflected_descriptor_sets(shaders[i].spirv@).unwrap())
}

/// The shader's module is not a whole number of 32-bit words, or its entry point
/// name holds a NUL character.
pub open spec fn shader_malformed(shader: RasterShaderDesc) -> bool {
    shader.spirv@.len() % 4 != 0 || shader.entry_name@.contains('\0')
}

/// Reflection reads the shader's module without panicking and without error.
pub open spec fn reflection_accepts(shader: RasterShaderDesc) -> bool {
    reflectable(shader.spirv@) && reflected_descriptor_sets(shader.spirv@) is Some
}

/// `p` is shader `shader`'s stage: its stage bit, its module's words, its entry point.
pub open spec fn stage_plan_matches(p: ShaderStagePlan, shader: RasterShaderDesc) -> bool {
    &&& p.stage_flags == raster_stage_flags(shader.stage)
    &&& p.code@.len() * 4 == shader.spirv@.len()
    &&& exists|le: bool| p.code@ == words_of(shader.spirv@, le)
    &&& p.entry_name@ == shader.entry_name@
}

/// What `plan_raster_pipeline` needs of its shaders: reflection accepts each
/// module, the shaders agree on the bindings they share, every binding of their
/// merged layout can be laid out, and each module is a whole number of 32-bit
/// words with an entry point name free of NUL.
pub open spec fn raster_pipeline_admissible(shaders: Seq<RasterShaderDesc>) -> bool {
    &&& forall|i: int| 0 <= i < shaders.len() ==> reflection_accepts(#[trigger] shaders[i])
    &&& pairwise_compatible(reflected_stage_layouts(shaders))
    &&& layout_supported(merge_all(reflected_stage_layouts(shaders)))
    &&& forall|i: int|
        0 <= i < shaders.len() ==> (#[trigger] shaders[i]).spirv@.len() % 4 == 0
            && !shaders[i].entry_name@.contains('\0')
}

/// `p` is the plan of a raster pipeline with the shaders `shaders`.
pub open spec fn raster_plan_matches(p: RasterPipelinePlan, shaders: Seq<RasterShaderDesc>) -> bool {
    &&& set_plans_cover_layout(
        p.set_layouts@,
        merge_all(reflected_stage_layouts(shaders)),
        SHADER_STAGE_ALL_GRAPHICS,
        Seq::empty(),
    )
    &&& p.stages@.len() == shaders.len()
    &&& forall|i: int|
        0 <= i < shaders.len() ==> stage_plan_matches(#[trigger] p.stages@[i], shaders[i])
}

/// Plans a raster pipeline: the descriptor set layouts of the merged layouts that
/// reflection finds in the shaders, seen by all graphics stages and without
/// creation flags, and one stage per shader, in order. The only failure left is
/// a module whose bytes do not lie 4-byte aligned in memory, which the words
/// cast decides.
pub fn plan_raster_pipeline<'a, 'b>(shaders: &[RasterShaderDesc<'a, 'b>]) -> (r: Result<
    RasterPipelinePlan<'a, 'b>,
    PipelineError,
>)
    requires
        raster_pipeline_admissible(shaders@),
    ensures
        r matches Ok(p) ==> raster_plan_matches(p, shaders@),
        r matches Err(e) ==> (e matches PipelineError::SpirvNotWords { shader } && shader
            < shaders@.len()),
{
    let n = shaders.len();
    let mut layouts: Vec<StageDescriptorSetLayout> = Vec::new();
    let mut i: usize = 0;
    while i < n
        invariant
            n == shaders@.len(),
            0 <= i <= n,
            raster_pipeline_admissible(shaders@),
            layouts@.len() == i,
            forall|j: int|
                0 <= j < i ==> reflected_descriptor_sets((#[trigger] shaders@[j]).spirv@) == Some(
                    crate::descriptor::layout_view(layouts@[j]),
                ),
        decreases n - i,
    {
        assert(reflection_accepts(shaders@[i as int]));
        match reflect_descriptor_sets(shaders[i].spirv) {
            Some(l) => {
                layouts.push(l);
            },
            None => {
                proof {
                    assert(false);
                }
                return Err(PipelineError::InvalidSpirv { shader: i });
            },
        }
        i = i + 1;
    }
    let ghost views = reflected_stage_layouts(shaders@);
    assert(stage_views(layouts@) =~= views);
    let merged = merge_shader_stage_layouts(layouts);
    let no_flags: [(usize, u32); 0] = [];
    assert(no_flags@ =~= Seq::<(usize, u32)>::empty());
    let set_layouts = plan_descriptor_set_layouts(&merged, SHADER_STAGE_ALL_GRAPHICS, &no_flags);
    let mut stages: Vec<ShaderStagePlan<'a, 'b>> = Vec::new();
    let mut k: usize = 0;
    while k < n
        invariant
            n == shaders@.len(),
            0 <= k <= n,
            stages@.len() == k,
            forall|j: int| 0 <= j < k ==> stage_plan_matches(#[trigger] stages@[j], shaders@[j]),
        decreases n - k,
    {
        let shader = &shaders[k];
        let code = match spirv_words(shader.spirv) {
            Some(w) => w,
            None => return Err(PipelineError::SpirvNotWords { shader: k }),
        };
        stages.push(
            ShaderStagePlan {
                stage_flags: shader_stage_flags(shader.stage),
                code,
                entry_name: shader.entry_name,
            },
        );
        k = k + 1;
    }
    Ok(RasterPipelinePlan { set_layouts, stages })
}

/// Checks a raster pipeline's shaders and plans the pipeline (see
/// `plan_raster_pipeline`). The checks run in the order in which creating the
/// pipeline would meet them: for each shader in turn, a module that
/// rspirv-reflect cannot read without panicking, then reflection; agreement of
/// the shaders' bindings; layout; then for each shader in turn its module words
/// and its entry point name.
pub fn try_plan_raster_pipeline<'a, 'b>(shaders: &[RasterShaderDesc<'a, 'b>]) -> (r: Result<
    RasterPipelinePlan<'a, 'b>,
    PipelineError,
>)
    ensures
        if exists|i: int| 0 <= i < shaders@.len() && !reflection_accepts(#[trigger] shaders@[i]) {
            ||| r matches Err(PipelineError::UnreflectableSpirv { shader }) && shader
                < shaders@.len() && !reflectable(shaders@[shader as int].spirv@) && forall|j: int|
                0 <= j < shader ==> reflection_accepts(#[trigger] shaders@[j])
            ||| r matches Err(PipelineError::InvalidSpirv { shader }) && shader < shaders@.len()
                && reflectable(shaders@[shader as int].spirv@) && reflected_descriptor_sets(
                shaders@[shader as int].spirv@,
            ) is None && forall|j: int| 0 <= j < shader ==> reflection_accepts(#[trigger] shaders@[j])
        } else {
            let views = reflected_stage_layouts(shaders@);
            if !pairwise_compatible(views) {
                r matches Err(PipelineError::ConflictingStageLayouts)
            } else if !layout_supported(merge_all(views)) {
                r matches Err(PipelineError::Layout(e)) && error_in_layout(e, merge_all(views))
            } else {
                &&& forall|k: int|
                    0 <= k < shaders@.len() && #[trigger] shader_malformed(shaders@[k]) && (
                    forall|j: int| 0 <= j < k ==> !#[trigger] shader_malformed(shaders@[j]))
                        ==> if shaders@[k].spirv@.len() % 4 != 0 {
                        r matches Err(PipelineError::SpirvNotWords { shader }) && shader == k
                    } else {
                        r matches Err(PipelineError::EntryNameHasNul { shader }) && shader == k
                    }
                &&& (forall|j: int| 0 <= j < shaders@.len() ==> !#[trigger] shader_malformed(
                    shaders@[j],
                )) ==> (r matches Ok(p) && raster_plan_matches(p, shaders@)) || (r matches Err(
                    PipelineError::SpirvNotWords { shader },
                ) && shader < shaders@.len())
                &&& r matches Ok(p) ==> raster_pipeline_admissible(shaders@) && raster_plan_matches(
                    p,
                    shaders@,
                )
            }
        },
{
    let n = shaders.len();
    let mut layouts: Vec<StageDescriptorSetLayout> = Vec::new();
    let mut i: usize = 0;
    while i < n
        invariant
            n == shaders@.len(),
            0 <= i <= n,
            layouts@.len() == i,
            forall|j: int|
                0 <= j < i ==> reflectable((#[trigger] shaders@[j]).spirv@)
                    && reflected_descriptor_sets(shaders@[j].spirv@) == Some(
                    crate::descriptor::layout_view(layouts@[j]),
                ),
        decreases n - i,
    {
        if !is_reflectable(shaders[i].spirv) {
            return Err(PipelineError::UnreflectableSpirv { shader: i });
        }
        match reflect_descriptor_sets(shaders[i].spirv) {
            Some(l) => {
                layouts.push(l);
            },
            None => {
                return Err(PipelineError::InvalidSpirv { shader: i });
            },
        }
        i = i + 1;
    }
    let ghost views = reflected_stage_layouts(shaders@);
    assert(stage_views(layouts@) =~= views);
    assert(forall|j: int| 0 <= j < n ==> reflection_accepts(#[trigger] shaders@[j]));
    if !stage_layouts_all_agree(&layouts) {
        return Err(PipelineError::ConflictingStageLayouts);
    }
    let merged = merge_shader_stage_layouts(layouts);
    match find_unsupported_binding(&merged) {
        Some(e) => return Err(PipelineError::Layout(e)),
        None => {},
    }
    let mut k: usize = 0;
    while k < n
        invariant
            n == shaders@.len(),
            0 <= k <= n,
            views == reflected_stage_layouts(shaders@),
            forall|j: int| 0 <= j < n ==> reflection_accepts(#[trigger] shaders@[j]),
            pairwise_compatible(views),
            layout_supported(merge_all(views)),
            forall|j: int| 0 <= j < k ==> !#[trigger] shader_malformed(shaders@[j]),
        decreases n - k,
    {
        if shaders[k].spirv.len() % 4 != 0 {
            proof {
                lemma_first_malformed_is_unique(shaders@, k as int);
            }
            return Err(PipelineError::SpirvNotWords { shader: k });
        }
        if contains_nul(shaders[k].entry_name) {
            proof {
                lemma_first_malformed_is_unique(shaders@, k as int);
            }
            return Err(PipelineError::EntryNameHasNul { shader: k });
        }
        assert(!shader_malformed(shaders@[k as int]));
        k = k + 1;
    }
    assert(raster_pipeline_admissible(shaders@)) by {
        assert forall|j: int| 0 <= j < n implies (#[trigger] shaders@[j]).spirv@.len() % 4 == 0
            && !shaders@[j].entry_name@.contains('\0') by {
            assert(!shader_malformed(shaders@[j]));
        }
    }
    plan_raster_pipeline(shaders)
}

/// A shader that comes before every other malformed shader is the only one that
/// does.
proof fn lemma_first_malformed_is_unique(shaders: Seq<RasterShaderDesc>, k: int)
    requires
        0 <= k < shaders.len(),
        shader_malformed(shaders[k]),
        forall|j: int| 0 <= j < k ==> !#[trigger] shader_malformed(shaders[j]),
    ensures
        forall|m: int|
            0 <= m < shaders.len() && #[trigger] shader_malformed(shaders[m]) && (forall|j: int|
                0 <= j < m ==> !#[trigger] shader_malformed(shaders[j])) ==> m == k,
{
    assert forall|m: int|
        0 <= m < shaders.len() && #[trigger] shader_malformed(shaders[m]) && (forall|j: int|
            0 <= j < m ==> !#[trigger] shader_malformed(shaders[j])) implies m == k by {
        if m < k {
            assert(!shader_malformed(shaders[m]));
        }
        if m > k {
            assert(!shader_malformed(shaders[k]));
        }
    }
}

/// Which shaders a raster pipeline admits, what its plan is, and every check that
/// `try_plan_raster_pipeline` makes before the words cast (reflection, the
/// reflected layouts, malformed modules and names) depend only on each shader's
/// stage, module and entry point: its own descriptor set layout flags and push
/// constant size play no part.
pub proof fn lemma_raster_plan_ignores_flags_and_push_constants(
    s1: Seq<RasterShaderDesc>,
    s2: Seq<RasterShaderDesc>,
    p: RasterPipelinePlan,
)
    requires
        s1.len() == s2.len(),
        forall|i: int|
            0 <= i < s1.len() ==> (#[trigger] s1[i]).stage == s2[i].stage && s1[i].spirv@
                == s2[i].spirv@ && s1[i].entry_name@ == s2[i].entry_name@,
    ensures
        raster_pipeline_admissible(s1) == raster_pipeline_admissible(s2),
        raster_plan_matches(p, s1) == raster_plan_matches(p, s2),
        reflected_stage_layouts(s1) == reflected_stage_layouts(s2),
        forall|i: int|
            0 <= i < s1.len() ==> reflectable((#[trigger] s1[i]).spirv@) == reflectable(
                s2[i].spirv@,
            ) && reflection_accepts(s1[i]) == reflection_accepts(s2[i]) && shader_malformed(s1[i])
                == shader_malformed(s2[i]),
{
    assert(reflected_stage_layouts(s1) =~= reflected_stage_layouts(s2));
    assert(forall|i: int| 0 <= i < s1.len() ==> reflection_accepts(#[trigger] s1[i]) == reflection_accepts(s2[i]));
    assert forall|i: int| 0 <= i < s1.len() implies stage_plan_matches(#[trigger] p.stages@[i], s1[i])
        == stage_plan_matches(p.stages@[i], s2[i]) by {
        assert(s1[i].spirv@ == s2[i].spirv@);
    }
    if raster_pipeline_admissible(s1) != raster_pipeline_admissible(s2) {
        assert forall|i: int| 0 <= i < s2.len() implies reflection_accepts(#[trigger] s2[i]) == reflection_accepts(s1[i]) by {
            assert(s1[i].spirv@ == s2[i].spirv@);
        }
        assert forall|i: int| 0 <= i < s2.len() implies ((#[trigger] s2[i]).spirv@.len() % 4 == 0
            && !s2[i].entry_name@.contains('\0')) == (s1[i].spirv@.len() % 4 == 0
            && !s1[i].entry_name@.contains('\0')) by {
            assert(s1[i].spirv@ == s2[i].spirv@);
        }
    }
}

/// Every binding that any shader of a raster pipeline declares is laid out, in
/// its set, with the kind that shader's own reflection gives it.
pub proof fn lemma_raster_layouts_cover_every_shader_binding(
    views: Seq<Map<u32, Map<u32, DescriptorInfoView>>>,
    plans: Seq<SetLayoutPlan>,
    stage_flags: u32,
    set_flags: Seq<(usize, u32)>,
    i: int,
    s: u32,
    b: u32,
)
    requires
        pairwise_compatible(views),
        set_plans_cover_layout(plans, merge_all(views), stage_flags, set_flags),
        0 <= i < views.len(),
        views[i].contains_key(s),
        views[i][s].contains_key(b),
    ensures
        exists|j: int, k: int|
            0 <= j < plans.len() && (#[trigger] plans[j]).set_index == s && 0 <= k
                < plans[j].bindings@.len() && (#[trigger] plans[j].bindings@[k]).binding == b
                && binding_plan(b, views[i][s][b], stage_flags) == Some(plans[j].bindings@[k]),
{
    let merged = merge_all(views);
    lemma_merge_all_keeps_bindings(views, i, s, b);
    assert(merged.contains_key(s));
    let j = choose|j: int| 0 <= j < plans.len() && #[trigger] plans[j].set_index == s;
    let p = plans[j];
    assert(merged[s].contains_key(b));
    let k = choose|k: int| 0 <= k < p.bindings@.len() && #[trigger] p.bindings@[k].binding == b;
    assert(binding_plan(b, merged[s][b], stage_flags) == Some(p.bindings@[k]));
    assert(binding_plan(b, merged[s][b], stage_flags) == binding_plan(b, views[i][s][b], stage_flags));
}

} // verus!
