use std::collections::HashMap;
use vstd::prelude::*;
use vstd::std_specs::hash::spec_hash_map_iter;
use vstd::std_specs::iter::IteratorSpec;

use crate::sampler::{
    lemma_parse_matches_sampler_for_name, lemma_sampler_name_round_trip, parse_sampler_name,
    sampler_for_name, sampler_name, SamplerDesc,
};

verus! {

broadcast use vstd::std_specs::hash::group_hash_axioms;

/// Descriptor type codes that shader reflection reports (bit-exact with Vulkan's
/// `VkDescriptorType`).
pub const DESCRIPTOR_TYPE_SAMPLER: u32 = 0;

pub const DESCRIPTOR_TYPE_SAMPLED_IMAGE: u32 = 2;

pub const DESCRIPTOR_TYPE_STORAGE_IMAGE: u32 = 3;

pub const DESCRIPTOR_TYPE_UNIFORM_BUFFER: u32 = 6;

pub const DESCRIPTOR_TYPE_STORAGE_BUFFER: u32 = 7;

/// One shader resource binding found by reflection.
pub struct DescriptorInfo {
    /// Descriptor type code (see the `DESCRIPTOR_TYPE_*` constants).
    pub ty: u32,
    /// Whether the binding is a runtime-sized (bindless) array.
    pub is_bindless: bool,
    /// The variable's name in the shader, empty when it has none.
    pub name: String,
}

/// Mathematical model of a [`DescriptorInfo`].
pub struct DescriptorInfoView {
    pub ty: u32,
    pub is_bindless: bool,
    pub name: Seq<char>,
}

impl View for DescriptorInfo {
    type V = DescriptorInfoView;

    open spec fn view(&self) -> DescriptorInfoView {
        DescriptorInfoView { ty: self.ty, is_bindless: self.is_bindless, name: self.name@ }
    }
}

/// The bindings of one descriptor set, keyed by binding index.
pub type DescriptorSetBindings = HashMap<u32, DescriptorInfo>;

/// The descriptor sets a shader stage uses, keyed by set index.
pub type StageDescriptorSetLayout = HashMap<u32, DescriptorSetBindings>;

pub open spec fn bindings_view(b: DescriptorSetBindings) -> Map<u32, DescriptorInfoView> {
    b@.map_values(|d: DescriptorInfo| d@)
}

pub open spec fn layout_view(l: StageDescriptorSetLayout) -> Map<u32, Map<u32, DescriptorInfoView>> {
    l@.map_values(|b: DescriptorSetBindings| bindings_view(b))
}

/// What a binding of a descriptor set layout holds.
#[derive(Copy, Clone, PartialEq, Eq, Structural, Debug)]
pub enum BindingKind {
    /// A uniform buffer, bound with a dynamic offset.
    UniformBufferDynamic,
    StorageImage,
    StorageBuffer,
    SampledImage,
    /// A sampler, fixed at layout creation.
    Sampler(SamplerDesc),
}

/// One binding of a descriptor set layout to be created.
#[derive(Copy, Clone, PartialEq, Eq, Structural, Debug)]
pub struct BindingPlan {
    pub binding: u32,
    pub descriptor_count: u32,
    pub kind: BindingKind,
    /// Shader stages that see the binding (Vulkan `VkShaderStageFlags` bits).
    pub stage_flags: u32,
}

/// The layout binding kind for a reflected binding; `None` for the kinds the
/// layout builder does not support and for sampler bindings whose name names no
/// sampler.
pub open spec fn binding_kind(info: DescriptorInfoView) -> Option<BindingKind> {
    if info.ty == DESCRIPTOR_TYPE_UNIFORM_BUFFER {
        Some(BindingKind::UniformBufferDynamic)
    } else if info.ty == DESCRIPTOR_TYPE_STORAGE_IMAGE {
        Some(BindingKind::StorageImage)
    } else if info.ty == DESCRIPTOR_TYPE_STORAGE_BUFFER {
        Some(BindingKind::StorageBuffer)
    } else if info.ty == DESCRIPTOR_TYPE_SAMPLED_IMAGE {
        Some(BindingKind::SampledImage)
    } else if info.ty == DESCRIPTOR_TYPE_SAMPLER {
        match sampler_for_name(info.name) {
            Some(d) => Some(BindingKind::Sampler(d)),
            None => None,
        }
    } else {
        None
    }
}

pub open spec fn binding_plan(binding: u32, info: DescriptorInfoView, stage_flags: u32) -> Option<
    BindingPlan,
> {
    match binding_kind(info) {
        Some(kind) => Some(BindingPlan { binding, descriptor_count: 1, kind, stage_flags }),
        None => None,
    }
}

/// The layout binding for reflected binding `binding`; `None` exactly when the
/// binding cannot be laid out.
pub fn plan_binding(binding: u32, info: &DescriptorInfo, stage_flags: u32) -> (r: Option<
    BindingPlan,
>)
    ensures
        r == binding_plan(binding, info@, stage_flags),
{
    let kind = if info.ty == DESCRIPTOR_TYPE_UNIFORM_BUFFER {
        Some(BindingKind::UniformBufferDynamic)
    } else if info.ty == DESCRIPTOR_TYPE_STORAGE_IMAGE {
        Some(BindingKind::StorageImage)
    } else if info.ty == DESCRIPTOR_TYPE_STORAGE_BUFFER {
        Some(BindingKind::StorageBuffer)
    } else if info.ty == DESCRIPTOR_TYPE_SAMPLED_IMAGE {
        Some(BindingKind::SampledImage)
    } else if info.ty == DESCRIPTOR_TYPE_SAMPLER {
        let sampler = parse_sampler_name(info.name.as_str());
        proof {
            lemma_parse_matches_sampler_for_name(info.name@, sampler);
        }
        match sampler {
            Some(d) => Some(BindingKind::Sampler(d)),
            None => None,
        }
    } else {
        None
    };
    match kind {
        Some(kind) => Some(BindingPlan { binding, descriptor_count: 1, kind, stage_flags }),
        None => None,
    }
}

/// Creation flags for set `set_index`: those of the first entry of `set_flags`
/// whose index is `set_index`, or none.
pub open spec fn flags_for_set(set_flags: Seq<(usize, u32)>, set_index: u32) -> u32
    decreases set_flags.len(),
{
    if set_flags.len() == 0 {
        0
    } else if set_flags[0].0 == set_index as usize {
        set_flags[0].1
    } else {
        flags_for_set(set_flags.drop_first(), set_index)
    }
}

/// Looks up the creation flags (Vulkan `VkDescriptorSetLayoutCreateFlags` bits) of
/// set `set_index` in `set_flags`.
pub fn set_layout_flags(set_index: u32, set_flags: &[(usize, u32)]) -> (r: u32)
    ensures
        r == flags_for_set(set_flags@, set_index),
{
    let mut i: usize = 0;
    assert(set_flags@.subrange(0, set_flags@.len() as int) =~= set_flags@);
    while i < set_flags.len()
        invariant
            0 <= i <= set_flags@.len(),
            flags_for_set(set_flags@, set_index) == flags_for_set(
                set_flags@.subrange(i as int, set_flags@.len() as int),
                set_index,
            ),
        decreases set_flags@.len() - i,
    {
        let ghost rest = set_flags@.subrange(i as int, set_flags@.len() as int);
        if set_flags[i].0 == set_index as usize {
            return set_flags[i].1;
        }
        assert(rest.drop_first() =~= set_flags@.subrange(i + 1, set_flags@.len() as int));
        i = i + 1;
    }
    assert(set_flags@.subrange(i as int, set_flags@.len() as int).len() == 0);
    0
}

/// A descriptor set layout to be created.
pub struct SetLayoutPlan {
    pub set_index: u32,
    /// Vulkan `VkDescriptorSetLayoutCreateFlags` bits.
    pub flags: u32,
    pub bindings: Vec<BindingPlan>,
}

/// Why a stage's descriptor sets cannot be laid out.
#[derive(Debug)]
pub enum LayoutError {
    /// The binding's descriptor type is not one the layout builder supports.
    UnsupportedDescriptorType { set: u32, binding: u32, ty: u32 },
    /// A sampler binding whose name names no sampler.
    InvalidSamplerName { set: u32, binding: u32, name: String },
}

pub open spec fn bindings_supported(b: Map<u32, DescriptorInfoView>) -> bool {
    forall|k: u32| #[trigger] b.contains_key(k) ==> binding_kind(b[k]) is Some
}

/// `plans` lays out exactly the bindings of `b`, one plan per binding, in some order.
pub open spec fn plans_cover_bindings(
    plans: Seq<BindingPlan>,
    b: Map<u32, DescriptorInfoView>,
    stage_flags: u32,
) -> bool {
    &&& plans.len() == b.len()
    &&& forall|i: int|
        0 <= i < plans.len() ==> b.contains_key(#[trigger] plans[i].binding) && binding_plan(
            plans[i].binding,
            b[plans[i].binding],
            stage_flags,
        ) == Some(plans[i])
    &&& forall|i: int, j: int|
        0 <= i < j < plans.len() ==> #[trigger] plans[i].binding != #[trigger] plans[j].binding
    &&& forall|k: u32|
        #[trigger] b.contains_key(k) ==> exists|i: int|
            0 <= i < plans.len() && #[trigger] plans[i].binding == k
}

/// `e` names a binding of set `set` in `b` that cannot be laid out.
pub open spec fn error_in_set(e: LayoutError, set: u32, b: Map<u32, DescriptorInfoView>) -> bool {
    match e {
        LayoutError::UnsupportedDescriptorType { set: s, binding, ty } => {
            &&& s == set
            &&& b.contains_key(binding)
            &&& b[binding].ty == ty
            &&& ty != DESCRIPTOR_TYPE_SAMPLER
            &&& binding_kind(b[binding]) is None
        },
        LayoutError::InvalidSamplerName { set: s, binding, name } => {
            &&& s == set
            &&& b.contains_key(binding)
            &&& b[binding].ty == DESCRIPTOR_TYPE_SAMPLER
            &&& b[binding].name == name@
            &&& binding_kind(b[binding]) is None
        },
    }
}

/// The binding that a layout error names.
pub open spec fn error_binding(e: LayoutError) -> u32 {
    match e {
        LayoutError::UnsupportedDescriptorType { binding, .. } => binding,
        LayoutError::InvalidSamplerName { binding, .. } => binding,
    }
}

pub open spec fn set_plan_matches(
    p: SetLayoutPlan,
    set_index: u32,
    b: Map<u32, DescriptorInfoView>,
    stage_flags: u32,
    set_flags: Seq<(usize, u32)>,
) -> bool {
    &&& p.set_index == set_index
    &&& p.flags == flags_for_set(set_flags, set_index)
    &&& plans_cover_bindings(p.bindings@, b, stage_flags)
}


/// Looks for a binding of set `set_index` that cannot be laid out: `None` exactly
/// when every binding can be, else an error naming one that cannot.
pub fn find_unsupported_binding_in_set(set_index: u32, bindings: &DescriptorSetBindings) -> (r:
    Option<LayoutError>)
    ensures
        r is None <==> bindings_supported(bindings_view(*bindings)),
        r matches Some(e) ==> error_in_set(e, set_index, bindings_view(*bindings)),
        r matches Some(e) ==> ({
            let walk = spec_hash_map_iter(bindings).remaining();
            exists|i: int|
                0 <= i < walk.len() && *(#[trigger] walk[i]).0 == error_binding(e) && forall|j: int|
                    0 <= j < i ==> binding_kind((*(#[trigger] walk[j]).1)@) is Some
        }),
{
    let ghost bv = bindings_view(*bindings);
    let ghost m = bindings@;
    let ghost seq = spec_hash_map_iter(bindings).remaining();
    for entry in it: bindings.iter()
        invariant
            bv == bindings_view(*bindings),
            m == bindings@,
            seq == spec_hash_map_iter(bindings).remaining(),
            it.seq() == seq,
            forall|i: int|
                0 <= i < it.index() ==> binding_kind(bv[*(#[trigger] seq[i]).0]) is Some,
    {
        let (b, info) = entry;
        assert(m.contains_key(*b) && m[*b] == *info);
        if plan_binding(*b, info, 0).is_none() {
            assert(!bindings_supported(bv)) by {
                assert(bv.contains_key(*b));
            }
            if info.ty == DESCRIPTOR_TYPE_SAMPLER {
                return Some(
                    LayoutError::InvalidSamplerName {
                        set: set_index,
                        binding: *b,
                        name: info.name.clone(),
                    },
                );
            } else {
                return Some(
                    LayoutError::UnsupportedDescriptorType { set: set_index, binding: *b, ty: info.ty },
                );
            }
        }
    }
    assert forall|k: u32| #[trigger] bv.contains_key(k) implies binding_kind(bv[k]) is Some by {
        assert(m.contains_key(k));
        assert(seq.contains((&k, &m[k])));
        let i = choose|i: int| 0 <= i < seq.len() && seq[i] == (&k, &m[k]);
        assert(*seq[i].0 == k);
    }
    None
}

/// Plans the layout of descriptor set `set_index`, whose bindings are `bindings`,
/// seen by the stages `stage_flags`: one layout binding per binding, in some
/// order, with the creation flags that `set_flags` gives the set. Every binding
/// must be one that can be laid out (see `find_unsupported_binding_in_set`).
pub fn plan_descriptor_set_layout(
    set_index: u32,
    bindings: &DescriptorSetBindings,
    stage_flags: u32,
    set_flags: &[(usize, u32)],
) -> (r: SetLayoutPlan)
    requires
        bindings_supported(bindings_view(*bindings)),
    ensures
        set_plan_matches(r, set_index, bindings_view(*bindings), stage_flags, set_flags@),
        ({
            let walk = spec_hash_map_iter(bindings).remaining();
            &&& r.bindings@.len() == walk.len()
            &&& forall|i: int|
                0 <= i < walk.len() ==> binding_plan(*walk[i].0, (*walk[i].1)@, stage_flags)
                    == Some(#[trigger] r.bindings@[i])
        }),
{
    let ghost bv = bindings_view(*bindings);
    let ghost m = bindings@;
    let flags = set_layout_flags(set_index, set_flags);
    let mut plans: Vec<BindingPlan> = Vec::new();
    for entry in it: bindings.iter()
        invariant
            bv == bindings_view(*bindings),
            bindings_supported(bv),
            m == bindings@,
            it.seq() == spec_hash_map_iter(bindings).remaining(),
            plans@.len() == it.index(),
            forall|i: int|
                0 <= i < it.index() ==> #[trigger] plans@[i].binding == *it.seq()[i].0
                    && binding_plan(plans@[i].binding, bv[plans@[i].binding], stage_flags) == Some(
                    plans@[i],
                ),
    {
        let (b, info) = entry;
        assert(m.contains_key(*b) && m[*b] == *info);
        match plan_binding(*b, info, stage_flags) {
            Some(p) => {
                plans.push(p);
            },
            None => {
                proof {
                    assert(bv.contains_key(*b));
                    assert(false);
                }
            },
        }
    }
    let ghost seq = spec_hash_map_iter(bindings).remaining();
    proof {
        assert(plans@.len() == seq.len());
        assert(bv.dom() =~= m.dom());
        assert(plans@.len() == bv.len());
        assert forall|i: int| 0 <= i < plans@.len() implies bv.contains_key(
            #[trigger] plans@[i].binding,
        ) by {
            assert(m.contains_key(*seq[i].0));
        }
        assert forall|i: int, j: int|
            0 <= i < j < plans@.len() implies #[trigger] plans@[i].binding
            != #[trigger] plans@[j].binding by {
            if plans@[i].binding == plans@[j].binding {
                assert(m.contains_key(*seq[i].0) && m[*seq[i].0] == *seq[i].1);
                assert(m.contains_key(*seq[j].0) && m[*seq[j].0] == *seq[j].1);
                assert(seq[i] == seq[j]);
            }
        }
        assert forall|k: u32| #[trigger] bv.contains_key(k) implies exists|i: int|
            0 <= i < plans@.len() && #[trigger] plans@[i].binding == k by {
            assert(m.contains_key(k));
            assert(seq.contains((&k, &m[k])));
            let i = choose|i: int| 0 <= i < seq.len() && seq[i] == (&k, &m[k]);
            assert(plans@[i].binding == k);
        }
    }
    proof {
        assert forall|i: int| 0 <= i < seq.len() implies binding_plan(
            *seq[i].0,
            (*seq[i].1)@,
            stage_flags,
        ) == Some(#[trigger] plans@[i]) by {
            assert(m.contains_key(*seq[i].0) && m[*seq[i].0] == *seq[i].1);
        }
    }
    SetLayoutPlan { set_index, flags, bindings: plans }
}

pub open spec fn layout_supported(l: Map<u32, Map<u32, DescriptorInfoView>>) -> bool {
    forall|s: u32| #[trigger] l.contains_key(s) ==> bindings_supported(l[s])
}

/// `plans` lays out exactly the sets of `l`, one plan per set, in some order.
pub open spec fn set_plans_cover_layout(
    plans: Seq<SetLayoutPlan>,
    l: Map<u32, Map<u32, DescriptorInfoView>>,
    stage_flags: u32,
    set_flags: Seq<(usize, u32)>,
) -> bool {
    &&& plans.len() == l.len()
    &&& forall|i: int|
        0 <= i < plans.len() ==> l.contains_key(#[trigger] plans[i].set_index) && set_plan_matches(
            plans[i],
            plans[i].set_index,
            l[plans[i].set_index],
            stage_flags,
            set_flags,
        )
    &&& forall|i: int, j: int|
        0 <= i < j < plans.len() ==> #[trigger] plans[i].set_index
            != #[trigger] plans[j].set_index
    &&& forall|s: u32|
        #[trigger] l.contains_key(s) ==> exists|i: int|
            0 <= i < plans.len() && #[trigger] plans[i].set_index == s
}

pub open spec fn error_set(e: LayoutError) -> u32 {
    match e {
        LayoutError::UnsupportedDescriptorType { set, .. } => set,
        LayoutError::InvalidSamplerName { set, .. } => set,
    }
}

/// `e` names a binding of `l` that cannot be laid out.
pub open spec fn error_in_layout(e: LayoutError, l: Map<u32, Map<u32, DescriptorInfoView>>) -> bool {
    l.contains_key(error_set(e)) && error_in_set(e, error_set(e), l[error_set(e)])
}


/// Looks for a binding of the stage layout that cannot be laid out: `None`
/// exactly when every binding of every set can be, else an error naming one that
/// cannot.
pub fn find_unsupported_binding(sets: &StageDescriptorSetLayout) -> (r: Option<LayoutError>)
    ensures
        r is None <==> layout_supported(layout_view(*sets)),
        r matches Some(e) ==> error_in_layout(e, layout_view(*sets)),
        r matches Some(e) ==> ({
            let walk = spec_hash_map_iter(sets).remaining();
            exists|i: int|
                0 <= i < walk.len() && *(#[trigger] walk[i]).0 == error_set(e) && forall|j: int|
                    0 <= j < i ==> bindings_supported(bindings_view(*(#[trigger] walk[j]).1))
                    && ({
                    let bwalk = spec_hash_map_iter(walk[i].1).remaining();
                    exists|k: int|
                        0 <= k < bwalk.len() && *(#[trigger] bwalk[k]).0 == error_binding(e)
                            && forall|j: int|
                            0 <= j < k ==> binding_kind((*(#[trigger] bwalk[j]).1)@) is Some
                })
        }),
{
    let ghost lv = layout_view(*sets);
    let ghost m = sets@;
    let ghost seq = spec_hash_map_iter(sets).remaining();
    for entry in it: sets.iter()
        invariant
            lv == layout_view(*sets),
            m == sets@,
            seq == spec_hash_map_iter(sets).remaining(),
            it.seq() == seq,
            forall|i: int| 0 <= i < it.index() ==> bindings_supported(lv[*(#[trigger] seq[i]).0]),
    {
        let (set_index, bindings) = entry;
        assert(m.contains_key(*set_index) && m[*set_index] == *bindings);
        assert(lv[*set_index] == bindings_view(*bindings));
        match find_unsupported_binding_in_set(*set_index, bindings) {
            Some(e) => {
                assert(lv.contains_key(*set_index));
                return Some(e);
            },
            None => {},
        }
    }
    assert forall|s: u32| #[trigger] lv.contains_key(s) implies bindings_supported(lv[s]) by {
        assert(m.contains_key(s));
        assert(seq.contains((&s, &m[s])));
        let i = choose|i: int| 0 <= i < seq.len() && seq[i] == (&s, &m[s]);
        assert(*seq[i].0 == s);
    }
    None
}

/// Plans the descriptor set layouts of a stage layout: one per set, in some
/// order, seen by the stages `stage_flags`, with the creation flags that
/// `set_flags` gives each set. Every binding must be one that can be laid out
/// (see `find_unsupported_binding`).
pub fn plan_descriptor_set_layouts(
    sets: &StageDescriptorSetLayout,
    stage_flags: u32,
    set_flags: &[(usize, u32)],
) -> (r: Vec<SetLayoutPlan>)
    requires
        layout_supported(layout_view(*sets)),
    ensures
        set_plans_cover_layout(r@, layout_view(*sets), stage_flags, set_flags@),
        ({
            let walk = spec_hash_map_iter(sets).remaining();
            &&& r@.len() == walk.len()
            &&& forall|i: int|
                0 <= i < walk.len() ==> (#[trigger] r@[i]).set_index == *walk[i].0 && ({
                    let bwalk = spec_hash_map_iter(walk[i].1).remaining();
                    &&& r@[i].bindings@.len() == bwalk.len()
                    &&& forall|k: int|
                        0 <= k < bwalk.len() ==> binding_plan(
                            *bwalk[k].0,
                            (*bwalk[k].1)@,
                            stage_flags,
                        ) == Some(#[trigger] r@[i].bindings@[k])
                })
        }),
{
    let ghost lv = layout_view(*sets);
    let ghost m = sets@;
    let mut plans: Vec<SetLayoutPlan> = Vec::new();
    for entry in it: sets.iter()
        invariant
            lv == layout_view(*sets),
            layout_supported(lv),
            m == sets@,
            it.seq() == spec_hash_map_iter(sets).remaining(),
            plans@.len() == it.index(),
            forall|i: int|
                0 <= i < it.index() ==> #[trigger] plans@[i].set_index == *it.seq()[i].0
                    && m.contains_key(plans@[i].set_index) && set_plan_matches(
                    plans@[i],
                    plans@[i].set_index,
                    lv[plans@[i].set_index],
                    stage_flags,
                    set_flags@,
                ),
            forall|i: int|
                0 <= i < it.index() ==> ({
                    let bwalk = spec_hash_map_iter(it.seq()[i].1).remaining();
                    &&& (#[trigger] plans@[i]).bindings@.len() == bwalk.len()
                    &&& forall|k: int|
                        0 <= k < bwalk.len() ==> binding_plan(
                            *bwalk[k].0,
                            (*bwalk[k].1)@,
                            stage_flags,
                        ) == Some(#[trigger] plans@[i].bindings@[k])
                }),
    {
        let (set_index, bindings) = entry;
        assert(m.contains_key(*set_index) && m[*set_index] == *bindings);
        assert(lv[*set_index] == bindings_view(*bindings));
        assert(lv.contains_key(*set_index));
        plans.push(plan_descriptor_set_layout(*set_index, bindings, stage_flags, set_flags));
    }
    let ghost seq = spec_hash_map_iter(sets).remaining();
    proof {
        assert(lv.dom() =~= m.dom());
        assert(plans@.len() == lv.len());
        assert forall|i: int, j: int|
            0 <= i < j < plans@.len() implies #[trigger] plans@[i].set_index
            != #[trigger] plans@[j].set_index by {
            if plans@[i].set_index == plans@[j].set_index {
                assert(m.contains_key(*seq[i].0) && m[*seq[i].0] == *seq[i].1);
                assert(m.contains_key(*seq[j].0) && m[*seq[j].0] == *seq[j].1);
                assert(seq[i] == seq[j]);
            }
        }
        assert forall|s: u32| #[trigger] lv.contains_key(s) implies exists|i: int|
            0 <= i < plans@.len() && #[trigger] plans@[i].set_index == s by {
            assert(m.contains_key(s));
            assert(seq.contains((&s, &m[s])));
            let i = choose|i: int| 0 <= i < seq.len() && seq[i] == (&s, &m[s]);
            assert(plans@[i].set_index == s);
        }
    }
    plans
}

/// Creation flags that `extra` would add after `set_flags` never reach set `s`
/// when `set_flags` already names `s` or `extra` does not name it.
pub proof fn lemma_appended_flags_change_nothing(
    set_flags: Seq<(usize, u32)>,
    extra: Seq<(usize, u32)>,
    s: u32,
)
    requires
        (exists|k: int| 0 <= k < set_flags.len() && (#[trigger] set_flags[k]).0 == s as usize)
            || (forall|j: int| 0 <= j < extra.len() ==> (#[trigger] extra[j]).0 != s as usize),
    ensures
        flags_for_set(set_flags + extra, s) == flags_for_set(set_flags, s),
    decreases set_flags.len(),
{
    if set_flags.len() == 0 {
        assert(set_flags + extra =~= extra);
        lemma_flags_absent(extra, s);
    } else {
        assert((set_flags + extra)[0] == set_flags[0]);
        if set_flags[0].0 != s as usize {
            assert((set_flags + extra).drop_first() =~= set_flags.drop_first() + extra);
            if exists|k: int| 0 <= k < set_flags.len() && (#[trigger] set_flags[k]).0 == s as usize {
                let k = choose|k: int| 0 <= k < set_flags.len() && (#[trigger] set_flags[k]).0 == s as usize;
                assert(set_flags.drop_first()[k - 1] == set_flags[k]);
            }
            lemma_appended_flags_change_nothing(set_flags.drop_first(), extra, s);
        }
    }
}

/// A set that no entry names gets no creation flags.
pub proof fn lemma_flags_absent(set_flags: Seq<(usize, u32)>, s: u32)
    requires
        forall|j: int| 0 <= j < set_flags.len() ==> (#[trigger] set_flags[j]).0 != s as usize,
    ensures
        flags_for_set(set_flags, s) == 0,
    decreases set_flags.len(),
{
    if set_flags.len() > 0 {
        assert forall|j: int| 0 <= j < set_flags.drop_first().len() implies (
        #[trigger] set_flags.drop_first()[j]).0 != s as usize by {
            assert(set_flags.drop_first()[j] == set_flags[j + 1]);
        }
        lemma_flags_absent(set_flags.drop_first(), s);
    }
}

/// Appended flags that name no set of the layout, or only sets that `set_flags`
/// already names, leave the flags of every set of the layout as they were.
proof fn lemma_appended_flags_keep_set_flags(
    l: Map<u32, Map<u32, DescriptorInfoView>>,
    set_flags: Seq<(usize, u32)>,
    extra: Seq<(usize, u32)>,
    s: u32,
)
    requires
        forall|j: int|
            0 <= j < extra.len() ==> (forall|s: u32|
                #[trigger] l.contains_key(s) ==> (#[trigger] extra[j]).0 != s as usize) || (
            exists|k: int| 0 <= k < set_flags.len() && (#[trigger] set_flags[k]).0 == extra[j].0),
        l.contains_key(s),
    ensures
        flags_for_set(set_flags + extra, s) == flags_for_set(set_flags, s),
{
    if !exists|k: int| 0 <= k < set_flags.len() && (#[trigger] set_flags[k]).0 == s as usize {
        assert forall|j: int| 0 <= j < extra.len() implies (#[trigger] extra[j]).0 != s as usize by {
            if extra[j].0 == s as usize {
                if exists|k: int| 0 <= k < set_flags.len() && (#[trigger] set_flags[k]).0 == extra[j].0 {
                    let k = choose|k: int|
                        0 <= k < set_flags.len() && (#[trigger] set_flags[k]).0 == extra[j].0;
                    assert(set_flags[k].0 == s as usize);
                }
            }
        }
    }
    lemma_appended_flags_change_nothing(set_flags, extra, s);
}

/// Appending creation flags that name no set of the layout, or only sets that
/// `set_flags` already names, leaves the layout's plans exactly as they were:
/// a plan for one flag list is a plan for the other.
pub proof fn lemma_appended_flags_leave_plans_unchanged(
    plans: Seq<SetLayoutPlan>,
    l: Map<u32, Map<u32, DescriptorInfoView>>,
    stage_flags: u32,
    set_flags: Seq<(usize, u32)>,
    extra: Seq<(usize, u32)>,
)
    requires
        forall|j: int|
            0 <= j < extra.len() ==> (forall|s: u32|
                #[trigger] l.contains_key(s) ==> (#[trigger] extra[j]).0 != s as usize) || (
            exists|k: int| 0 <= k < set_flags.len() && (#[trigger] set_flags[k]).0 == extra[j].0),
    ensures
        set_plans_cover_layout(plans, l, stage_flags, set_flags + extra) == set_plans_cover_layout(
            plans,
            l,
            stage_flags,
            set_flags,
        ),
{
    assert forall|s: u32| #[trigger] l.contains_key(s) implies flags_for_set(set_flags + extra, s)
        == flags_for_set(set_flags, s) by {
        lemma_appended_flags_keep_set_flags(l, set_flags, extra, s);
    }
}

/// On one and the same layout map, two plannings whose flag lists differ only by
/// appended entries that name no set of the layout, or only sets that the first
/// list already names, give the very same plans in the same order: each with the
/// same set, the same flags and the same bindings.
pub proof fn lemma_appended_flags_give_identical_plans(
    sets: &StageDescriptorSetLayout,
    stage_flags: u32,
    set_flags: Seq<(usize, u32)>,
    extra: Seq<(usize, u32)>,
    p1: Seq<SetLayoutPlan>,
    p2: Seq<SetLayoutPlan>,
)
    requires
        forall|j: int|
            0 <= j < extra.len() ==> (forall|s: u32|
                #[trigger] layout_view(*sets).contains_key(s) ==> (#[trigger] extra[j]).0
                    != s as usize) || (exists|k: int|
                0 <= k < set_flags.len() && (#[trigger] set_flags[k]).0 == extra[j].0),
        set_plans_cover_layout(p1, layout_view(*sets), stage_flags, set_flags),
        set_plans_cover_layout(p2, layout_view(*sets), stage_flags, set_flags + extra),
        ({
            let walk = spec_hash_map_iter(sets).remaining();
            &&& p1.len() == walk.len()
            &&& p2.len() == walk.len()
            &&& forall|i: int|
                0 <= i < walk.len() ==> (#[trigger] p1[i]).set_index == *walk[i].0
                    && p2[i].set_index == *walk[i].0 && ({
                    let bwalk = spec_hash_map_iter(walk[i].1).remaining();
                    &&& p1[i].bindings@.len() == bwalk.len()
                    &&& p2[i].bindings@.len() == bwalk.len()
                    &&& forall|k: int|
                        0 <= k < bwalk.len() ==> binding_plan(
                            *bwalk[k].0,
                            (*bwalk[k].1)@,
                            stage_flags,
                        ) == Some(#[trigger] p1[i].bindings@[k]) && binding_plan(
                            *bwalk[k].0,
                            (*bwalk[k].1)@,
                            stage_flags,
                        ) == Some(p2[i].bindings@[k])
                })
        }),
    ensures
        p1.len() == p2.len(),
        forall|i: int|
            0 <= i < p1.len() ==> (#[trigger] p1[i]).set_index == p2[i].set_index && p1[i].flags
                == p2[i].flags && p1[i].bindings@ == p2[i].bindings@,
{
    let walk = spec_hash_map_iter(sets).remaining();
    let l = layout_view(*sets);
    assert forall|i: int| 0 <= i < p1.len() implies (#[trigger] p1[i]).set_index
        == p2[i].set_index && p1[i].flags == p2[i].flags && p1[i].bindings@
        == p2[i].bindings@ by {
        let s = p1[i].set_index;
        assert(l.contains_key(s));
        lemma_appended_flags_keep_set_flags(l, set_flags, extra, s);
        let bwalk = spec_hash_map_iter(walk[i].1).remaining();
        assert forall|k: int| 0 <= k < bwalk.len() implies p1[i].bindings@[k]
            == p2[i].bindings@[k] by {
            assert(binding_plan(*bwalk[k].0, (*bwalk[k].1)@, stage_flags) == Some(
                p1[i].bindings@[k],
            ));
        }
        assert(p1[i].bindings@ =~= p2[i].bindings@);
    }
}

/// A sampler binding gets exactly the sampler its name denotes: whatever the
/// sampler `d`, a `SAMPLER` binding named `sampler_name(d)` has kind `Sampler(d)`,
/// and a `SAMPLER` binding whose name denotes no sampler has no kind.
pub proof fn lemma_sampler_binding_denotes_its_sampler(d: SamplerDesc, is_bindless: bool, name: Seq<char>)
    ensures
        binding_kind(
            DescriptorInfoView { ty: DESCRIPTOR_TYPE_SAMPLER, is_bindless, name: sampler_name(d) },
        ) == Some(BindingKind::Sampler(d)),
        (forall|e: SamplerDesc| name != #[trigger] sampler_name(e)) ==> binding_kind(
            DescriptorInfoView { ty: DESCRIPTOR_TYPE_SAMPLER, is_bindless, name },
        ) is None,
{
    lemma_sampler_name_round_trip(d);
}

/// Each supported descriptor type gets its own binding kind (a uniform buffer is
/// bound with a dynamic offset), whatever the binding's name; every other type
/// has none. The types are Vulkan's `VkDescriptorType` codes: sampler 0, sampled
/// image 2, storage image 3, uniform buffer 6, storage buffer 7.
pub proof fn lemma_binding_kind_by_type(info: DescriptorInfoView)
    ensures
        info.ty == 6 ==> binding_kind(info) == Some(BindingKind::UniformBufferDynamic),
        info.ty == 3 ==> binding_kind(info) == Some(BindingKind::StorageImage),
        info.ty == 7 ==> binding_kind(info) == Some(BindingKind::StorageBuffer),
        info.ty == 2 ==> binding_kind(info) == Some(BindingKind::SampledImage),
        info.ty != 0 && info.ty != 2 && info.ty != 3 && info.ty != 6 && info.ty != 7
            ==> binding_kind(info) is None,
        binding_kind(info) matches Some(BindingKind::Sampler(d)) ==> info.ty == 0 && info.name
            == sampler_name(d),
{
    if info.ty == 0 {
        if let Some(d) = sampler_for_name(info.name) {
            assert(sampler_name(d) == info.name);
        }
    }
}

} // verus!
