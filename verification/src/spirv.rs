use byte_slice_cast::AsSliceOf;
use vstd::prelude::*;

use crate::descriptor::{layout_view, DescriptorInfo, DescriptorInfoView, StageDescriptorSetLayout};
use crate::module_scan::reflectable;

verus! {

/// The descriptor sets that SPIR-V reflection finds in the module `spirv`, or
/// `None` where reflection reports an error.
pub uninterp spec fn reflected_descriptor_sets(spirv: Seq<u8>) -> Option<
    Map<u32, Map<u32, DescriptorInfoView>>,
>;

/// Calls `rspirv_reflect::Reflection::new_from_spirv` and then
/// `Reflection::get_descriptor_sets` on the result; either error becomes `None`.
/// Trusted: on a module that `reflectable` admits, the two calls return (neither
/// rspirv's parser nor rspirv-reflect reaches one of its panics or recurses
/// without end), and the result is `reflected_descriptor_sets` of the bytes (both
/// calls are pure functions of the module), each `DescriptorInfo` moved over
/// field by field. Left unsaid: rspirv-reflect recurses once per pointer or
/// runtime-array type on a variable's type chain; `reflectable` bounds that chain
/// by the module's instruction count, not by the thread's stack.
#[verifier::external_body]
pub(crate) fn reflect_descriptor_sets(spirv: &[u8]) -> (r: Option<StageDescriptorSetLayout>)
    requires
        reflectable(spirv@),
    ensures
        match r {
            Some(l) => reflected_descriptor_sets(spirv@) == Some(layout_view(l)),
            None => reflected_descriptor_sets(spirv@) is None,
        },
{
    let sets = rspirv_reflect::Reflection::new_from_spirv(spirv).ok()?.get_descriptor_sets().ok()?;
    Some(sets.into_iter().map(|(set, bindings)| (set, bindings.into_iter().map(|(b, d)|
        (b, DescriptorInfo { ty: d.ty.0, is_bindless: d.is_bindless, name: d.name })).collect())).collect())
}

/// The `i`-th 32-bit word of `bytes`, read from bytes `4i..4i+4` least
/// significant byte first (`little_endian`) or most significant byte first.
pub open spec fn word_at(bytes: Seq<u8>, i: int, little_endian: bool) -> u32 {
    let (b0, b1, b2, b3) = if little_endian {
        (bytes[4 * i], bytes[4 * i + 1], bytes[4 * i + 2], bytes[4 * i + 3])
    } else {
        (bytes[4 * i + 3], bytes[4 * i + 2], bytes[4 * i + 1], bytes[4 * i])
    };
    (b0 + b1 * 0x100 + b2 * 0x1_0000 + b3 * 0x100_0000) as u32
}

/// `bytes` read as consecutive 32-bit words in one byte order.
pub open spec fn words_of(bytes: Seq<u8>, little_endian: bool) -> Seq<u32> {
    Seq::new(bytes.len() / 4, |i: int| word_at(bytes, i, little_endian))
}

/// Calls `byte_slice_cast::AsSliceOf::as_slice_of::<u32>` on the module bytes.
/// Trusted: on success the result is the same memory read as 32-bit words, so it
/// holds exactly the words of the bytes, in the machine's byte order (one of the
/// two); a byte count that is not a multiple of four always fails; an empty module
/// never fails. Left unsaid: the cast also fails when the bytes are not 4-byte
/// aligned in memory, which depends on where they lie, and which byte order the
/// machine has.
#[verifier::external_body]
pub(crate) fn spirv_words<'a>(spirv: &'a [u8]) -> (r: Option<&'a [u32]>)
    ensures
        r matches Some(w) ==> w@.len() * 4 == spirv@.len() && exists|le: bool| w@ == words_of(
            spirv@,
            le,
        ),
        spirv@.len() % 4 != 0 ==> r is None,
        spirv@.len() == 0 ==> r is Some,
{
    spirv.as_slice_of::<u32>().ok()
}

} // verus!
