//! Choosing what the graphics device offers: a memory type, a queue family, a device.
use vstd::prelude::*;

verus! {

/// The most memory types a device reports.
pub const MAX_MEMORY_TYPES: usize = 32;

/// The bit of a queue family's flags that marks graphics support.
pub const QUEUE_GRAPHICS_BIT: u32 = 1;

/// The memory type `i`, with the property flags `flags`, is allowed by the requirement bits
/// `bits` and has every property of `props`.
pub open spec fn memory_type_ok(bits: u32, flags: u32, props: u32, i: u32) -> bool {
    (bits & (1u32 << i)) != 0 && (flags & props) == props
}

/// The first memory type allowed by the requirement bits `memory_type_bits` that has every
/// property of `props`, among the memory types whose property flags are `memory_type_flags`.
/// A suitable memory type must exist.
pub fn find_memory_type(memory_type_bits: u32, memory_type_flags: &Vec<u32>, props: u32) -> (r: u32)
    requires
        memory_type_flags@.len() <= MAX_MEMORY_TYPES,
        exists|j: u32| j < memory_type_flags@.len()
            && memory_type_ok(memory_type_bits, #[trigger] memory_type_flags@[j as int], props, j),
    ensures
        r < memory_type_flags@.len(),
        memory_type_ok(memory_type_bits, memory_type_flags@[r as int], props, r),
        forall|j: u32| j < r ==> !memory_type_ok(memory_type_bits, #[trigger] memory_type_flags@[j as int], props, j),
{
    let count = memory_type_flags.len() as u32;
    let mut i: u32 = 0;
    while i < count
        invariant
            count == memory_type_flags@.len() <= MAX_MEMORY_TYPES,
            i <= count,
            forall|j: u32| j < i ==> !memory_type_ok(memory_type_bits, #[trigger] memory_type_flags@[j as int], props, j),
        decreases count - i,
    {
        if (memory_type_bits & (1u32 << i)) != 0 && (memory_type_flags[i as usize] & props) == props {
            return i;
        }
        i = i + 1;
    }
    proof {
        let j = choose|j: u32| j < memory_type_flags@.len()
            && memory_type_ok(memory_type_bits, #[trigger] memory_type_flags@[j as int], props, j);
        assert(j < i);
    }
    0
}

/// The queue family `ind`, with the flags `flags`, supports graphics and presenting to the
/// surface.
pub open spec fn queue_family_ok(flags: u32, supported: bool) -> bool {
    (flags & QUEUE_GRAPHICS_BIT) == QUEUE_GRAPHICS_BIT && supported
}

/// The first queue family that supports graphics and presenting to the surface, among
/// the families with the flags `queue_flags` and the surface support `surface_support`.
pub fn find_queue_families(queue_flags: &Vec<u32>, surface_support: &Vec<bool>) -> (r: Option<u32>)
    requires
        queue_flags@.len() == surface_support@.len(),
        queue_flags@.len() <= u32::MAX,
    ensures
        r matches Some(i) ==> {
            &&& i < queue_flags@.len()
            &&& queue_family_ok(queue_flags@[i as int], surface_support@[i as int])
            &&& forall|j: int| 0 <= j < i ==> !queue_family_ok(#[trigger] queue_flags@[j], surface_support@[j])
        },
        r is None ==> forall|j: int| 0 <= j < queue_flags@.len() ==> !queue_family_ok(#[trigger] queue_flags@[j], surface_support@[j]),
{
    let mut ind: usize = 0;
    while ind < queue_flags.len()
        invariant
            queue_flags@.len() == surface_support@.len() <= u32::MAX,
            ind <= queue_flags@.len(),
            forall|j: int| 0 <= j < ind ==> !queue_family_ok(#[trigger] queue_flags@[j], surface_support@[j]),
        decreases queue_flags@.len() - ind,
    {
        if (queue_flags[ind] & QUEUE_GRAPHICS_BIT) == QUEUE_GRAPHICS_BIT && surface_support[ind] {
            return Some(ind as u32);
        }
        ind = ind + 1;
    }
    None
}

/// An extension named as `name` is among `available`.
pub open spec fn has_ext(available: Seq<String>, name: String) -> bool {
    exists|j: int| 0 <= j < available.len() && (#[trigger] available[j])@ == name@
}

/// Every extension of `required` is among `available`.
pub open spec fn extensions_supported(required: Seq<String>, available: Seq<String>) -> bool {
    forall|i: int| 0 <= i < required.len() ==> has_ext(available, #[trigger] required[i])
}

/// Whether `available` holds an extension named as `name`.
fn has_extension(available: &Vec<String>, name: &String) -> (r: bool)
    ensures
        r == has_ext(available@, *name),
{
    let mut j: usize = 0;
    while j < available.len()
        invariant
            j <= available@.len(),
            forall|j2: int| 0 <= j2 < j ==> (#[trigger] available@[j2])@ != name@,
        decreases available@.len() - j,
    {
        if available[j] == *name {
            return true;
        }
        j = j + 1;
    }
    false
}

/// A device can run the renderer: it supports every required extension, is a discrete
/// GPU, has a queue family for graphics and presenting, offers surface formats and
/// presentation modes, and supports anisotropic sampling.
pub fn is_device_suitable(required_exts: &Vec<String>, available_exts: &Vec<String>, discrete_gpu: bool,
    has_queue_family: bool, has_formats: bool, has_present_modes: bool, sampler_anisotropy: bool) -> (r: bool)
    ensures
        r == (extensions_supported(required_exts@, available_exts@) && discrete_gpu && has_queue_family
            && has_formats && has_present_modes && sampler_anisotropy),
{
    let mut i: usize = 0;
    while i < required_exts.len()
        invariant
            i <= required_exts@.len(),
            forall|i2: int| 0 <= i2 < i ==> has_ext(available_exts@, #[trigger] required_exts@[i2]),
        decreases required_exts@.len() - i,
    {
        if !has_extension(available_exts, &required_exts[i]) {
            return false;
        }
        i = i + 1;
    }
    discrete_gpu && has_queue_family && has_formats && has_present_modes && sampler_anisotropy
}

/// The device the search ends on, among devices of which `suitable` says which can run the
/// renderer: the first suitable one, or else the last one tried; none without devices.
pub fn find_physical_device(suitable: &Vec<bool>) -> (r: Option<usize>)
    ensures
        suitable@.len() == 0 <==> r is None,
        r matches Some(i) ==> i < suitable@.len() && forall|j: int| 0 <= j < i ==> !(#[trigger] suitable@[j]),
        r matches Some(i) ==> suitable@[i as int] || i == suitable@.len() - 1,
{
    let mut i: usize = 0;
    while i < suitable.len()
        invariant
            i <= suitable@.len(),
            forall|j: int| 0 <= j < i ==> !(#[trigger] suitable@[j]),
        decreases suitable@.len() - i,
    {
        if suitable[i] {
            return Some(i);
        }
        i = i + 1;
    }
    if suitable.len() == 0 {
        None
    } else {
        Some(suitable.len() - 1)
    }
}

} // verus!
