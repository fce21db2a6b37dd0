//! Naming of the compute-kernel entry points used by an accelerated
//! transform backend. The backend dispatches kernels by name; the name is
//! derived from the transform variant and the field's name.

use vstd::prelude::*;
use vstd::string::*;

verus! {

/// Which FFT kernel layout to dispatch: one threadgroup per transform, or
/// a single transform spread over the grid.
#[derive(Clone, Copy, Debug)]
pub enum FftVariant {
    Multiple,
    Single,
}

/// The name of the FFT kernel variant as spelled in the kernel source.
pub open spec fn variant_name(variant: FftVariant) -> Seq<char> {
    match variant {
        FftVariant::Multiple => "multiple"@,
        FftVariant::Single => "single"@,
    }
}

/// GPU FFT kernel name as declared by the kernel library:
/// `fft_<variant>_<field name>`.
pub fn fft_kernel_name(variant: FftVariant, field_name: &str) -> (r: String)
    ensures
        r@ == "fft_"@ + variant_name(variant) + "_"@ + field_name@,
{
    let mut s = String::from_str("fft_");
    match variant {
        FftVariant::Multiple => s.append("multiple"),
        FftVariant::Single => s.append("single"),
    }
    s.append("_");
    s.append(field_name);
    s
}

} // verus!
