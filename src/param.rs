//! The ordered alphabet of parameter names.
use vstd::prelude::*;

verus! {

/// How many parameter names the alphabet holds.
pub const PARAMETERS_AMOUNT: usize = 25;

/// The code of the `i`-th parameter name: the lower-case Latin letters
/// in order, `x` left out (it names the free variable).
pub open spec fn name_code(i: int) -> int {
    if i < 23 {
        97 + i
    } else {
        98 + i
    }
}

/// The alphabet of parameter names, in enumeration order.
pub open spec fn alphabet() -> Seq<char> {
    Seq::new(PARAMETERS_AMOUNT as nat, |i: int| (name_code(i) as u8) as char)
}

/// Whether `c` is a parameter name.
pub open spec fn is_param_name(c: char) -> bool {
    alphabet().contains(c)
}

/// The `i`-th parameter name.
pub fn param_name_at(i: usize) -> (c: char)
    requires
        i < PARAMETERS_AMOUNT,
    ensures
        c == alphabet()[i as int],
{
    let code: u8 = if i < 23 {
        97 + i as u8
    } else {
        98 + i as u8
    };
    code as char
}

/// Tells whether `c` is a parameter name.
pub fn param_name_check(c: char) -> (r: bool)
    ensures
        r == is_param_name(c),
{
    let code = c as u32;
    let r = 97 <= code && code <= 122 && code != 120;
    proof {
        if r {
            let i: int = if code < 120 { code - 97 } else { code - 98 };
            assert(alphabet()[i] == c);
        } else {
            assert forall|i: int| 0 <= i < alphabet().len() implies alphabet()[i] != c by {
            }
        }
    }
    r
}

} // verus!
