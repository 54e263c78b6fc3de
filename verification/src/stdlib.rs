use vstd::prelude::*;

verus! {

/// The result of `div`: quotient and remainder.
#[allow(non_camel_case_types)]
pub struct div_t {
    quot: i16,
    rem: i16,
}

/// The result of `ldiv`: quotient and remainder.
#[allow(non_camel_case_types)]
pub struct ldiv_t {
    quot: i32,
    rem: i32,
}

pub const NULL: i16 = 0;

pub const EXIT_FAILURE: i16 = 0;

pub const EXIT_SUCCESS: i16 = 1;

pub const RAND_MAX: usize = 2147483647;

} // verus!
