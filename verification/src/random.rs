use rand::Rng;
use vstd::prelude::*;

verus! {

/// One byte from `rand::thread_rng()`, drawn with `Rng::gen::<u8>()`. Nothing
/// is claimed of the byte: any of the 256 values may come back, and two calls
/// need not agree. (`thread_rng` panics where the operating system cannot
/// seed the generator; nothing that this function is given bears on that.)
#[verifier::external_body]
pub(crate) fn random_byte() -> (byte: u8) {
    let mut rng = rand::thread_rng();
    rng.gen::<u8>()
}

} // verus!
