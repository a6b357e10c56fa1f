use vstd::prelude::*;
use rand::Rng;

verus! {

/// A `u32` drawn from the thread-local generator of `rand`
/// (`rand::rng().random::<u32>()`, uniform over all values).
///
/// Nothing is stated of the value: it is chance. `rand::rng` panics when the
/// operating system cannot seed the generator, which no `requires` can rule out.
#[verifier::external_body]
pub fn generate_random_u32() -> u32 {
    let mut rng = rand::rng();
    rng.random::<u32>()
}

} // verus!
