//! Mutation of a compressed image for the fuzzer.
//!
//! Only the payload is mutated. The extents, which say where the payload
//! belongs, the base image and the node size stay as they are, so that
//! every mutation is again an image that can be rebuilt.

use crate::imgcompress::CompressedBtrfsImage;
use fuzzmutator::mutator::MutatorEngine;
use vstd::prelude::*;

verus! {

/// The mutation engine. Its contents are not looked at.
#[verifier::external_type_specification]
#[verifier::external_body]
pub struct ExMutatorEngine(MutatorEngine);

/// Why no mutator could be made.
#[derive(Clone, Copy, Debug, PartialEq, Eq, Structural)]
pub enum MutatorError {
    /// The operating system gives no random numbers.
    NoRandomness,
}

/// Longest payload that the engine is handed: it counts the bits of the
/// payload in a machine word.
pub open spec fn max_payload() -> nat {
    (usize::MAX / 8) as nat
}

/// Calls `MutatorEngine::new`, which opens the random number generator of
/// the operating system. Nothing is claimed of the outcome.
#[verifier::external_body]
pub(crate) fn engine_new() -> Result<MutatorEngine, std::io::Error> {
    MutatorEngine::new()
}

/// Calls `MutatorEngine::mutate`, which applies one kind of mutation,
/// chosen at random, to `data`. Claims of the length alone: the engine
/// flips, overwrites and copies bytes in place and never removes one; it
/// appends only to a payload of fewer than two bytes, which is too short
/// for its mutations. Nothing is claimed of the bytes.
#[verifier::external_body]
pub(crate) fn engine_mutate(engine: &mut MutatorEngine, data: &mut Vec<u8>)
    requires
        old(data)@.len() <= max_payload(),
    ensures
        final(data)@.len() >= old(data)@.len(),
        old(data)@.len() >= 2 ==> final(data)@.len() == old(data)@.len(),
{
    engine.mutate(data)
}

/// A mutator instance with its engine.
pub struct Mutator {
    engine: MutatorEngine,
}

impl Mutator {
    /// Sets the engine up. Whether that succeeds is for the operating
    /// system to decide.
    pub fn new() -> (made: Result<Self, MutatorError>)
        ensures
            made matches Err(e) ==> e == MutatorError::NoRandomness,
    {
        Self::from_engine(engine_new())
    }

    /// The engine of the mutator.
    pub closed spec fn engine(&self) -> MutatorEngine {
        self.engine
    }

    /// Makes a mutator of what setting the engine up gave: a mutator with
    /// that engine, or `NoRandomness` where there is none.
    pub fn from_engine(engine: Result<MutatorEngine, std::io::Error>) -> (made: Result<Self, MutatorError>)
        ensures
            match engine {
                Ok(e) => made matches Ok(mutator) && mutator.engine() == e,
                Err(_) => made == Err::<Self, MutatorError>(MutatorError::NoRandomness),
            },
    {
        match engine {
            Ok(engine) => Ok(Mutator { engine }),
            Err(_) => Err(MutatorError::NoRandomness),
        }
    }

    /// Mutates the payload of `image` and nothing else. The payload keeps
    /// its length, but that one of fewer than two bytes may grow. A payload
    /// of more than `max_payload()` bytes is left as it is. Returns whether
    /// payload and extents together stay within `max_size`, the bound that
    /// the fuzzer sets for its test cases.
    pub fn fuzz(&mut self, image: &mut CompressedBtrfsImage, max_size: usize) -> (fits: bool)
        ensures
            final(image)@.metadata == old(image)@.metadata,
            final(image)@.base == old(image)@.base,
            final(image)@.node_size == old(image)@.node_size,
            old(image)@.data.len() > max_payload() ==> final(image)@.data == old(image)@.data,
            final(image)@.data.len() >= old(image)@.data.len(),
            old(image)@.data.len() >= 2 ==> final(image)@.data.len() == old(image)@.data.len(),
            fits == (final(image)@.data.len() + final(image)@.metadata.len() <= max_size),
    {
        let mut data = image.take_data();
        if data.len() <= usize::MAX / 8 {
            engine_mutate(&mut self.engine, &mut data);
        }
        let data_len = data.len();
        image.set_data(data);
        let extents = image.extent_count();
        data_len <= max_size && extents <= max_size - data_len
    }
}

} // verus!
