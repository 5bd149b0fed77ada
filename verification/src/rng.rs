//! The engine's only source of randomness: samples drawn from `rand`, and a
//! direction source (`Coin`) that the simulation step consumes so that tests
//! can substitute a fixed sequence of direction bits.

use vstd::prelude::*;

verus! {

/// Relies on `rand::random`: a fresh sample of the standard distribution.
/// Nothing can be promised of the value, so there is no `ensures`.
pub assume_specification<T>[ rand::random::<T> ]() -> (r: T)
    where
        rand::distributions::Standard: rand::distributions::Distribution<T>,
;

/// A source of left/right direction bits for the topple pass. `Random` draws
/// an unbiased coin per call; `Fixed` replays a given sequence (and yields
/// `false` once it is exhausted), which makes the pass deterministic.
pub enum Coin {
    Random,
    Fixed { bits: Vec<bool>, next: usize },
}

/// How one `flip` call relates the coin's old and new state to the bit drawn:
/// a `Random` coin stays `Random` and promises nothing of the bit; a `Fixed`
/// coin yields its next recorded bit and advances.
pub open spec fn flip_post(pre: Coin, post: Coin, b: bool) -> bool {
    match pre {
        Coin::Random => post is Random,
        Coin::Fixed { bits, next } => {
            &&& b == (if next < bits.len() {
                bits[next as int]
            } else {
                false
            })
            &&& post == (Coin::Fixed {
                bits,
                next: if next < bits.len() {
                    (next + 1) as usize
                } else {
                    next
                },
            })
        },
    }
}

impl Coin {
    /// Draw one direction bit: `true` means "try left first".
    pub fn flip(&mut self) -> (b: bool)
        ensures
            flip_post(*old(self), *final(self), b),
    {
        match self {
            Coin::Random => rand::random::<bool>(),
            Coin::Fixed { bits, next } => {
                if *next < bits.len() {
                    let b = bits[*next];
                    *next = *next + 1;
                    b
                } else {
                    false
                }
            },
        }
    }
}

} // verus!
