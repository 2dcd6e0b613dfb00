//! Giving each quantifier a place on the colour wheel, so that quantifiers
//! with neighbouring indices get colours that are far apart.

use vstd::prelude::*;

verus! {

/// Whether a number is prime.
pub open spec fn prime(n: nat) -> bool {
    n >= 2 && forall|d: nat| 2 <= d < n ==> #[trigger] (n % d) != 0
}

/// `primal::is_prime`: whether the number is prime.
#[verifier::external_body]
fn is_prime(n: u64) -> (r: bool)
    ensures
        r == prime(n as nat),
{
    primal::is_prime(n)
}

/// The smallest prime from which the search for a multiplier starts: the
/// smaller ones do not spread the colours well.
pub const FIRST_PRIME: usize = 13;

/// Whether `p` is a prime, no smaller than 13, that does not divide `n`.
pub open spec fn fits(n: usize, p: usize) -> bool {
    p >= FIRST_PRIME && prime(p as nat) && n % p != 0
}

/// The least prime, no smaller than 13 and below the largest machine word,
/// that does not divide `n`; 1 where there is none, as for 0.
pub open spec fn coprime_of(n: usize) -> usize {
    if exists|p: usize| p < usize::MAX && fits(n, p) {
        choose|p: usize|
            p < usize::MAX && fits(n, p) && forall|q: usize| q < p ==> !#[trigger] fits(n, q)
    } else {
        1
    }
}

/// A prime with nothing below it that fits is the least that fits.
pub proof fn lemma_coprime_of(n: usize, p: usize)
    requires
        p < usize::MAX,
        fits(n, p),
        forall|q: usize| q < p ==> !#[trigger] fits(n, q),
    ensures
        coprime_of(n) == p,
{
}

/// Maps the indices of quantifiers to places on the colour wheel.
#[derive(Debug, Clone, Copy, PartialEq, Eq, Structural)]
pub struct QuantIdxToColourMap {
    pub total_nr_of_quants: usize,
    pub coprime: usize,
    pub shift: usize,
}

impl QuantIdxToColourMap {
    /// The map for a number of quantifiers.
    pub fn from(total_nr_of_quants: usize) -> (r: Self)
        ensures
            r == (QuantIdxToColourMap {
                total_nr_of_quants,
                coprime: coprime_of(total_nr_of_quants),
                shift: 0,
            }),
    {
        QuantIdxToColourMap {
            total_nr_of_quants,
            coprime: Self::find_coprime(total_nr_of_quants),
            shift: 0,
        }
    }

    /// The multiplier for a number of quantifiers.
    pub fn find_coprime(n: usize) -> (r: usize)
        ensures
            r == coprime_of(n),
    {
        if n == 0 {
            return 1;
        }
        let mut p: usize = FIRST_PRIME;
        while p < usize::MAX
            invariant
                FIRST_PRIME <= p <= usize::MAX,
                forall|q: usize| q < p ==> !#[trigger] fits(n, q),
            decreases usize::MAX - p,
        {
            if n % p != 0 && is_prime(p as u64) {
                proof {
                    lemma_coprime_of(n, p);
                }
                return p;
            }
            p += 1;
        }
        1
    }

    /// The place of a quantifier on the wheel, as a number below the number
    /// of quantifiers: the hue is this number divided by theirs.
    pub fn hue_index(&self, qidx: usize) -> (r: usize)
        requires
            self.total_nr_of_quants > 0,
        ensures
            r == (qidx * self.coprime + self.shift) % (self.total_nr_of_quants as int),
    {
        assert(qidx * self.coprime <= 0xffff_ffff_ffff_ffff * 0xffff_ffff_ffff_ffff)
            by (nonlinear_arith)
            requires
                0 <= qidx <= 0xffff_ffff_ffff_ffff,
                0 <= self.coprime <= 0xffff_ffff_ffff_ffff,
        ;
        let product: u128 = (qidx as u128) * (self.coprime as u128);
        let wide: u128 = product + (self.shift as u128);
        (wide % (self.total_nr_of_quants as u128)) as usize
    }
}

} // verus!
