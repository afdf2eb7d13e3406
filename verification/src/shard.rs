//! One share of a secret: a cross-section of all the dealer's
//! polynomials at a single non-zero sample point.

use vstd::prelude::*;

use crate::gf::GfElem;

verus! {

/// The ASCII hex digit for a nibble.
pub open spec fn hex_digit(n: u32) -> u8 {
    if n < 10 {
        (0x30 + n) as u8
    } else {
        (0x57 + n) as u8
    }
}

/// The identifier of a shard with abscissa word `x`: the eight ASCII
/// hex digits of `x`, most significant nibble first.
pub open spec fn id_spec(x: u32) -> Seq<u8> {
    seq![
        hex_digit(x / 0x1000_0000),
        hex_digit((x / 0x100_0000) % 16),
        hex_digit((x / 0x10_0000) % 16),
        hex_digit((x / 0x1_0000) % 16),
        hex_digit((x / 0x1000) % 16),
        hex_digit((x / 0x100) % 16),
        hex_digit((x / 0x10) % 16),
        hex_digit(x % 16),
    ]
}

/// One share of the secret. `x` is the sample abscissa (never zero for
/// shards a dealer mints: zero would expose the constant terms), `ys`
/// holds one sample per secret-chunk polynomial in the dealer's order,
/// and `threshold` and `secret_len` carry the metadata recovery needs.
/// A shard is immutable value data; equality is structural.
#[derive(Clone, Debug)]
pub struct Shard {
    /// The sample abscissa shared by every entry of `ys`.
    pub x: GfElem,
    /// The value of the i-th polynomial at `x`, for each i.
    pub ys: Vec<GfElem>,
    /// How many distinct shards recovery requires.
    pub threshold: u32,
    /// The secret's byte length, used to trim chunk padding.
    pub secret_len: usize,
}

impl Shard {
    /// The length of every shard identifier, whatever the secret's size
    /// or the threshold.
    pub const ID_LENGTH: usize = 8;

    /// The stored threshold.
    pub fn threshold(&self) -> (r: u32)
        ensures
            r == self.threshold,
    {
        self.threshold
    }

    /// A fixed-length identifier derived deterministically from the
    /// sample abscissa, so that shards can be recognised as the same
    /// sample without comparing their full contents.
    pub fn id(&self) -> (r: Vec<u8>)
        ensures
            r@ == id_spec(self.x.0),
            r@.len() == Shard::ID_LENGTH,
    {
        let x: u32 = self.x.0;
        let mut out: Vec<u8> = Vec::new();
        out.push(hex_digit_exec(x / 0x1000_0000));
        out.push(hex_digit_exec((x / 0x100_0000) % 16));
        out.push(hex_digit_exec((x / 0x10_0000) % 16));
        out.push(hex_digit_exec((x / 0x1_0000) % 16));
        out.push(hex_digit_exec((x / 0x1000) % 16));
        out.push(hex_digit_exec((x / 0x100) % 16));
        out.push(hex_digit_exec((x / 0x10) % 16));
        out.push(hex_digit_exec(x % 16));
        proof {
            assert(out@ =~= id_spec(self.x.0));
        }
        out
    }

    /// Structural equality of shards, as a spec.
    pub open spec fn eq_spec(&self, other: &Shard) -> bool {
        self.x == other.x && self.ys@ == other.ys@ && self.threshold == other.threshold
            && self.secret_len == other.secret_len
    }
}

impl PartialEq for Shard {
    /// Structural equality: same abscissa, samples, threshold and
    /// secret length.
    fn eq(&self, other: &Shard) -> (r: bool) {
        if !(self.x.0 == other.x.0 && self.threshold == other.threshold && self.secret_len
            == other.secret_len && self.ys.len() == other.ys.len()) {
            return false;
        }
        let n: usize = self.ys.len();
        let mut i: usize = 0;
        while i < n
            invariant
                i <= n,
                n == self.ys@.len(),
                n == other.ys@.len(),
                forall|j: int| 0 <= j < i ==> self.ys@[j] == other.ys@[j],
            decreases n - i,
        {
            if self.ys[i].0 != other.ys[i].0 {
                return false;
            }
            i = i + 1;
        }
        proof {
            assert(self.ys@ =~= other.ys@);
        }
        true
    }
}

impl vstd::std_specs::cmp::PartialEqSpecImpl for Shard {
    open spec fn obeys_eq_spec() -> bool {
        true
    }

    open spec fn eq_spec(&self, other: &Shard) -> bool {
        Shard::eq_spec(self, other)
    }
}

impl Eq for Shard {

}

/// The ASCII hex digit for a nibble.
fn hex_digit_exec(n: u32) -> (r: u8)
    requires
        n < 16,
    ensures
        r == hex_digit(n),
{
    if n < 10 {
        (0x30 + n) as u8
    } else {
        (0x57 + n) as u8
    }
}

} // verus!
