//! The dealer: splits a secret into shards and reconstructs it.
//!
//! The secret is chunked into 4-byte field elements; each chunk becomes
//! the constant term of a fresh random polynomial of degree
//! `threshold - 1`. A shard samples every polynomial at one shared
//! non-zero abscissa. Exactly `threshold` mutually consistent shards
//! with distinct abscissae reconstruct either the bare secret (the fast
//! Lagrange path) or a whole dealer (the slow barycentric path, needed
//! only to mint further shards).

use vstd::prelude::*;

use crate::Error;
use crate::gf::{GfElem, word_at, word_at_spec, bytes_of, lemma_word_at_bytes};
use crate::poly::{GfPoly, lagrange_constant, vals, distinct, lagrange_zero, bary_weights};
use crate::shard::Shard;

verus! {

/// How many 4-byte chunks a secret of `n` bytes occupies.
pub open spec fn chunk_count(n: int) -> int {
    (n + 3) / 4
}

/// The chunk words of a secret, little-endian, the last chunk
/// zero-padded.
pub open spec fn chunks_of(s: Seq<u8>) -> Seq<u32> {
    Seq::new(chunk_count(s.len() as int) as nat, |i: int| word_at_spec(s, i))
}

/// The byte serialisation of a word sequence: 4 little-endian bytes per
/// word, in order.
pub open spec fn words_bytes(ws: Seq<u32>) -> Seq<u8> {
    Seq::new(ws.len() * 4, |i: int| bytes_of(ws[i / 4])[i % 4])
}

/// `bytes` cut down to `len` bytes, if it is that long.
pub open spec fn trimmed(bytes: Seq<u8>, len: int) -> Seq<u8> {
    if 0 <= len <= bytes.len() {
        bytes.take(len)
    } else {
        bytes
    }
}

/// Chunking a secret into words and serialising the words again gives
/// the secret back, once the padding of the last chunk is trimmed.
pub proof fn lemma_chunks_round_trip(s: Seq<u8>)
    ensures
        words_bytes(chunks_of(s)).len() >= s.len(),
        trimmed(words_bytes(chunks_of(s)), s.len() as int) == s,
{
    let n: int = s.len() as int;
    let cc: int = chunk_count(n);
    assert(4 * cc >= n) by {
        vstd::arithmetic::div_mod::lemma_fundamental_div_mod(n + 3, 4);
    }
    let ws = chunks_of(s);
    let all = words_bytes(ws);
    assert(all.len() == 4 * cc);
    assert forall|i: int| 0 <= i < n implies all[i] == s[i] by {
        vstd::arithmetic::div_mod::lemma_fundamental_div_mod(i, 4);
        assert(0 <= i / 4 < cc);
        lemma_word_at_bytes(s, i / 4, i % 4);
        assert(all[i] == bytes_of(ws[i / 4])[i % 4]);
        assert(4 * (i / 4) + i % 4 == i);
    }
    assert(trimmed(all, n) =~= s);
}

/// Bytes pushed in groups of four land in the chunk of their word:
/// position 4*base + t unpacks to word `base`, byte `t`.
proof fn lemma_chunk_index(base: int, t: int)
    requires
        0 <= base,
        0 <= t < 4,
    ensures
        (4 * base + t) / 4 == base,
        (4 * base + t) % 4 == t,
{
    vstd::arithmetic::div_mod::lemma_fundamental_div_mod_converse(4 * base + t, 4, base, t);
}

/// All shards agree with the first on threshold, sample count and
/// secret length.
pub open spec fn consistent(ss: Seq<Shard>) -> bool {
    forall|i: int| 0 <= i < ss.len() ==> (#[trigger] ss[i]).threshold == ss[0].threshold
        && ss[i].ys@.len() == ss[0].ys@.len() && ss[i].secret_len == ss[0].secret_len
}

/// The sample abscissae of a shard set, in order.
pub open spec fn shard_xs(ss: Seq<Shard>) -> Seq<u32> {
    Seq::new(ss.len(), |i: int| ss[i].x.0)
}

/// The samples of the j-th polynomial across a shard set, in order.
pub open spec fn shard_ys(ss: Seq<Shard>, j: int) -> Seq<u32> {
    Seq::new(ss.len(), |i: int| ss[i].ys@[j].0)
}

/// The chunk words a consistent shard set recovers: for each
/// polynomial index, the Lagrange value at zero of its samples.
pub open spec fn recovered_words(ss: Seq<Shard>) -> Seq<u32> {
    Seq::new(ss[0].ys@.len(), |j: int| lagrange_zero(shard_xs(ss), shard_ys(ss, j)))
}

/// The secret a consistent shard set recovers: the recovered chunk
/// words, serialised and trimmed to the recorded secret length.
pub open spec fn recovered_secret_spec(ss: Seq<Shard>) -> Seq<u8> {
    trimmed(words_bytes(recovered_words(ss)), ss[0].secret_len as int)
}

/// Factory to share a secret by Shamir secret sharing: one random
/// polynomial per 4-byte chunk of the secret, sampled shard by shard.
#[derive(Clone, Debug)]
pub struct Dealer {
    polys: Vec<GfPoly>,
    secret_len: usize,
    threshold: u32,
}

impl Dealer {
    /// The number of distinct shards needed to recover the secret.
    pub closed spec fn threshold_spec(&self) -> u32 {
        self.threshold
    }

    /// The byte length of the stored secret.
    pub closed spec fn secret_len_spec(&self) -> int {
        self.secret_len as int
    }

    /// The polynomials, one per secret chunk.
    pub closed spec fn polys_spec(&self) -> Seq<GfPoly> {
        self.polys@
    }

    /// The constant terms of the polynomials: the secret's chunk words.
    pub open spec fn constants_spec(&self) -> Seq<u32> {
        Seq::new(self.polys_spec().len(), |i: int| self.polys_spec()[i].constant_spec())
    }

    /// Every polynomial is sound and sized to the threshold, which is
    /// at least one.
    pub open spec fn wf(&self) -> bool {
        self.threshold_spec() >= 1 && forall|i: int| 0 <= i < self.polys_spec().len() ==> (
        #[trigger] self.polys_spec()[i]).wf() && self.polys_spec()[i].size_spec()
            == self.threshold_spec()
    }

    /// The secret the dealer stores: its polynomials' constant terms,
    /// serialised and trimmed to the stored length.
    pub open spec fn secret_spec(&self) -> Seq<u8> {
        trimmed(words_bytes(self.constants_spec()), self.secret_len_spec())
    }

    /// The value of every polynomial at the abscissa `x`, in order: the
    /// samples a shard at `x` carries.
    pub open spec fn shard_values_spec(&self, x: u32) -> Seq<u32> {
        Seq::new(self.polys_spec().len(), |i: int| self.polys_spec()[i].eval_spec(x))
    }

    /// The number of distinct shards required to recover the secret.
    pub fn threshold(&self) -> (r: u32)
        ensures
            r == self.threshold_spec(),
    {
        self.threshold
    }

    /// Split `secret` so that `threshold` shards reconstruct it: one
    /// fresh random polynomial per 4-byte chunk, with the chunk as its
    /// constant term. A threshold of zero is refused; nothing else
    /// fails. The returned dealer stores exactly `secret`.
    pub fn new(threshold: u32, secret: &[u8]) -> (r: Result<Dealer, Error>)
        ensures
            threshold == 0 ==> r == Err::<Dealer, Error>(Error::InvalidConfiguration),
            threshold >= 1 ==> (r matches Ok(d) && d.wf() && d.threshold_spec() == threshold
                && d.secret_len_spec() == secret@.len() && d.constants_spec() == chunks_of(secret@)
                && d.secret_spec() == secret@ && (forall|i: int| 0 <= i < d.polys_spec().len()
                ==> (#[trigger] d.polys_spec()[i]) is Dense)),
    {
        if threshold == 0 {
            return Err(Error::InvalidConfiguration);
        }
        let len: usize = secret.len();
        let n: usize = len / 4 + if len % 4 != 0 { 1 } else { 0 };
        proof {
            vstd::arithmetic::div_mod::lemma_fundamental_div_mod(len as int, 4);
            vstd::arithmetic::div_mod::lemma_fundamental_div_mod(len as int + 3, 4);
            assert(n == chunk_count(len as int));
        }
        let mut polys: Vec<GfPoly> = Vec::new();
        let mut i: usize = 0;
        while i < n
            invariant
                i <= n,
                threshold >= 1,
                len == secret@.len(),
                n == chunk_count(len as int),
                4 * n < len + 4,
                polys@.len() == i,
                forall|j: int| 0 <= j < i ==> (#[trigger] polys@[j]).wf() && polys@[j].size_spec()
                    == threshold && polys@[j].constant_spec() == word_at_spec(secret@, j)
                    && polys@[j] is Dense,
            decreases n - i,
        {
            assert(4 * i < len);
            let w: u32 = word_at(secret, i);
            let p = GfPoly::new_rand(threshold, GfElem(w));
            polys.push(p);
            i = i + 1;
        }
        let d = Dealer { polys, secret_len: len, threshold };
        proof {
            assert(d.constants_spec() =~= chunks_of(secret@));
            lemma_chunks_round_trip(secret@);
        }
        Ok(d)
    }

    /// The secret the dealer stores: each polynomial's constant term,
    /// truncated to the original byte length. Never fails.
    pub fn secret(&self) -> (r: Vec<u8>)
        requires
            self.wf(),
        ensures
            r@ == self.secret_spec(),
    {
        let n: usize = self.polys.len();
        let ghost cs = self.constants_spec();
        let mut out: Vec<u8> = Vec::new();
        let mut i: usize = 0;
        while i < n
            invariant
                i <= n,
                self.wf(),
                n == self.polys_spec().len(),
                cs == self.constants_spec(),
                out@.len() == 4 * i,
                forall|k: int| 0 <= k < 4 * i ==> out@[k] == bytes_of(cs[k / 4])[k % 4],
            decreases n - i,
        {
            let c = self.polys[i].constant();
            let w: u32 = c.0;
            out.push((w % 0x100) as u8);
            out.push(((w / 0x100) % 0x100) as u8);
            out.push(((w / 0x1_0000) % 0x100) as u8);
            out.push(((w / 0x100_0000) % 0x100) as u8);
            proof {
                lemma_chunk_index(i as int, 0);
                lemma_chunk_index(i as int, 1);
                lemma_chunk_index(i as int, 2);
                lemma_chunk_index(i as int, 3);
            }
            i = i + 1;
        }
        proof {
            assert(out@ =~= words_bytes(cs));
        }
        take_prefix(out, self.secret_len)
    }

    /// The shard sampling every polynomial at the given abscissa, or
    /// nothing for the zero abscissa: a sample at zero would be the
    /// constant terms themselves, i.e. the bare secret.
    pub fn shard(&self, x: GfElem) -> (r: Option<Shard>)
        requires
            self.wf(),
        ensures
            x.0 == 0 ==> r is None,
            x.0 != 0 ==> (r matches Some(sh) && sh.x == x && sh.threshold == self.threshold_spec()
                && sh.secret_len == self.secret_len_spec() && vals(sh.ys@)
                == self.shard_values_spec(x.0)),
    {
        if x.0 == 0 {
            return None;
        }
        let n: usize = self.polys.len();
        let mut ys: Vec<GfElem> = Vec::new();
        let mut i: usize = 0;
        while i < n
            invariant
                i <= n,
                self.wf(),
                n == self.polys_spec().len(),
                ys@.len() == i,
                forall|j: int| 0 <= j < i ==> ys@[j].0 == self.polys_spec()[j].eval_spec(x.0),
            decreases n - i,
        {
            let y = self.polys[i].evaluate(x);
            ys.push(y);
            i = i + 1;
        }
        let sh = Shard { x, ys, threshold: self.threshold, secret_len: self.secret_len };
        proof {
            assert(vals(sh.ys@) =~= self.shard_values_spec(x.0));
        }
        Some(sh)
    }

    /// Mint a new shard at a uniformly random non-zero abscissa. Two
    /// calls may by chance pick the same abscissa (probability about
    /// calls^2 / 2^32): the caller must make sure it holds enough
    /// distinct shards.
    pub fn next_shard(&self) -> (r: Shard)
        requires
            self.wf(),
        ensures
            r.x.0 != 0,
            r.threshold == self.threshold_spec(),
            r.secret_len == self.secret_len_spec(),
            vals(r.ys@) == self.shard_values_spec(r.x.0),
    {
        let mut x: u32 = crate::gf::random_u32();
        let mut tries: u32 = 0;
        while x == 0 && tries < 64
            decreases 64 - tries,
        {
            x = crate::gf::random_u32();
            tries = tries + 1;
        }
        if x == 0 {
            // Unreachable in practice (probability 2^-2080); keeps the
            // abscissa non-zero and the loop bounded.
            x = 1;
        }
        self.shard(GfElem(x)).unwrap()
    }

    /// Reconstruct a whole dealer, able to mint further shards, from
    /// exactly `threshold` mutually consistent shards with distinct
    /// abscissae, by full barycentric interpolation of every
    /// polynomial. Markedly more expensive than `recover_secret`: use
    /// it only when more shards must be minted.
    pub fn recover(shards: &[Shard]) -> (r: Result<Dealer, Error>)
        ensures
            shards@.len() == 0 ==> r == Err::<Dealer, Error>(Error::WrongShardCount),
            shards@.len() > 0 && !consistent(shards@) ==> r == Err::<Dealer, Error>(
                Error::InconsistentShardSet),
            shards@.len() > 0 && consistent(shards@) && shards@.len() != shards@[0].threshold
                ==> r == Err::<Dealer, Error>(Error::WrongShardCount),
            shards@.len() > 0 && consistent(shards@) && shards@.len() == shards@[0].threshold
                && shards@[0].ys@.len() > 0 && !distinct(shard_xs(shards@)) ==> r == Err::<
                Dealer, Error>(Error::InterpolationFailure),
            shards@.len() > 0 && consistent(shards@) && shards@.len() == shards@[0].threshold && (
            shards@[0].ys@.len() == 0 || distinct(shard_xs(shards@))) ==> (r matches Ok(d)
                && d.wf() && d.threshold_spec() == shards@[0].threshold && d.secret_len_spec()
                == shards@[0].secret_len && d.polys_spec().len() == shards@[0].ys@.len()
                && (forall|j: int| 0 <= j < d.polys_spec().len()
                ==> ((#[trigger] d.polys_spec()[j]) matches GfPoly::Barycentric { xs, ys, ws }
                && vals(xs@) == shard_xs(shards@) && vals(ys@) == shard_ys(shards@, j)
                && vals(ws@) == bary_weights(shard_xs(shards@))))),
    {
        let n: usize = shards.len();
        if n == 0 {
            return Err(Error::WrongShardCount);
        }
        if let Some(e) = check_consistent(shards) {
            return Err(e);
        }
        let threshold: u32 = shards[0].threshold;
        if n as u64 != threshold as u64 {
            return Err(Error::WrongShardCount);
        }
        let k: u32 = threshold - 1;
        let ys_len: usize = shards[0].ys.len();
        let mut polys: Vec<GfPoly> = Vec::new();
        let mut j: usize = 0;
        while j < ys_len
            invariant
                j <= ys_len,
                n == shards@.len(),
                n >= 1,
                consistent(shards@),
                threshold == shards@[0].threshold,
                n == threshold,
                k == threshold - 1,
                ys_len == shards@[0].ys@.len(),
                j > 0 ==> distinct(shard_xs(shards@)),
                polys@.len() == j,
                forall|q: int| 0 <= q < j ==> (#[trigger] polys@[q]).wf() && polys@[q].size_spec()
                    == threshold && (polys@[q] matches GfPoly::Barycentric { xs, ys, ws }
                    && vals(xs@) == shard_xs(shards@) && vals(ys@) == shard_ys(shards@, q)
                    && vals(ws@) == bary_weights(shard_xs(shards@))),
            decreases ys_len - j,
        {
            let points = sample_points(shards, j);
            match GfPoly::recover(k, points.as_slice()) {
                Ok(p) => {
                    polys.push(p);
                },
                Err(_) => {
                    return Err(Error::InterpolationFailure);
                },
            }
            j = j + 1;
        }
        let d = Dealer { polys, secret_len: shards[0].secret_len, threshold };
        Ok(d)
    }
}

/// Threshold sufficiency at threshold one: a single shard minted by a
/// fresh dealer recovers exactly the dealer's secret. (For larger
/// thresholds the same claim additionally rests on the field's
/// multiplicative-inverse law, which this library does not prove.)
pub proof fn lemma_threshold_one_sufficiency(d: Dealer, sh: Shard)
    requires
        d.wf(),
        d.threshold_spec() == 1,
        forall|i: int| 0 <= i < d.polys_spec().len() ==> (#[trigger] d.polys_spec()[i]) is Dense,
        sh.threshold == 1,
        sh.secret_len == d.secret_len_spec(),
        vals(sh.ys@) == d.shard_values_spec(sh.x.0),
    ensures
        consistent(seq![sh]),
        distinct(shard_xs(seq![sh])),
        recovered_secret_spec(seq![sh]) == d.secret_spec(),
{
    let ss = seq![sh];
    let n: int = d.polys_spec().len() as int;
    assert(vals(sh.ys@).len() == sh.ys@.len());
    assert(d.shard_values_spec(sh.x.0).len() == n);
    assert(sh.ys@.len() == n);
    let rw = recovered_words(ss);
    assert forall|j: int| 0 <= j < n implies rw[j] == d.constants_spec()[j] by {
        assert(shard_xs(ss).len() == 1);
        assert(shard_ys(ss, j).len() == 1);
        crate::poly::lemma_lagrange_single(shard_xs(ss), shard_ys(ss, j));
        assert(rw[j] == shard_ys(ss, j)[0]);
        assert(shard_ys(ss, j)[0] == sh.ys@[j].0);
        assert(sh.ys@[j].0 == vals(sh.ys@)[j]);
        assert(vals(sh.ys@)[j] == d.polys_spec()[j].eval_spec(sh.x.0));
        crate::poly::lemma_degree_zero_eval(d.polys_spec()[j], sh.x.0);
    }
    assert(rw =~= d.constants_spec());
}

/// A dealer rebuilt by `Dealer::recover` agrees with every shard it
/// was built from: sampled at that shard's abscissa it reproduces the
/// shard's values exactly. (Agreement at every other abscissa, and so
/// with the dealer the shards came from, additionally rests on the
/// field's multiplicative-inverse law, which this library does not
/// prove.)
pub proof fn lemma_recovered_agrees_on_samples(d: Dealer, ss: Seq<Shard>, i: int)
    requires
        0 <= i < ss.len(),
        consistent(ss),
        distinct(shard_xs(ss)),
        d.polys_spec().len() == ss[0].ys@.len(),
        forall|j: int| 0 <= j < d.polys_spec().len()
            ==> ((#[trigger] d.polys_spec()[j]) matches GfPoly::Barycentric { xs, ys, ws }
            && vals(xs@) == shard_xs(ss) && vals(ys@) == shard_ys(ss, j)),
    ensures
        d.shard_values_spec(ss[i].x.0) == vals(ss[i].ys@),
{
    let x: u32 = ss[i].x.0;
    let n: int = d.polys_spec().len() as int;
    assert forall|j: int| 0 <= j < n implies d.shard_values_spec(x)[j] == ss[i].ys@[j].0 by {
        let p = d.polys_spec()[j];
        match p {
            GfPoly::Barycentric { xs, ys, ws } => {
                assert(shard_xs(ss)[i] == x);
                crate::poly::lemma_bary_at_sample(vals(xs@), vals(ys@), vals(ws@), i);
                assert(shard_ys(ss, j)[i] == ss[i].ys@[j].0);
            },
            GfPoly::Dense { .. } => {
                assert(false);
            },
        }
    }
    assert(vals(ss[i].ys@).len() == ss[i].ys@.len());
    assert(ss[i].ys@.len() == ss[0].ys@.len());
    assert(d.shard_values_spec(x) =~= vals(ss[i].ys@));
}

/// Reconstruct only the secret from exactly `threshold` mutually
/// consistent shards with distinct abscissae: per polynomial index, the
/// fast Lagrange recovery of the constant term. Markedly cheaper than
/// `Dealer::recover`; the default reconstruction path.
pub fn recover_secret(shards: &[Shard]) -> (r: Result<Vec<u8>, Error>)
    ensures
        shards@.len() == 0 ==> r == Err::<Vec<u8>, Error>(Error::WrongShardCount),
        shards@.len() > 0 && !consistent(shards@) ==> r == Err::<Vec<u8>, Error>(
            Error::InconsistentShardSet),
        shards@.len() > 0 && consistent(shards@) && shards@.len() != shards@[0].threshold ==> r
            == Err::<Vec<u8>, Error>(Error::WrongShardCount),
        shards@.len() > 0 && consistent(shards@) && shards@.len() == shards@[0].threshold
            && shards@[0].ys@.len() > 0 && !distinct(shard_xs(shards@)) ==> r == Err::<
            Vec<u8>, Error>(Error::InterpolationFailure),
        shards@.len() > 0 && consistent(shards@) && shards@.len() == shards@[0].threshold && (
        shards@[0].ys@.len() == 0 || distinct(shard_xs(shards@))) ==> (r matches Ok(s) && s@
            == recovered_secret_spec(shards@)),
{
    let n: usize = shards.len();
    if n == 0 {
        return Err(Error::WrongShardCount);
    }
    if let Some(e) = check_consistent(shards) {
        return Err(e);
    }
    let threshold: u32 = shards[0].threshold;
    if n as u64 != threshold as u64 {
        return Err(Error::WrongShardCount);
    }
    let k: u32 = threshold - 1;
    let ys_len: usize = shards[0].ys.len();
    let ghost rwords = recovered_words(shards@);
    let mut out: Vec<u8> = Vec::new();
    let mut j: usize = 0;
    while j < ys_len
        invariant
            j <= ys_len,
            n == shards@.len(),
            n >= 1,
            consistent(shards@),
            threshold == shards@[0].threshold,
            n == threshold,
            k == threshold - 1,
            ys_len == shards@[0].ys@.len(),
            rwords == recovered_words(shards@),
            j > 0 ==> distinct(shard_xs(shards@)),
            out@.len() == 4 * j,
            forall|t: int| 0 <= t < 4 * j ==> out@[t] == bytes_of(rwords[t / 4])[t % 4],
        decreases ys_len - j,
    {
        let points = sample_points(shards, j);
        match lagrange_constant(k, points.as_slice()) {
            Ok(c) => {
                let w: u32 = c.0;
                proof {
                    assert(rwords[j as int] == lagrange_zero(shard_xs(shards@), shard_ys(
                        shards@, j as int)));
                }
                out.push((w % 0x100) as u8);
                out.push(((w / 0x100) % 0x100) as u8);
                out.push(((w / 0x1_0000) % 0x100) as u8);
                out.push(((w / 0x100_0000) % 0x100) as u8);
                proof {
                    lemma_chunk_index(j as int, 0);
                    lemma_chunk_index(j as int, 1);
                    lemma_chunk_index(j as int, 2);
                    lemma_chunk_index(j as int, 3);
                }
            },
            Err(_) => {
                return Err(Error::InterpolationFailure);
            },
        }
        j = j + 1;
    }
    proof {
        assert(out@ =~= words_bytes(rwords));
    }
    Ok(take_prefix(out, shards[0].secret_len))
}

/// Whether all shards agree with the first on threshold, sample count
/// and secret length; the error to report if not.
fn check_consistent(shards: &[Shard]) -> (r: Option<Error>)
    requires
        shards@.len() >= 1,
    ensures
        r is None <==> consistent(shards@),
        !consistent(shards@) ==> r == Some(Error::InconsistentShardSet),
{
    let n: usize = shards.len();
    let threshold: u32 = shards[0].threshold;
    let ys_len: usize = shards[0].ys.len();
    let secret_len: usize = shards[0].secret_len;
    let mut i: usize = 1;
    while i < n
        invariant
            1 <= i <= n,
            n == shards@.len(),
            threshold == shards@[0].threshold,
            ys_len == shards@[0].ys@.len(),
            secret_len == shards@[0].secret_len,
            forall|p: int| 0 <= p < i ==> (#[trigger] shards@[p]).threshold == threshold
                && shards@[p].ys@.len() == ys_len && shards@[p].secret_len == secret_len,
        decreases n - i,
    {
        if shards[i].threshold != threshold || shards[i].ys.len() != ys_len || shards[i].secret_len
            != secret_len {
            return Some(Error::InconsistentShardSet);
        }
        i = i + 1;
    }
    None
}

/// The (x, y) sample points of the j-th polynomial across a shard set.
fn sample_points(shards: &[Shard], j: usize) -> (r: Vec<(GfElem, GfElem)>)
    requires
        consistent(shards@),
        shards@.len() >= 1,
        j < shards@[0].ys@.len(),
    ensures
        r@.len() == shards@.len(),
        crate::poly::pts_xs(r@) == shard_xs(shards@),
        crate::poly::pts_ys(r@) == shard_ys(shards@, j as int),
{
    let n: usize = shards.len();
    let mut points: Vec<(GfElem, GfElem)> = Vec::new();
    let mut i: usize = 0;
    while i < n
        invariant
            i <= n,
            n == shards@.len(),
            consistent(shards@),
            j < shards@[0].ys@.len(),
            points@.len() == i,
            forall|p: int| 0 <= p < i ==> (#[trigger] points@[p]).0 == shards@[p].x && points@[p].1
                == shards@[p].ys@[j as int],
        decreases n - i,
    {
        points.push((shards[i].x, shards[i].ys[j]));
        i = i + 1;
    }
    proof {
        assert(crate::poly::pts_xs(points@) =~= shard_xs(shards@));
        assert(crate::poly::pts_ys(points@) =~= shard_ys(shards@, j as int));
    }
    points
}

/// The first `len` bytes of `bytes`, or all of it if shorter.
fn take_prefix(bytes: Vec<u8>, len: usize) -> (r: Vec<u8>)
    ensures
        r@ == trimmed(bytes@, len as int),
{
    if len >= bytes.len() {
        return bytes;
    }
    let mut out: Vec<u8> = Vec::new();
    let mut i: usize = 0;
    while i < len
        invariant
            i <= len,
            len < bytes@.len(),
            out@.len() == i,
            forall|p: int| 0 <= p < i ==> out@[p] == bytes@[p],
        decreases len - i,
    {
        out.push(bytes[i]);
        i = i + 1;
    }
    proof {
        assert(out@ =~= bytes@.take(len as int));
    }
    out
}

} // verus!
