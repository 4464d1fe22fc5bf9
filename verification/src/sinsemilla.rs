//! The Sinsemilla hash function and commitment scheme, in its native
//! (non-circuit) form: an incremental doubled-sum hash over the Pallas curve.
//!
//! Messages are little-endian bit sequences of at most `K * C` bits. The bit
//! stream is padded with zero bits to the next multiple of `K`, split into
//! `K`-bit chunks, and each chunk selects a generator point that is folded
//! into a running accumulator by `acc <- 2 * acc + S(chunk)`.

use vstd::prelude::*;
use vstd::arithmetic::power2::*;
use vstd::string::StringExecFns;
use crate::bits::{bits_range, le_bits_value, le_bytes_value, lemma_le_bits_value_bound,
    lemma_le_bits_value_push};
use crate::field::FieldElem;
use crate::point::{is_point_repr, CurvePoint};
use vstd::utf8::is_ascii_chars;
use group::Group;
use group::GroupEncoding;
use ff::PrimeField;
use pasta_curves::arithmetic::CurveExt;

verus! {

/// Number of message bits per Sinsemilla chunk.
pub const K: usize = 10;

/// Maximum number of chunks per Sinsemilla message.
pub const C: usize = 253;

/// Length of a message of `n` bits once padded to the next multiple of `K`.
pub open spec fn padded_len(n: nat) -> nat {
    ((n + 9) / 10) * 10
}

/// The padded form of a message: the message itself, followed by zero bits
/// up to the next multiple of `K`.
pub open spec fn pad_spec(bits: Seq<bool>) -> Seq<bool> {
    bits + Seq::new((padded_len(bits.len()) - bits.len()) as nat, |i: int| false)
}

/// Padding yields `ceil(n / K) * K` bits: never fewer than the message,
/// fewer than `K` bits more, a multiple of `K`, and exactly the message
/// length when that is already a multiple of `K`.
pub proof fn lemma_padded_len(n: nat)
    ensures
        n <= padded_len(n) < n + 10,
        padded_len(n) % 10 == 0,
        n % 10 == 0 ==> padded_len(n) == n,
{
    assert(n <= ((n + 9) / 10) * 10 < n + 10 && (((n + 9) / 10) * 10) % 10 == 0 && (n % 10 == 0
        ==> ((n + 9) / 10) * 10 == n)) by (nonlinear_arith);
}

/// The padding rule: the message is kept as a prefix, and the suffix
/// consists only of zero bits.
pub proof fn lemma_pad_spec(bits: Seq<bool>)
    ensures
        pad_spec(bits).len() == padded_len(bits.len()),
        pad_spec(bits).len() % 10 == 0,
        forall|i: int| 0 <= i < bits.len() ==> pad_spec(bits)[i] == bits[i],
        forall|i: int| bits.len() <= i < pad_spec(bits).len() ==> !pad_spec(bits)[i],
{
    lemma_padded_len(bits.len());
}

/// Converts a `K`-bit little-endian bit string to an integer: bit 0 is the
/// least significant, with weight 2^0.
pub fn lebs2ip_k(bits: &Vec<bool>) -> (r: u32)
    requires
        bits@.len() == K,
    ensures
        r == le_bits_value(bits@),
        r < 1024,
{
    proof {
        lemma_le_bits_value_bound(bits@);
        lemma2_to64();
    }
    let mut acc: u32 = 0;
    let mut weight: u32 = 1;
    let mut i: usize = 0;
    while i < 10
        invariant
            i <= 10,
            bits@.len() == 10,
            weight == pow2(i as nat),
            acc == le_bits_value(bits@.take(i as int)),
            acc < pow2(i as nat),
        decreases 10 - i,
    {
        proof {
            assert(bits@.take(i as int).push(bits@[i as int]) =~= bits@.take(i + 1));
            lemma_le_bits_value_push(bits@.take(i as int), bits@[i as int]);
            lemma_pow2_strictly_increases(i as nat, (i + 1) as nat);
            lemma_pow2_adds(i as nat, 1);
            lemma2_to64();
        }
        if bits[i] {
            acc = acc + weight;
        }
        weight = weight * 2;
        i = i + 1;
    }
    proof {
        assert(bits@.take(10) =~= bits@);
    }
    acc
}

/// Pads a finite bit stream (which must have length at most `K * C`) with
/// zero bits to a multiple of `K` bits, one bit per call of [`Pad::next`].
pub struct Pad {
    /// The message being padded.
    inner: Vec<bool>,
    /// How many message bits have been emitted so far.
    pos: usize,
    /// The amount of padding that remains to be emitted, once the end of the
    /// message has been reached.
    padding_left: Option<usize>,
}

impl Pad {
    /// The complete padded output this value emits.
    pub closed spec fn output(self) -> Seq<bool> {
        pad_spec(self.inner@)
    }

    /// How many bits of [`Pad::output`] have been emitted so far.
    pub closed spec fn cursor(self) -> nat {
        match self.padding_left {
            Some(n) => (self.output().len() - n) as nat,
            None => self.pos as nat,
        }
    }

    /// Internal consistency: the cursor never runs past the message before
    /// the padding phase, and padding never exceeds what the rule owes.
    pub closed spec fn wf(self) -> bool {
        &&& self.inner@.len() <= K * C
        &&& match self.padding_left {
            Some(n) => self.pos == self.inner@.len() && n <= self.output().len()
                - self.inner@.len(),
            None => self.pos <= self.inner@.len(),
        }
    }

    /// Starts padding the given message.
    pub fn new(inner: Vec<bool>) -> (r: Pad)
        requires
            inner@.len() <= K * C,
        ensures
            r.wf(),
            r.cursor() == 0,
            r.output() == pad_spec(inner@),
    {
        Pad { inner, pos: 0, padding_left: None }
    }

    /// Emits the next bit of the padded stream, or `None` once all
    /// `padded_len` bits have been emitted.
    pub fn next(&mut self) -> (r: Option<bool>)
        requires
            old(self).wf(),
        ensures
            final(self).wf(),
            final(self).output() == old(self).output(),
            old(self).cursor() < old(self).output().len() ==> {
                &&& r == Some(old(self).output()[old(self).cursor() as int])
                &&& final(self).cursor() == old(self).cursor() + 1
            },
            old(self).cursor() == old(self).output().len() ==> {
                &&& r == None::<bool>
                &&& final(self).cursor() == old(self).cursor()
            },
    {
        proof {
            lemma_pad_spec(self.inner@);
        }
        if self.padding_left.is_none() {
            if self.pos < self.inner.len() {
                // We haven't reached the end of the message yet.
                let ret = self.inner[self.pos];
                self.pos = self.pos + 1;
                return Some(ret);
            }
            // The message just ended, so we now know how much padding it
            // requires: up to the next multiple of K, possibly none.
            let rem = self.inner.len() % 10;
            if rem > 0 {
                self.padding_left = Some(10 - rem);
            } else {
                self.padding_left = Some(0);
            }
        }
        let n = self.padding_left.unwrap();
        if n == 0 {
            // All necessary padding has been emitted, or none was required.
            None
        } else {
            // Emit the next padding bit.
            self.padding_left = Some(n - 1);
            Some(false)
        }
    }
}

/// Pads a message with zero bits to the next multiple of `K` bits.
pub fn pad(bits: Vec<bool>) -> (r: Vec<bool>)
    requires
        bits@.len() <= K * C,
    ensures
        r@ == pad_spec(bits@),
{
    let ghost gbits = bits@;
    let mut p = Pad::new(bits);
    let mut out: Vec<bool> = Vec::new();
    loop
        invariant
            p.wf(),
            p.output() == pad_spec(gbits),
            p.cursor() <= p.output().len(),
            p.cursor() == out@.len(),
            out@ =~= p.output().take(p.cursor() as int),
        ensures
            p.cursor() == p.output().len(),
        decreases p.output().len() - p.cursor(),
    {
        match p.next() {
            Some(b) => {
                out.push(b);
                proof {
                    assert(out@ =~= p.output().take(p.cursor() as int));
                }
            },
            None => {
                break ;
            },
        }
    }
    proof {
        assert(out@ =~= pad_spec(gbits));
    }
    out
}

/// The hash-to-curve personalization that yields the per-domain starting
/// point `Q`.
pub open spec fn q_personalization() -> Seq<char> {
    "z.cash:SinsemillaQ"@
}

/// The hash-to-curve personalization that yields the chunk generators `S`.
pub open spec fn s_personalization() -> Seq<char> {
    "z.cash:SinsemillaS"@
}

/// The compressed encoding of the Pallas point that hashing `msg` to the
/// curve under the personalization `domain` yields; a function of its
/// arguments alone.
pub uninterp spec fn group_hash_of(domain: Seq<char>, msg: Seq<u8>) -> Seq<u8>;

/// The compressed encoding of the double of the point `p` encodes.
pub uninterp spec fn double_of(p: Seq<u8>) -> Seq<u8>;

/// The compressed encoding of the sum of the points `a` and `b` encode.
pub uninterp spec fn add_of(a: Seq<u8>, b: Seq<u8>) -> Seq<u8>;

/// The compressed encoding of the point `p` encodes, multiplied by the
/// scalar of value `s`.
pub uninterp spec fn mul_of(p: Seq<u8>, s: nat) -> Seq<u8>;

/// The little-endian bytes of a 32-bit chunk index, as handed to the
/// chunk-generator hash.
pub open spec fn u32_le_bytes(v: u32) -> Seq<u8> {
    seq![
        (v % 256) as u8,
        ((v / 256) % 256) as u8,
        ((v / 0x10000) % 256) as u8,
        ((v / 0x1000000) % 256) as u8,
    ]
}

/// The generator point selected by one message chunk.
pub open spec fn s_point_of(chunk: u32) -> Seq<u8> {
    group_hash_of(s_personalization(), u32_le_bytes(chunk))
}

/// How many chunks the padded form of `msg` splits into.
pub open spec fn chunk_count(msg: Seq<bool>) -> nat {
    padded_len(msg.len()) / 10
}

/// The value of the `i`-th `K`-bit chunk of the padded message.
pub open spec fn chunk_val(msg: Seq<bool>, i: int) -> nat {
    le_bits_value(pad_spec(msg).subrange(10 * i, 10 * i + 10))
}

/// Every chunk value fits in `K` bits.
pub proof fn lemma_chunk_val_bound(msg: Seq<bool>, i: int)
    requires
        0 <= i < chunk_count(msg),
    ensures
        chunk_val(msg, i) < 1024,
{
    lemma_pad_spec(msg);
    lemma_le_bits_value_bound(pad_spec(msg).subrange(10 * i, 10 * i + 10));
    lemma2_to64();
    assert(pad_spec(msg).subrange(10 * i, 10 * i + 10).len() == 10) by (nonlinear_arith)
        requires
            0 <= i,
            10 * i + 10 <= pad_spec(msg).len(),
    ;
    assert(10 * i + 10 <= pad_spec(msg).len()) by (nonlinear_arith)
        requires
            0 <= i < pad_spec(msg).len() as int / 10,
            pad_spec(msg).len() % 10 == 0,
    ;
}

/// The chunk values of the padded message, in order.
pub open spec fn chunk_seq(msg: Seq<bool>) -> Seq<u32> {
    Seq::new(chunk_count(msg), |i: int| chunk_val(msg, i) as u32)
}

/// The incremental doubled-sum fold: each chunk doubles the accumulator
/// and adds that chunk's generator.
pub open spec fn fold_chunks(acc: Seq<u8>, chunks: Seq<u32>) -> Seq<u8>
    decreases chunks.len(),
{
    if chunks.len() == 0 {
        acc
    } else {
        fold_chunks(add_of(double_of(acc), s_point_of(chunks[0])), chunks.skip(1))
    }
}

/// The compressed encoding `SinsemillaHashToPoint(domain, msg)` yields:
/// the fold over all chunks, started from the domain's point `Q`.
pub open spec fn hash_to_point_spec(domain: Seq<char>, msg: Seq<bool>) -> Seq<u8> {
    fold_chunks(group_hash_of(q_personalization(), domain.map(|_i: int, c: char| c as u8)),
        chunk_seq(msg))
}

/// Writes a 32-bit chunk index as its four little-endian bytes.
fn u32_to_le_bytes(v: u32) -> (r: Vec<u8>)
    ensures
        r@ == u32_le_bytes(v),
{
    let mut out: Vec<u8> = Vec::new();
    out.push((v % 256) as u8);
    out.push(((v / 256) % 256) as u8);
    out.push(((v / 0x10000) % 256) as u8);
    out.push(((v / 0x1000000) % 256) as u8);
    proof {
        assert(out@ =~= u32_le_bytes(v));
    }
    out
}

/// Pads the message and converts each `K`-bit chunk to its integer, in
/// order.
pub fn padded_chunks(msg: Vec<bool>) -> (r: Vec<u32>)
    requires
        msg@.len() <= K * C,
    ensures
        r@.len() == chunk_count(msg@),
        r@ == chunk_seq(msg@),
{
    let ghost gmsg = msg@;
    proof {
        lemma_pad_spec(gmsg);
        lemma_padded_len(gmsg.len());
    }
    let padded = pad(msg);
    let total = padded.len();
    let mut out: Vec<u32> = Vec::new();
    let mut i: usize = 0;
    proof {
        assert(total % 10 == 0);
        assert(chunk_count(gmsg) == total as nat / 10);
    }
    while i * 10 < total
        invariant
            padded@ == pad_spec(gmsg),
            total == padded@.len(),
            total % 10 == 0,
            total <= 2540,
            i <= total / 10,
            out@.len() == i,
            forall|j: int| 0 <= j < i ==> out@[j] == chunk_val(gmsg, j) as u32,
        decreases total - i * 10,
    {
        proof {
            assert(i * 10 + 10 <= total) by (nonlinear_arith)
                requires
                    i * 10 < total,
                    total % 10 == 0,
                    total >= 0,
            ;
        }
        let chunk_bits = bits_range(&padded, i * 10, i * 10 + 10);
        let v = lebs2ip_k(&chunk_bits);
        out.push(v);
        i = i + 1;
    }
    proof {
        assert(i == total / 10) by (nonlinear_arith)
            requires
                i * 10 >= total,
                i <= total as int / 10,
                total % 10 == 0,
                total >= 0,
        ;
        assert(out@ =~= chunk_seq(gmsg));
    }
    out
}

/// Relies on pasta_curves' `hash_to_curve` for the Pallas curve: a
/// deterministic map from the personalization and message bytes to a group
/// element, returned in its canonical compressed encoding. The underlying
/// hash-to-field aborts when the personalization together with the curve
/// tag reaches 256 bytes, so the personalization is kept to at most 227
/// ASCII characters.
#[verifier::external_body]
fn group_hash(domain: &str, msg: &Vec<u8>) -> (r: Vec<u8>)
    requires
        domain.is_ascii(),
        domain@.len() <= 227,
    ensures
        r@.len() == 32,
        r@ == group_hash_of(domain@, msg@),
        is_point_repr(r@),
{
    let hasher = pasta_curves::pallas::Point::hash_to_curve(domain);
    hasher(msg.as_slice()).to_bytes().to_vec()
}

/// Relies on pasta_curves' point doubling for the Pallas curve, between
/// canonical compressed encodings.
#[verifier::external_body]
fn point_double(p: &Vec<u8>) -> (r: Vec<u8>)
    requires
        p@.len() == 32,
        is_point_repr(p@),
    ensures
        r@.len() == 32,
        r@ == double_of(p@),
        is_point_repr(r@),
{
    let mut arr = [0u8; 32];
    arr.copy_from_slice(&p[..]);
    let point = pasta_curves::pallas::Point::from_bytes(&arr).unwrap();
    point.double().to_bytes().to_vec()
}

/// Relies on pasta_curves' point addition for the Pallas curve, between
/// canonical compressed encodings.
#[verifier::external_body]
fn point_add(a: &Vec<u8>, b: &Vec<u8>) -> (r: Vec<u8>)
    requires
        a@.len() == 32,
        b@.len() == 32,
        is_point_repr(a@),
        is_point_repr(b@),
    ensures
        r@.len() == 32,
        r@ == add_of(a@, b@),
        is_point_repr(r@),
{
    let mut aa = [0u8; 32];
    aa.copy_from_slice(&a[..]);
    let mut bb = [0u8; 32];
    bb.copy_from_slice(&b[..]);
    let pa = pasta_curves::pallas::Point::from_bytes(&aa).unwrap();
    let pb = pasta_curves::pallas::Point::from_bytes(&bb).unwrap();
    (pa + pb).to_bytes().to_vec()
}

/// Relies on pasta_curves' scalar multiplication for the Pallas curve: the
/// scalar is given by its canonical little-endian limbs.
#[verifier::external_body]
fn point_mul(p: &Vec<u8>, s: &FieldElem) -> (r: Vec<u8>)
    requires
        p@.len() == 32,
        is_point_repr(p@),
        s.is_scalar_canonical(),
    ensures
        r@.len() == 32,
        r@ == mul_of(p@, s.value()),
        is_point_repr(r@),
{
    let mut arr = [0u8; 32];
    arr.copy_from_slice(&p[..]);
    let point = pasta_curves::pallas::Point::from_bytes(&arr).unwrap();
    let mut repr = [0u8; 32];
    repr[0..8].copy_from_slice(&s.l0.to_le_bytes());
    repr[8..16].copy_from_slice(&s.l1.to_le_bytes());
    repr[16..24].copy_from_slice(&s.l2.to_le_bytes());
    repr[24..32].copy_from_slice(&s.l3.to_le_bytes());
    let scalar = pasta_curves::pallas::Scalar::from_repr(repr).unwrap();
    (point * scalar).to_bytes().to_vec()
}

/// `SinsemillaHashToPoint`: pads the message, then folds each chunk's
/// generator into the accumulator that starts at the domain's point `Q`,
/// doubling at every step. Returns the compressed encoding of the result.
pub fn hash_to_point(domain_prefix: &str, msg: Vec<bool>) -> (r: Vec<u8>)
    requires
        msg@.len() <= K * C,
        domain_prefix.is_ascii(),
    ensures
        r@.len() == 32,
        r@ == hash_to_point_spec(domain_prefix@, msg@),
        is_point_repr(r@),
{
    let ghost gmsg = msg@;
    let chunks = padded_chunks(msg);
    let domain_bytes = domain_prefix.as_bytes_vec();
    proof {
        vstd::string::is_ascii_spec_bytes(domain_prefix);
        assert(domain_bytes@ =~= domain_prefix@.map(|_i: int, c: char| c as u8));
        assert(chunks@.skip(0) =~= chunks@);
        reveal_strlit("z.cash:SinsemillaQ");
        assert("z.cash:SinsemillaQ"@.len() == 18);
        assert(is_ascii_chars("z.cash:SinsemillaQ"@));
    }
    let mut acc = group_hash("z.cash:SinsemillaQ", &domain_bytes);
    let mut i: usize = 0;
    let n = chunks.len();
    while i < n
        invariant
            n == chunks@.len(),
            i <= n,
            acc@.len() == 32,
            is_point_repr(acc@),
            fold_chunks(acc@, chunks@.skip(i as int)) == hash_to_point_spec(
                domain_prefix@,
                gmsg,
            ),
            chunks@ == chunk_seq(gmsg),
        decreases n - i,
    {
        proof {
            reveal_strlit("z.cash:SinsemillaS");
            assert("z.cash:SinsemillaS"@.len() == 18);
            assert(is_ascii_chars("z.cash:SinsemillaS"@));
        }
        let chunk_bytes = u32_to_le_bytes(chunks[i]);
        let s = group_hash("z.cash:SinsemillaS", &chunk_bytes);
        let d = point_double(&acc);
        proof {
            assert(chunks@.skip(i as int).skip(1) =~= chunks@.skip(i + 1));
            assert(chunks@.skip(i as int)[0] == chunks@[i as int]);
        }
        acc = point_add(&d, &s);
        i = i + 1;
    }
    proof {
        assert(chunks@.skip(n as int) =~= Seq::<u32>::empty());
    }
    acc
}

/// `SinsemillaHash`: the point extraction of [`hash_to_point`]; yields
/// zero for the identity and the x-coordinate otherwise, which is the low
/// 255 bits of the compressed encoding either way.
pub fn hash(domain_prefix: &str, msg: Vec<bool>) -> (r: FieldElem)
    requires
        msg@.len() <= K * C,
        domain_prefix.is_ascii(),
    ensures
        r.value() == le_bytes_value(hash_to_point_spec(domain_prefix@, msg@)) % pow2(255),
        r.is_base_canonical(),
{
    let point = hash_to_point(domain_prefix, msg);
    extract_p(&point)
}

/// The point extraction: zero for the identity, the x-coordinate (the low
/// 255 bits of the compressed encoding) otherwise.
pub fn extract_p(p: &Vec<u8>) -> (r: FieldElem)
    requires
        p@.len() == 32,
        is_point_repr(p@),
    ensures
        r.value() == le_bytes_value(p@) % pow2(255),
        r.is_base_canonical(),
{
    match CurvePoint::decompress(p) {
        Some(point) => point.x,
        None => {
            proof {
                assert(false);
            }
            FieldElem::zero()
        },
    }
}

/// The compressed encoding `SinsemillaCommit(r, domain, msg)` yields: the
/// message hashed to a point under the `-M` domain, blinded by `r` times
/// the `-r` domain's generator.
pub open spec fn commit_spec(domain: Seq<char>, msg: Seq<bool>, r: nat) -> Seq<u8> {
    add_of(
        hash_to_point_spec(domain + "-M"@, msg),
        mul_of(
            group_hash_of(domain + "-r"@, Seq::<u8>::empty().map(|_i: int, c: u8| c)),
            r,
        ),
    )
}

/// `SinsemillaCommit`: commits to the message under the domain, blinded by
/// the trapdoor `r`. Returns the compressed encoding of the result. The
/// domain, suffixed with `-r`, personalizes a hash to the curve, so it is
/// kept to at most 225 characters.
pub fn commit(domain_prefix: &str, msg: Vec<bool>, r: &FieldElem) -> (res: Vec<u8>)
    requires
        msg@.len() <= K * C,
        domain_prefix.is_ascii(),
        domain_prefix@.len() <= 225,
        r.is_scalar_canonical(),
    ensures
        res@.len() == 32,
        res@ == commit_spec(domain_prefix@, msg@, r.value()),
        is_point_repr(res@),
{
    let m_prefix = domain_prefix.to_owned().concat("-M");
    let r_prefix = domain_prefix.to_owned().concat("-r");
    proof {
        reveal_strlit("-M");
        reveal_strlit("-r");
        assert(is_ascii_chars("-M"@)) by {
            assert("-M"@ =~= seq!['-', 'M']);
        }
        assert(is_ascii_chars("-r"@)) by {
            assert("-r"@ =~= seq!['-', 'r']);
        }
        vstd::utf8::is_ascii_chars_concat(m_prefix@, domain_prefix@, "-M"@);
        vstd::utf8::is_ascii_chars_concat(r_prefix@, domain_prefix@, "-r"@);
    }
    let hashed = hash_to_point(m_prefix.as_str(), msg);
    let empty_msg: Vec<u8> = Vec::new();
    let blind_base = group_hash(r_prefix.as_str(), &empty_msg);
    let blind = point_mul(&blind_base, r);
    proof {
        assert(empty_msg@ =~= Seq::<u8>::empty().map(|_i: int, c: u8| c));
    }
    point_add(&hashed, &blind)
}

/// `SinsemillaShortCommit`: the point extraction of [`commit`].
pub fn short_commit(domain_prefix: &str, msg: Vec<bool>, r: &FieldElem) -> (res: FieldElem)
    requires
        msg@.len() <= K * C,
        domain_prefix.is_ascii(),
        domain_prefix@.len() <= 225,
        r.is_scalar_canonical(),
    ensures
        res.value() == le_bytes_value(commit_spec(domain_prefix@, msg@, r.value())) % pow2(255),
        res.is_base_canonical(),
{
    let c = commit(domain_prefix, msg, r);
    extract_p(&c)
}

} // verus!
