//! Running-sum decomposition of an `n`-bit word `alpha` into windows of
//! `k` bits each (`k <= 3`), as enforced by a vertical running-sum column:
//!
//! `z_0 = alpha`, and each successive `z_{i+1} = (z_i - w_i) / 2^k`, where
//! `w_i` is the `i`-th `k`-bit window of `alpha`. Two gates constrain the
//! column: a range check on each adjacent pair of rows (`w_i` must fit in
//! `k` bits), and, in strict mode, a final gate `z_W = 0` that confines
//! `alpha` below `2^{k*W}`.

use vstd::prelude::*;
use vstd::arithmetic::power2::*;
use vstd::arithmetic::div_mod::{
    lemma_basic_div,
    lemma_div_denominator,
    lemma_div_non_zero,
    lemma_fundamental_div_mod,
};
use crate::bits::{bits_range, le_bits_value, lemma_le_bits_value_bound, lemma_le_bits_value_split};

verus! {

/// The `i`-th `k`-bit window of `alpha`, little-endian: the `k` bits of
/// weight 2^{k*i} .. 2^{k*(i+1)}.
pub open spec fn window_spec(alpha: nat, k: nat, i: nat) -> nat {
    (alpha / pow2(k * i)) % pow2(k)
}

/// The `i`-th running-sum value: what remains of `alpha` once the first
/// `i` windows have been subtracted and divided away.
pub open spec fn z_spec(alpha: nat, k: nat, i: nat) -> nat {
    alpha / pow2(k * i)
}

/// The range-check gate, row by row: each running-sum value carries its
/// window in the low `k` bits, so `z_i = 2^k * z_{i+1} + w_i` with
/// `w_i < 2^k`.
pub proof fn lemma_running_sum_step(alpha: nat, k: nat, i: nat)
    requires
        k >= 1,
    ensures
        z_spec(alpha, k, i) == pow2(k) * z_spec(alpha, k, i + 1) + window_spec(alpha, k, i),
        window_spec(alpha, k, i) < pow2(k),
{
    lemma_pow2_pos(k * i);
    lemma_pow2_pos(k);
    lemma_pow2_adds(k * i, k);
    assert(k * (i + 1) == k * i + k) by (nonlinear_arith);
    lemma_div_denominator(alpha as int, pow2(k * i) as int, pow2(k) as int);
    lemma_fundamental_div_mod(z_spec(alpha, k, i) as int, pow2(k) as int);
}

/// Strictness is exactly a range bound: the final running-sum value is
/// zero if and only if `alpha` fits in `k * w` bits.
pub proof fn lemma_strict_soundness(alpha: nat, k: nat, w: nat)
    ensures
        z_spec(alpha, k, w) == 0 <==> alpha < pow2(k * w),
{
    lemma_pow2_pos(k * w);
    if alpha < pow2(k * w) {
        lemma_basic_div(alpha as int, pow2(k * w) as int);
    }
    if alpha >= pow2(k * w) {
        lemma_div_non_zero(alpha as int, pow2(k * w) as int);
    }
}

/// The weighted sum of the first `m` windows:
/// `w_0 + 2^k * w_1 + ... + 2^{k*(m-1)} * w_{m-1}`.
pub open spec fn windows_sum(alpha: nat, k: nat, m: nat) -> nat
    decreases m,
{
    if m == 0 {
        0
    } else {
        windows_sum(alpha, k, (m - 1) as nat) + window_spec(alpha, k, (m - 1) as nat) * pow2(
            k * (m - 1) as nat,
        )
    }
}

/// The running sum carries what the windows have not yet accounted for:
/// `alpha = w_0 + 2^k * w_1 + ... + 2^{k*(m-1)} * w_{m-1} + 2^{k*m} * z_m`.
/// With a strict decomposition (`z_m = 0`) the windows reconstruct `alpha`
/// exactly.
pub proof fn lemma_windows_reconstruct(alpha: nat, k: nat, m: nat)
    requires
        k >= 1,
    ensures
        alpha == windows_sum(alpha, k, m) + pow2(k * m) * z_spec(alpha, k, m),
    decreases m,
{
    if m == 0 {
        lemma2_to64();
        assert(k * 0 == 0);
        assert(z_spec(alpha, k, 0) == alpha) by {
            lemma_basic_div_full(alpha);
        }
    } else {
        let m1 = (m - 1) as nat;
        lemma_windows_reconstruct(alpha, k, m1);
        lemma_running_sum_step(alpha, k, m1);
        lemma_pow2_adds(k * m1, k);
        assert(k * m == k * m1 + k) by (nonlinear_arith)
            requires
                m1 == m - 1,
                m >= 1,
        ;
        assert(pow2(k * m1) * z_spec(alpha, k, m1) == pow2(k * m1) * (pow2(k) * z_spec(alpha, k, m)
            + window_spec(alpha, k, m1))) by (nonlinear_arith)
            requires
                z_spec(alpha, k, m1) == pow2(k) * z_spec(alpha, k, m) + window_spec(alpha, k, m1),
        ;
        assert(pow2(k * m1) * (pow2(k) * z_spec(alpha, k, m) + window_spec(alpha, k, m1)) == (pow2(
            k * m1,
        ) * pow2(k)) * z_spec(alpha, k, m) + window_spec(alpha, k, m1) * pow2(k * m1))
            by (nonlinear_arith);
    }
}

/// Division by one leaves a value unchanged.
proof fn lemma_basic_div_full(alpha: nat)
    ensures
        alpha / pow2(0) == alpha,
{
    lemma2_to64();
}

/// Splits a word into its `k`-bit windows, little-endian within each
/// window: the values the prover witnesses, whose consistency with the
/// running sum the range check enforces row by row.
pub fn decompose_word(word: &Vec<bool>, window_num_bits: usize) -> (r: Vec<u8>)
    requires
        1 <= window_num_bits <= 3,
        1 <= word@.len() <= 255,
    ensures
        r@.len() == (word@.len() + window_num_bits - 1) as nat / window_num_bits as nat,
        forall|i: int|
            0 <= i < r@.len() ==> #[trigger] r@[i] == window_spec(
                le_bits_value(word@),
                window_num_bits as nat,
                i as nat,
            ),
{
    let k = window_num_bits;
    let n = word.len();
    let num_words = (n + k - 1) / k;
    proof {
        vstd::arithmetic::div_mod::lemma_div_nonincreasing((n + k - 1) as int, k as int);
    }
    let mut out: Vec<u8> = Vec::new();
    let mut i: usize = 0;
    while i < num_words
        invariant
            1 <= k <= 3,
            n == word@.len(),
            1 <= n <= 255,
            num_words == (n + k - 1) as int / k as int,
            num_words <= 257,
            i <= num_words,
            out@.len() == i,
            forall|j: int|
                0 <= j < out@.len() ==> #[trigger] out@[j] == window_spec(
                    le_bits_value(word@),
                    k as nat,
                    j as nat,
                ),
        decreases num_words - i,
    {
        proof {
            assert(k * i < n) by (nonlinear_arith)
                requires
                    i < num_words,
                    num_words == (n + k - 1) as int / k as int,
                    1 <= k,
                    0 <= i,
                    n >= 1,
            ;
            assert(k * (i + 1) == k * i + k) by (nonlinear_arith);
        }
        let start = k * i;
        let end = if k * (i + 1) < n {
            k * (i + 1)
        } else {
            n
        };
        let chunk = bits_range(word, start, end);
        let mut val: u8 = 0;
        let mut weight: u8 = 1;
        let mut j: usize = 0;
        let len = chunk.len();
        proof {
            lemma2_to64();
        }
        while j < len
            invariant
                j <= len,
                len == chunk@.len() <= 3,
                j < len ==> weight == pow2(j as nat),
                val == le_bits_value(chunk@.take(j as int)),
                val < pow2(j as nat),
            decreases len - j,
        {
            proof {
                assert(chunk@.take(j as int).push(chunk@[j as int]) =~= chunk@.take(j + 1));
                crate::bits::lemma_le_bits_value_push(chunk@.take(j as int), chunk@[j as int]);
                lemma_pow2_strictly_increases(j as nat, (j + 1) as nat);
                lemma_pow2_adds(j as nat, 1);
                lemma2_to64();
            }
            if chunk[j] {
                val = val + weight;
            }
            if j + 1 < len {
                weight = weight * 2;
            }
            j = j + 1;
        }
        proof {
            assert(chunk@.take(len as int) =~= chunk@);
            lemma_window_from_bits(word@, k as nat, i as nat, end as int);
        }
        out.push(val);
        i = i + 1;
    }
    out
}

/// The `i`-th window is the value of the bits from `k*i` up to `k*(i+1)`,
/// clamped to the word's end.
proof fn lemma_window_from_bits(word: Seq<bool>, k: nat, i: nat, end: int)
    requires
        1 <= k,
        k * i < word.len(),
        end == if k * (i + 1) < word.len() {
            k * (i + 1) as int
        } else {
            word.len() as int
        },
    ensures
        le_bits_value(word.subrange((k * i) as int, end)) == window_spec(le_bits_value(word), k, i),
{
    let start = (k * i) as int;
    let alpha = le_bits_value(word);
    assert(k * (i + 1) == k * i + k) by (nonlinear_arith);
    lemma_le_bits_value_split(word, start);
    lemma_pow2_pos(k);
    if k * (i + 1) < word.len() {
        assert(word.subrange(start, end) =~= word.skip(start).take(k as int));
        lemma_le_bits_value_split(word.skip(start), k as int);
    } else {
        assert(word.subrange(start, end) =~= word.skip(start));
        lemma_le_bits_value_bound(word.skip(start));
        if word.skip(start).len() < k {
            lemma_pow2_strictly_increases(word.skip(start).len(), k);
        }
        vstd::arithmetic::div_mod::lemma_small_mod(le_bits_value(word.skip(start)), pow2(k));
    }
}

/// The running sum `[z_1, ..., z_m]` produced by a decomposition, each
/// value as the little-endian bits that remain of the decomposed word,
/// together with whether the final `z = 0` gate was enabled.
pub struct RunningSum {
    /// The running-sum values after the initial `z_0 = alpha`.
    pub zs: Vec<Vec<bool>>,
    /// Whether the decomposition was created in strict mode.
    pub strict: bool,
}

impl RunningSum {
    /// The `final z = 0` gate: in strict mode the running-sum value at row
    /// `num_windows` must be zero; a lax decomposition is unconstrained.
    pub fn strict_satisfied(&self, num_windows: usize) -> (r: bool)
        requires
            1 <= num_windows <= self.zs@.len(),
        ensures
            r <==> (self.strict ==> le_bits_value(self.zs@[num_windows - 1]@) == 0),
    {
        if !self.strict {
            return true;
        }
        let z_final = &self.zs[num_windows - 1];
        let mut j: usize = 0;
        let mut all_zero = true;
        while j < z_final.len()
            invariant
                j <= z_final@.len(),
                all_zero <==> le_bits_value(z_final@.take(j as int)) == 0,
            decreases z_final@.len() - j,
        {
            proof {
                assert(z_final@.take(j as int).push(z_final@[j as int]) =~= z_final@.take(j + 1));
                crate::bits::lemma_le_bits_value_push(z_final@.take(j as int), z_final@[j as int]);
                lemma_pow2_pos(j as nat);
            }
            if z_final[j] {
                all_zero = false;
            }
            j = j + 1;
        }
        proof {
            assert(z_final@.take(z_final@.len() as int) =~= z_final@);
        }
        all_zero
    }
}

/// Configuration of the running-sum region: the window width in bits.
/// The underlying constraint-system columns and selectors belong to the
/// proving engine; the width is what the decomposition itself depends on.
pub struct RunningSumConfig {
    window_num_bits: usize,
}

impl RunningSumConfig {
    /// The configured window width.
    pub closed spec fn spec_window_num_bits(self) -> nat {
        self.window_num_bits as nat
    }

    /// Configures the region for `k`-bit windows; the range-check gate's
    /// polynomial degree limits `k` to at most 3.
    pub fn configure(window_num_bits: usize) -> (r: Self)
        requires
            1 <= window_num_bits <= 3,
        ensures
            r.spec_window_num_bits() == window_num_bits,
    {
        RunningSumConfig { window_num_bits }
    }

    /// Decomposes a word `alpha` that is witnessed in this helper.
    ///
    /// `strict` = true additionally constrains the running sum at row
    /// `num_windows` to be zero, i.e. constrains `alpha` to be within
    /// `window_num_bits * num_windows` bits.
    pub fn witness_decompose(
        &self,
        alpha: &Vec<bool>,
        strict: bool,
        word_num_bits: usize,
        num_windows: usize,
    ) -> (r: RunningSum)
        requires
            1 <= self.spec_window_num_bits() <= 3,
            alpha@.len() == word_num_bits,
            1 <= word_num_bits <= 255,
            1 <= num_windows,
            self.spec_window_num_bits() * num_windows < word_num_bits
                + self.spec_window_num_bits(),
        ensures
            r.strict == strict,
            num_windows <= r.zs@.len(),
            r.zs@.len() == (word_num_bits + self.spec_window_num_bits() - 1) as nat
                / self.spec_window_num_bits(),
            forall|i: int|
                0 <= i < r.zs@.len() ==> le_bits_value(#[trigger] r.zs@[i]@) == z_spec(
                    le_bits_value(alpha@),
                    self.spec_window_num_bits(),
                    (i + 1) as nat,
                ),
    {
        self.decompose(alpha, strict, word_num_bits, num_windows)
    }

    /// Decomposes an existing word `alpha` that is copied into this helper
    /// through the equality permutation.
    pub fn copy_decompose(
        &self,
        alpha: &Vec<bool>,
        strict: bool,
        word_num_bits: usize,
        num_windows: usize,
    ) -> (r: RunningSum)
        requires
            1 <= self.spec_window_num_bits() <= 3,
            alpha@.len() == word_num_bits,
            1 <= word_num_bits <= 255,
            1 <= num_windows,
            self.spec_window_num_bits() * num_windows < word_num_bits
                + self.spec_window_num_bits(),
        ensures
            r.strict == strict,
            num_windows <= r.zs@.len(),
            r.zs@.len() == (word_num_bits + self.spec_window_num_bits() - 1) as nat
                / self.spec_window_num_bits(),
            forall|i: int|
                0 <= i < r.zs@.len() ==> le_bits_value(#[trigger] r.zs@[i]@) == z_spec(
                    le_bits_value(alpha@),
                    self.spec_window_num_bits(),
                    (i + 1) as nat,
                ),
    {
        self.decompose(alpha, strict, word_num_bits, num_windows)
    }

    /// Computes the running-sum column below `z_0 = alpha`: every window
    /// must carry at least one bit of the word (no empty windows), so the
    /// column has `ceil(word_num_bits / window_num_bits)` further rows,
    /// each holding the bits of `alpha` left above the windows already
    /// consumed.
    fn decompose(
        &self,
        alpha: &Vec<bool>,
        strict: bool,
        word_num_bits: usize,
        num_windows: usize,
    ) -> (r: RunningSum)
        requires
            1 <= self.spec_window_num_bits() <= 3,
            alpha@.len() == word_num_bits,
            1 <= word_num_bits <= 255,
            1 <= num_windows,
            self.spec_window_num_bits() * num_windows < word_num_bits
                + self.spec_window_num_bits(),
        ensures
            r.strict == strict,
            num_windows <= r.zs@.len(),
            r.zs@.len() == (word_num_bits + self.spec_window_num_bits() - 1) as nat
                / self.spec_window_num_bits(),
            forall|i: int|
                0 <= i < r.zs@.len() ==> le_bits_value(#[trigger] r.zs@[i]@) == z_spec(
                    le_bits_value(alpha@),
                    self.spec_window_num_bits(),
                    (i + 1) as nat,
                ),
    {
        let k = self.window_num_bits;
        let num_words = (word_num_bits + k - 1) / k;
        proof {
            assert(num_windows <= (word_num_bits + k - 1) as int / k as int) by (nonlinear_arith)
                requires
                    1 <= k,
                    1 <= num_windows,
                    k * num_windows < word_num_bits + k,
            ;
            vstd::arithmetic::div_mod::lemma_div_nonincreasing(
                (word_num_bits + k - 1) as int,
                k as int,
            );
        }
        let mut zs: Vec<Vec<bool>> = Vec::new();
        let mut i: usize = 1;
        while i <= num_words
            invariant
                1 <= k <= 3,
                num_words == (word_num_bits + k - 1) as int / k as int,
                num_words <= 257,
                word_num_bits <= 255,
                alpha@.len() == word_num_bits,
                1 <= i <= num_words + 1,
                zs@.len() == i - 1,
                forall|n: int|
                    0 <= n < zs@.len() ==> le_bits_value(#[trigger] zs@[n]@) == z_spec(
                        le_bits_value(alpha@),
                        k as nat,
                        (n + 1) as nat,
                    ),
            decreases num_words + 1 - i,
        {
            proof {
                assert(k * i <= 3 * 258) by (nonlinear_arith)
                    requires
                        1 <= k <= 3,
                        0 <= i <= 258,
                ;
            }
            let start = if k * i < word_num_bits {
                k * i
            } else {
                word_num_bits
            };
            let mut z: Vec<bool> = Vec::new();
            let mut j: usize = start;
            while j < word_num_bits
                invariant
                    start <= j <= word_num_bits,
                    alpha@.len() == word_num_bits,
                    z@ =~= alpha@.subrange(start as int, j as int),
                decreases word_num_bits - j,
            {
                let b = alpha[j];
                z.push(b);
                proof {
                    assert(z@ =~= alpha@.subrange(start as int, j + 1));
                }
                j = j + 1;
            }
            proof {
                assert(z@ =~= alpha@.skip(start as int));
                lemma_le_bits_value_split(alpha@, start as int);
                if start < k * i {
                    // The final row may reach past the word: the value left
                    // there is zero either way.
                    lemma_le_bits_value_bound(alpha@);
                    lemma_basic_div(le_bits_value(alpha@) as int, pow2(start as nat) as int);
                    lemma_pow2_strictly_increases(alpha@.len(), (k * i) as nat);
                    lemma_basic_div(le_bits_value(alpha@) as int, pow2((k * i) as nat) as int);
                }
                assert(le_bits_value(z@) == z_spec(le_bits_value(alpha@), k as nat, i as nat));
            }
            zs.push(z);
            i = i + 1;
        }
        RunningSum { zs, strict }
    }
}

} // verus!
