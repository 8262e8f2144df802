//! Bit strings for the RFC3961 n-fold: bytes as bits (most significant bit
//! first), rotation, big-endian values and one's-complement addition.

use vstd::arithmetic::power2::{lemma_pow2_adds, lemma_pow2_pos, lemma_pow2_unfold, pow2};
use vstd::prelude::*;

verus! {

/// Bit `i` of `bytes`, counting from the most significant bit of the first
/// byte.
pub open spec fn spec_bit(bytes: Seq<u8>, i: int) -> bool {
    ((bytes[i / 8] >> ((7 - i % 8) as u8)) & 1u8) == 1u8
}

/// The bits of `bytes`, most significant first.
pub open spec fn spec_bits(bytes: Seq<u8>) -> Seq<bool> {
    Seq::new((bytes.len() * 8) as nat, |i: int| spec_bit(bytes, i))
}

/// `bits` rotated right by `steps` positions: the bit at `i` moves to
/// `(i + steps) % len`.
pub open spec fn spec_rotate_bits(bits: Seq<bool>, steps: nat) -> Seq<bool> {
    Seq::new(
        bits.len(),
        |j: int| bits[(j + bits.len() - steps % bits.len()) % (bits.len() as int)],
    )
}

/// `k` copies of `bits`, copy `i` rotated right by `13 * i`, in a row.
pub open spec fn spec_replicate(bits: Seq<bool>, k: nat) -> Seq<bool>
    decreases k,
{
    if k == 0 {
        Seq::empty()
    } else {
        spec_replicate(bits, (k - 1) as nat) + spec_rotate_bits(bits, (13 * (k - 1)) as nat)
    }
}

/// The number that `bits` spell in binary, most significant bit first.
pub open spec fn spec_bits_value(bits: Seq<bool>) -> nat
    decreases bits.len(),
{
    if bits.len() == 0 {
        0
    } else {
        spec_bits_value(bits.drop_last()) * 2 + if bits.last() {
            1nat
        } else {
            0nat
        }
    }
}

/// One's-complement addition of two `width`-bit numbers: the carry out of
/// the top bit is added back in at the bottom.
pub open spec fn spec_ones_complement_add(a: nat, b: nat, width: nat) -> nat {
    if a + b < pow2(width) {
        a + b
    } else {
        (a + b - pow2(width) + 1) as nat
    }
}

/// One's-complement sum of the first `k` chunks of `width` bits of `bits`.
pub open spec fn spec_fold_chunks(bits: Seq<bool>, width: nat, k: nat) -> nat
    decreases k,
{
    if k == 0 {
        0
    } else {
        spec_ones_complement_add(
            spec_fold_chunks(bits, width, (k - 1) as nat),
            spec_bits_value(bits.subrange((k - 1) * width, (k * width) as int)),
            width,
        )
    }
}

/// The `len` bytes that spell `v` big-endian (higher bits dropped).
pub open spec fn spec_be_bytes(v: nat, len: nat) -> Seq<u8>
    decreases len,
{
    if len == 0 {
        Seq::empty()
    } else {
        spec_be_bytes(v / 256, (len - 1) as nat).push((v % 256) as u8)
    }
}

/// Greatest common divisor, by Euclid's algorithm.
pub open spec fn spec_gcd(a: nat, b: nat) -> nat
    decreases b,
{
    if b == 0 {
        a
    } else {
        spec_gcd(b, a % b)
    }
}

/// Least common multiple.
pub open spec fn spec_lcm(a: nat, b: nat) -> nat {
    if spec_gcd(a, b) == 0 {
        0
    } else {
        a * b / spec_gcd(a, b)
    }
}

// ---------------------------------------------------------------------------
// Lemmas

pub(crate) proof fn lemma_be_bytes_len(v: nat, len: nat)
    ensures
        spec_be_bytes(v, len).len() == len,
    decreases len,
{
    if len > 0 {
        lemma_be_bytes_len(v / 256, (len - 1) as nat);
    }
}

proof fn lemma_bits_value_concat(x: Seq<bool>, y: Seq<bool>)
    ensures
        spec_bits_value(x + y) == spec_bits_value(x) * pow2(y.len()) + spec_bits_value(y),
    decreases y.len(),
{
    vstd::arithmetic::power2::lemma2_to64();
    if y.len() == 0 {
        assert(x + y =~= x);
    } else {
        assert((x + y).drop_last() =~= x + y.drop_last());
        assert((x + y).last() == y.last());
        lemma_bits_value_concat(x, y.drop_last());
        lemma_pow2_unfold(y.len());
        let p = pow2((y.len() - 1) as nat);
        let vx = spec_bits_value(x);
        let w = spec_bits_value(y.drop_last());
        let lb: nat = if y.last() {
            1
        } else {
            0
        };
        assert((vx * p + w) * 2 + lb == vx * (2 * p) + (w * 2 + lb)) by (nonlinear_arith);
    }
}

proof fn lemma_bits_value_bound(x: Seq<bool>)
    ensures
        spec_bits_value(x) < pow2(x.len()),
    decreases x.len(),
{
    vstd::arithmetic::power2::lemma2_to64();
    if x.len() > 0 {
        lemma_bits_value_bound(x.drop_last());
        lemma_pow2_unfold(x.len());
    }
}

/// The value of the bits from `k - 1` on is the bit at `k - 1`, weighted,
/// plus the value of the bits from `k` on.
proof fn lemma_bits_value_suffix(x: Seq<bool>, k: int)
    requires
        1 <= k <= x.len(),
    ensures
        spec_bits_value(x.subrange(k - 1, x.len() as int)) == (if x[k - 1] {
            pow2((x.len() - k) as nat)
        } else {
            0
        }) + spec_bits_value(x.subrange(k, x.len() as int)),
{
    let head = seq![x[k - 1]];
    let tail = x.subrange(k, x.len() as int);
    assert(x.subrange(k - 1, x.len() as int) =~= head + tail);
    lemma_bits_value_concat(head, tail);
    assert(head.drop_last() =~= Seq::<bool>::empty());
    assert(spec_bits_value(head.drop_last()) == 0);
    assert(head.last() == x[k - 1]);
    assert(spec_bits_value(head) == if x[k - 1] {
        1nat
    } else {
        0nat
    });
    assert(tail.len() == x.len() - k);
    let p = pow2(tail.len());
    let hv = spec_bits_value(head);
    if x[k - 1] {
        assert(hv == 1);
        assert(hv * p == p) by (nonlinear_arith)
            requires
                hv == 1,
        ;
    } else {
        assert(hv == 0);
        assert(hv * p == 0) by (nonlinear_arith)
            requires
                hv == 0,
        ;
    }
}

/// Bits of all-false value zero.
pub(crate) proof fn lemma_bits_value_zero(x: Seq<bool>)
    requires
        forall|i: int| 0 <= i < x.len() ==> !x[i],
    ensures
        spec_bits_value(x) == 0,
    decreases x.len(),
{
    if x.len() > 0 {
        lemma_bits_value_zero(x.drop_last());
    }
}

// ---------------------------------------------------------------------------
// Executable operations

/// The bits of `bytes`, most significant first.
pub fn bits_of(bytes: &[u8]) -> (r: Vec<bool>)
    requires
        bytes@.len() * 8 <= usize::MAX,
    ensures
        r@ == spec_bits(bytes@),
{
    let mut out: Vec<bool> = Vec::new();
    let mut k: usize = 0;
    while k < bytes.len()
        invariant
            k <= bytes@.len(),
            bytes@.len() * 8 <= usize::MAX,
            out@.len() == k * 8,
            forall|i: int| 0 <= i < out@.len() ==> out@[i] == spec_bit(bytes@, i),
        decreases bytes@.len() - k,
    {
        let byte = bytes[k];
        let mut j: u8 = 0;
        while j < 8
            invariant
                k < bytes@.len(),
                byte == bytes@[k as int],
                j <= 8,
                out@.len() == k * 8 + j,
                forall|i: int| 0 <= i < out@.len() ==> out@[i] == spec_bit(bytes@, i),
            decreases 8 - j,
        {
            let bit = ((byte >> (7 - j)) & 1u8) == 1u8;
            proof {
                let i = k * 8 + j;
                assert(i / 8 == k as int && i % 8 == j as int);
            }
            out.push(bit);
            j = j + 1;
        }
        k = k + 1;
    }
    assert(out@ =~= spec_bits(bytes@));
    out
}

/// `bits` rotated right by `steps` positions, `steps` below the length.
pub fn rotate_bits(bits: &Vec<bool>, steps: usize) -> (r: Vec<bool>)
    requires
        bits@.len() > 0,
        steps < bits@.len(),
    ensures
        r@ == spec_rotate_bits(bits@, steps as nat),
{
    let n = bits.len();
    let back = n - steps;
    let mut out: Vec<bool> = Vec::new();
    let mut j: usize = 0;
    while j < n
        invariant
            n == bits@.len(),
            n > 0,
            steps < n,
            back == n - steps,
            j <= n,
            out@.len() == j,
            forall|i: int|
                0 <= i < j ==> out@[i] == bits@[(i + n - (steps as nat) % (n as nat)) % (n as int)],
        decreases n - j,
    {
        let src = if j < steps {
            j + back
        } else {
            j - steps
        };
        proof {
            vstd::arithmetic::div_mod::lemma_small_mod(steps as nat, n as nat);
            if j < steps {
                vstd::arithmetic::div_mod::lemma_small_mod((j + n - steps) as nat, n as nat);
            } else {
                assert((j + n - steps) % (n as int) == j - steps) by {
                    vstd::arithmetic::div_mod::lemma_fundamental_div_mod_converse(
                        j + n - steps,
                        n as int,
                        1,
                        j - steps,
                    );
                }
            }
        }
        out.push(bits[src]);
        j = j + 1;
    }
    assert(out@ =~= spec_rotate_bits(bits@, steps as nat));
    out
}

/// `a + b + carry_in` on bit strings of equal length, with the carry out of
/// the top bit.
pub fn add_bits(a: &Vec<bool>, b: &[bool], carry_in: bool) -> (r: (Vec<bool>, bool))
    requires
        a@.len() == b@.len(),
    ensures
        r.0@.len() == a@.len(),
        spec_bits_value(r.0@) + (if r.1 {
            pow2(a@.len() as nat)
        } else {
            0
        }) == spec_bits_value(a@) + spec_bits_value(b@) + (if carry_in {
            1nat
        } else {
            0nat
        }),
{
    let n = a.len();
    let mut out: Vec<bool> = Vec::new();
    let mut i: usize = 0;
    while i < n
        invariant
            n == a@.len(),
            n == b@.len(),
            i <= n,
            out@.len() == i,
        decreases n - i,
    {
        out.push(false);
        i = i + 1;
    }
    let mut carry = carry_in;
    let mut idx: usize = n;
    proof {
        assert(a@.subrange(n as int, n as int) =~= Seq::<bool>::empty());
        assert(b@.subrange(n as int, n as int) =~= Seq::<bool>::empty());
        assert(out@.subrange(n as int, n as int) =~= Seq::<bool>::empty());
        assert(spec_bits_value(Seq::<bool>::empty()) == 0);
        vstd::arithmetic::power2::lemma2_to64();
    }
    while idx > 0
        invariant
            n == a@.len(),
            n == b@.len(),
            n == out@.len(),
            idx <= n,
            spec_bits_value(out@.subrange(idx as int, n as int)) + (if carry {
                pow2((n - idx) as nat)
            } else {
                0
            }) == spec_bits_value(a@.subrange(idx as int, n as int)) + spec_bits_value(
                b@.subrange(idx as int, n as int),
            ) + (if carry_in {
                1nat
            } else {
                0nat
            }),
        decreases idx,
    {
        let ghost old_out = out@;
        let ghost old_carry = carry;
        idx = idx - 1;
        let x = a[idx];
        let y = b[idx];
        let ones: u8 = (if x {
            1u8
        } else {
            0u8
        }) + (if y {
            1u8
        } else {
            0u8
        }) + (if carry {
            1u8
        } else {
            0u8
        });
        out.set(idx, ones % 2 == 1);
        carry = ones >= 2;
        proof {
            let k = idx + 1;
            assert(out@.subrange(k as int, n as int) =~= old_out.subrange(k as int, n as int));
            lemma_bits_value_suffix(out@, k as int);
            lemma_bits_value_suffix(a@, k as int);
            lemma_bits_value_suffix(b@, k as int);
            let p = pow2((n - k) as nat);
            lemma_pow2_unfold((n - idx) as nat);
            assert(pow2((n - idx) as nat) == 2 * p);
        }
    }
    proof {
        assert(out@.subrange(0, n as int) =~= out@);
        assert(a@.subrange(0, n as int) =~= a@);
        assert(b@.subrange(0, n as int) =~= b@);
    }
    (out, carry)
}

/// One's-complement sum of two bit strings of equal length.
pub fn ones_complement_add_bits(a: &Vec<bool>, b: &[bool]) -> (r: Vec<bool>)
    requires
        a@.len() == b@.len(),
        a@.len() > 0,
    ensures
        r@.len() == a@.len(),
        spec_bits_value(r@) == spec_ones_complement_add(
            spec_bits_value(a@),
            spec_bits_value(b@),
            a@.len() as nat,
        ),
{
    let n = a.len();
    let (sum, carry) = add_bits(a, b, false);
    proof {
        lemma_bits_value_bound(a@);
        lemma_bits_value_bound(b@);
        lemma_bits_value_bound(sum@);
    }
    if !carry {
        return sum;
    }
    let mut zeros: Vec<bool> = Vec::new();
    let mut i: usize = 0;
    while i < n
        invariant
            i <= n,
            zeros@.len() == i,
            forall|j: int| 0 <= j < i ==> !zeros@[j],
        decreases n - i,
    {
        zeros.push(false);
        i = i + 1;
    }
    proof {
        lemma_bits_value_zero(zeros@);
    }
    let (wrapped, carry2) = add_bits(&sum, zeros.as_slice(), true);
    proof {
        lemma_bits_value_bound(wrapped@);
    }
    wrapped
}

/// Bytes spelling the bits, eight to a byte, most significant first.
pub fn pack_bits(bits: &Vec<bool>) -> (r: Vec<u8>)
    requires
        bits@.len() % 8 == 0,
    ensures
        r@ == spec_be_bytes(spec_bits_value(bits@), bits@.len() / 8),
{
    let nbytes = bits.len() / 8;
    let mut out: Vec<u8> = Vec::new();
    let mut k: usize = 0;
    proof {
        assert(bits@.subrange(0, 0) =~= Seq::<bool>::empty());
    }
    while k < nbytes
        invariant
            nbytes == bits@.len() / 8,
            bits@.len() % 8 == 0,
            bits@.len() <= usize::MAX,
            k <= nbytes,
            out@ == spec_be_bytes(spec_bits_value(bits@.subrange(0, k * 8)), k as nat),
        decreases nbytes - k,
    {
        let mut byte: u8 = 0;
        let mut j: usize = 0;
        assert(k * 8 + 8 <= bits@.len());
        let base = k * 8;
        proof {
            assert(bits@.subrange(k * 8, k * 8) =~= Seq::<bool>::empty());
            assert(spec_bits_value(Seq::<bool>::empty()) == 0);
            vstd::arithmetic::power2::lemma2_to64();
        }
        while j < 8
            invariant
                k < nbytes,
                nbytes == bits@.len() / 8,
                bits@.len() % 8 == 0,
                base == k * 8,
                base + 8 <= bits@.len(),
                j <= 8,
                byte as nat == spec_bits_value(bits@.subrange(k * 8, k * 8 + j)),
                byte < pow2(j as nat),
            decreases 8 - j,
        {
            let ghost before = bits@.subrange(k * 8, k * 8 + j);
            proof {
                assert(bits@.subrange(k * 8, k * 8 + j + 1).drop_last() =~= before);
                lemma_pow2_unfold((j + 1) as nat);
                if j < 7 {
                    vstd::arithmetic::power2::lemma_pow2_strictly_increases((j + 1) as nat, 8);
                }
                vstd::arithmetic::power2::lemma2_to64();
                assert(k * 8 + j < bits@.len());
            }
            byte = byte * 2 + if bits[base + j] {
                1u8
            } else {
                0u8
            };
            j = j + 1;
        }
        proof {
            let prefix = bits@.subrange(0, k * 8);
            let chunk = bits@.subrange(k * 8, k * 8 + 8);
            assert(bits@.subrange(0, (k + 1) * 8) =~= prefix + chunk);
            lemma_bits_value_concat(prefix, chunk);
            vstd::arithmetic::power2::lemma2_to64();
            let v = spec_bits_value(prefix);
            let w = spec_bits_value(bits@.subrange(0, (k + 1) * 8));
            assert(w == v * 256 + byte);
            vstd::arithmetic::div_mod::lemma_fundamental_div_mod_converse(
                w as int,
                256,
                v as int,
                byte as int,
            );
        }
        out.push(byte);
        k = k + 1;
    }
    proof {
        assert(bits@.subrange(0, nbytes * 8) =~= bits@);
    }
    out
}

/// Greatest common divisor.
pub fn gcd(a: usize, b: usize) -> (r: usize)
    ensures
        r == spec_gcd(a as nat, b as nat),
{
    let mut left = a;
    let mut right = b;
    while right != 0
        invariant
            spec_gcd(left as nat, right as nat) == spec_gcd(a as nat, b as nat),
        decreases right,
    {
        let next = left % right;
        left = right;
        right = next;
    }
    left
}

pub(crate) proof fn lemma_gcd_positive(a: nat, b: nat)
    requires
        a > 0 || b > 0,
    ensures
        spec_gcd(a, b) > 0,
    decreases b,
{
    if b > 0 {
        lemma_gcd_positive(b, a % b);
    }
}

} // verus!
