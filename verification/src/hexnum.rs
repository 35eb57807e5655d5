//! The numeric value of a hexadecimal digest string, and a verified test of
//! whether a 64-digit digest, read as a 256-bit unsigned integer, falls below
//! the proof-of-work threshold `2^(256 - difficulty)`.

use vstd::prelude::*;
use vstd::arithmetic::power2::lemma2_to64;
use vstd::arithmetic::power2::lemma_pow2_adds;
use vstd::arithmetic::power2::lemma_pow2_pos;
use vstd::arithmetic::power2::pow2;
use vstd::arithmetic::mul::lemma_mul_inequality;
use vstd::arithmetic::mul::lemma_mul_is_commutative;
use vstd::string::StrSliceExecFns;

verus! {

/// `c` is a lowercase hexadecimal digit.
pub open spec fn is_hex_digit(c: char) -> bool {
    c == '0' || c == '1' || c == '2' || c == '3' || c == '4' || c == '5' || c == '6' || c == '7'
        || c == '8' || c == '9' || c == 'a' || c == 'b' || c == 'c' || c == 'd' || c == 'e' || c
        == 'f'
}

/// The numeric value of one lowercase hexadecimal digit (0 for any other character).
pub open spec fn hex_digit_val(c: char) -> nat {
    if c == '1' {
        1
    } else if c == '2' {
        2
    } else if c == '3' {
        3
    } else if c == '4' {
        4
    } else if c == '5' {
        5
    } else if c == '6' {
        6
    } else if c == '7' {
        7
    } else if c == '8' {
        8
    } else if c == '9' {
        9
    } else if c == 'a' {
        10
    } else if c == 'b' {
        11
    } else if c == 'c' {
        12
    } else if c == 'd' {
        13
    } else if c == 'e' {
        14
    } else if c == 'f' {
        15
    } else {
        0
    }
}

/// The value of a hexadecimal digit string read most significant digit first.
pub open spec fn hex_val(s: Seq<char>) -> nat
    decreases s.len(),
{
    if s.len() == 0 {
        0
    } else {
        hex_val(s.drop_last()) * 16 + hex_digit_val(s.last())
    }
}

/// A digit string of length `n` has a value below `16^n`.
pub proof fn lemma_hex_val_bound(s: Seq<char>)
    ensures
        hex_val(s) < pow2(4 * s.len()),
    decreases s.len(),
{
    if s.len() == 0 {
        assert(pow2(0) == 1) by {
            lemma2_to64();
        }
    } else {
        let s0 = s.drop_last();
        lemma_hex_val_bound(s0);
        let p = pow2(4 * s0.len());
        lemma_pow2_adds(4 * s0.len(), 4);
        assert(pow2(4) == 16) by {
            lemma2_to64();
        }
        assert(hex_val(s0) * 16 + hex_digit_val(s.last()) < p * 16) by (nonlinear_arith)
            requires
                hex_val(s0) < p,
                hex_digit_val(s.last()) < 16,
        ;
    }
}

/// Splitting a digit string at position `k` splits its value.
pub proof fn lemma_hex_val_split(s: Seq<char>, k: int)
    requires
        0 <= k <= s.len(),
    ensures
        hex_val(s) == hex_val(s.take(k)) * pow2((4 * (s.len() - k)) as nat) + hex_val(s.skip(k)),
    decreases s.len(),
{
    if k == s.len() {
        assert(s.take(k) =~= s);
        assert(s.skip(k) =~= Seq::<char>::empty());
        assert(pow2(0) == 1) by {
            lemma2_to64();
        }
        assert(hex_val(s.skip(k)) == 0);
        assert((4 * (s.len() - k)) as nat == 0);
        assert(hex_val(s) * 1 == hex_val(s)) by (nonlinear_arith);
        assert(hex_val(s) == hex_val(s.take(k)) * pow2((4 * (s.len() - k)) as nat) + hex_val(
            s.skip(k),
        ));
    } else {
        let s0 = s.drop_last();
        lemma_hex_val_split(s0, k);
        assert(s.take(k) =~= s0.take(k));
        assert(s.skip(k).drop_last() =~= s0.skip(k));
        assert(s.skip(k).last() == s.last());
        let d = hex_digit_val(s.last());
        let hvt = hex_val(s.take(k));
        let hvs0 = hex_val(s0.skip(k));
        let p = pow2((4 * (s0.len() - k)) as nat);
        assert(hex_val(s) == hex_val(s0) * 16 + d);
        assert(hex_val(s0) == hvt * p + hvs0);
        assert(s.skip(k).len() > 0);
        assert(hex_val(s.skip(k)) == hvs0 * 16 + d);
        lemma_pow2_adds((4 * (s0.len() - k)) as nat, 4);
        assert(pow2(4) == 16) by {
            lemma2_to64();
        }
        assert((4 * (s.len() - k)) as nat == (4 * (s0.len() - k)) as nat + 4);
        assert(pow2((4 * (s.len() - k)) as nat) == p * 16);
        assert((hvt * p + hvs0) * 16 + d == hvt * (p * 16) + (hvs0 * 16 + d)) by (nonlinear_arith);
        assert(hex_val(s) == hvt * pow2((4 * (s.len() - k)) as nat) + hex_val(s.skip(k)));
    }
}

/// A digit string of hexadecimal digits has value 0 exactly when every digit
/// is the character `'0'`.
pub proof fn lemma_hex_val_zero(s: Seq<char>)
    requires
        forall|i: int| 0 <= i < s.len() ==> is_hex_digit(#[trigger] s[i]),
    ensures
        (hex_val(s) == 0) <==> (forall|i: int| 0 <= i < s.len() ==> s[i] == '0'),
    decreases s.len(),
{
    if s.len() > 0 {
        let s0 = s.drop_last();
        assert(forall|i: int| 0 <= i < s0.len() ==> is_hex_digit(#[trigger] s0[i]));
        lemma_hex_val_zero(s0);
        let d = hex_digit_val(s.last());
        assert((hex_val(s0) * 16 + d == 0) <==> (hex_val(s0) == 0 && d == 0)) by (nonlinear_arith);
        if hex_val(s) == 0 {
            assert(forall|i: int| 0 <= i < s.len() - 1 ==> #[trigger] s[i] == s0[i]);
        }
    }
}

/// The check the miner makes on a digest string: the first `d / 4` digits are
/// `'0'`, and where `d` is not a multiple of 4 the next digit stays below
/// `2^(4 - d % 4)`.
pub open spec fn pow_check(s: Seq<char>, d: nat) -> bool {
    &&& (forall|i: int| 0 <= i < d / 4 ==> s[i] == '0')
    &&& (d % 4 == 0 || hex_digit_val(s[(d / 4) as int]) < pow2((4 - d % 4) as nat))
}

/// For a 64-digit hexadecimal string, the digit-wise check is exactly the
/// numeric statement that the value falls below `2^(256 - d)`.
#[verifier::rlimit(30)]
pub proof fn lemma_hex_threshold(s: Seq<char>, d: nat)
    requires
        s.len() == 64,
        d <= 256,
        forall|i: int| 0 <= i < s.len() ==> is_hex_digit(#[trigger] s[i]),
    ensures
        (hex_val(s) < pow2((256 - d) as nat)) <==> pow_check(s, d),
{
    let k = (d / 4) as int;
    let r = d % 4;
    lemma_hex_val_split(s, k);
    let hvt = hex_val(s.take(k));
    lemma_hex_val_bound(s.skip(k));
    assert(forall|i: int| 0 <= i < k ==> is_hex_digit(#[trigger] s.take(k)[i]));
    lemma_hex_val_zero(s.take(k));
    assert(forall|i: int| 0 <= i < k ==> s.take(k)[i] == s[i]);
    let pz = forall|i: int| 0 <= i < d / 4 ==> s[i] == '0';
    if hvt == 0 {
        assert forall|i: int| 0 <= i < d / 4 implies s[i] == '0' by {
            assert(s.take(k)[i] == s[i]);
            assert(s.take(k)[i] == '0');
        }
        assert(pz);
    }
    if pz {
        assert forall|i: int| 0 <= i < k implies s.take(k)[i] == '0' by {
            assert(s.take(k)[i] == s[i]);
            assert(s[i] == '0');
        }
        assert(hvt == 0);
    }
    assert((hvt == 0) <==> pz);
    if r == 0 {
        let qp = (4 * (64 - k)) as nat;
        assert(qp == (256 - d) as nat);
        let p = pow2(qp);
        lemma_pow2_pos(qp);
        assert(s.skip(k).len() == (64 - k) as nat);
        assert(hex_val(s.skip(k)) < p);
        assert(hex_val(s) == hvt * p + hex_val(s.skip(k)));
        if hvt == 0 {
            assert(hvt * p == 0) by (nonlinear_arith)
                requires
                    hvt == 0,
            ;
            assert(hex_val(s) < p);
        } else {
            lemma_mul_inequality(1, hvt as int, p as int);
            assert(hex_val(s) >= p);
        }
        assert((hex_val(s) < pow2((256 - d) as nat)) <==> (hvt == 0));
        assert(pow_check(s, d) <==> pz);
    } else {
        assert(k <= 63);
        lemma_hex_val_split(s, k + 1);
        assert(s.take(k + 1).drop_last() =~= s.take(k));
        assert(s.take(k + 1).last() == s[k]);
        let dv = hex_digit_val(s[k]);
        assert(hex_val(s.take(k + 1)) == hvt * 16 + dv);
        let a = hvt * 16 + dv;
        let q = pow2((4 * (63 - k)) as nat);
        let t = pow2((4 - r) as nat);
        lemma_pow2_adds((4 * (63 - k)) as nat, (4 - r) as nat);
        assert((256 - d) as nat == (4 * (63 - k) + (4 - r)) as nat);
        assert(pow2((256 - d) as nat) == q * t);
        lemma_mul_is_commutative(q as int, t as int);
        assert(pow2((256 - d) as nat) == t * q);
        lemma_hex_val_bound(s.skip(k + 1));
        let rest = hex_val(s.skip(k + 1));
        assert(s.skip(k + 1).len() == (63 - k) as nat);
        assert(rest < q);
        assert((4 * (s.len() - (k + 1))) as nat == (4 * (63 - k)) as nat);
        assert(hex_val(s) == a * q + rest);
        assert(dv < 16);
        lemma_pow2_pos((4 * (63 - k)) as nat);
        lemma_pow2_pos((4 - r) as nat);
        assert(t <= 8) by {
            lemma2_to64();
        }
        if a < t {
            lemma_mul_inequality(a as int, t as int - 1, q as int);
            assert(a * q + rest < t * q) by (nonlinear_arith)
                requires
                    a * q <= (t - 1) * q,
                    rest < q,
                    q > 0,
            ;
            assert(hex_val(s) < pow2((256 - d) as nat));
        } else {
            lemma_mul_inequality(t as int, a as int, q as int);
            assert(a * q + rest >= t * q);
            assert(!(hex_val(s) < pow2((256 - d) as nat)));
        }
        assert((a < t) <==> (hvt == 0 && dv < t)) by (nonlinear_arith)
            requires
                a == hvt * 16 + dv,
                dv < 16,
                t <= 8,
                hvt >= 0,
        ;
        assert((hex_val(s) < pow2((256 - d) as nat)) <==> (a < t));
        assert(pow_check(s, d) <==> (pz && dv < t));
    }
}

fn hex_char_val(c: char) -> (v: u64)
    requires
        is_hex_digit(c),
    ensures
        v as nat == hex_digit_val(c),
{
    if c == '0' {
        0
    } else if c == '1' {
        1
    } else if c == '2' {
        2
    } else if c == '3' {
        3
    } else if c == '4' {
        4
    } else if c == '5' {
        5
    } else if c == '6' {
        6
    } else if c == '7' {
        7
    } else if c == '8' {
        8
    } else if c == '9' {
        9
    } else if c == 'a' {
        10
    } else if c == 'b' {
        11
    } else if c == 'c' {
        12
    } else if c == 'd' {
        13
    } else if c == 'e' {
        14
    } else {
        15
    }
}

/// Decide whether a 64-digit hexadecimal digest, read as a 256-bit unsigned
/// integer, is at most `2^(256 - difficulty) - 1`.
pub fn meets_target(hash: &str, difficulty: u64) -> (b: bool)
    requires
        hash@.len() == 64,
        forall|i: int| 0 <= i < hash@.len() ==> is_hex_digit(#[trigger] hash@[i]),
        difficulty <= 256,
    ensures
        b == (hex_val(hash@) < pow2((256 - difficulty) as nat)),
{
    let k = (difficulty / 4) as usize;
    let r = difficulty % 4;
    let mut i: usize = 0;
    while i < k
        invariant
            hash@.len() == 64,
            forall|j: int| 0 <= j < hash@.len() ==> is_hex_digit(#[trigger] hash@[j]),
            k == difficulty / 4,
            difficulty <= 256,
            i <= k,
            forall|j: int| 0 <= j < i ==> hash@[j] == '0',
        decreases k - i,
    {
        if hash.get_char(i) != '0' {
            proof {
                lemma_hex_threshold(hash@, difficulty as nat);
                assert(hash@[i as int] != '0');
                assert(i < (difficulty as nat) / 4);
                assert(!pow_check(hash@, difficulty as nat));
            }
            return false;
        }
        i = i + 1;
    }
    proof {
        lemma_hex_threshold(hash@, difficulty as nat);
    }
    if r > 0 {
        let c = hash.get_char(k);
        let v = hex_char_val(c);
        let bound: u64 = if r == 1 {
            8
        } else if r == 2 {
            4
        } else {
            2
        };
        proof {
            lemma2_to64();
            assert(k as int == (difficulty as nat) / 4);
            assert(bound as nat == pow2((4 - (difficulty as nat) % 4) as nat));
        }
        if v >= bound {
            proof {
                assert(!pow_check(hash@, difficulty as nat));
            }
            return false;
        }
    }
    true
}

} // verus!
