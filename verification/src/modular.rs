//! Element-wise addition and subtraction of number sequences modulo a
//! positive modulus, with residues numbered from 1 to the modulus: a result
//! that is a multiple of the modulus is written as the modulus, never as 0.

use vstd::prelude::*;
use vstd::arithmetic::div_mod::{
    lemma_fundamental_div_mod,
    lemma_fundamental_div_mod_converse_mod,
    lemma_mod_bound,
    lemma_mod_multiples_vanish,
    lemma_small_mod,
};
use crate::error::CipherError;

verus! {

/// The residue `r` of a division by `m`, with 0 written as `m`.
pub open spec fn wrap(r: int, m: int) -> int {
    if r == 0 {
        m
    } else {
        r
    }
}

/// `x + y` modulo `m`, in `1..=m`.
pub open spec fn add_mod(x: int, y: int, m: int) -> int {
    wrap((x + y) % m, m)
}

/// `x - y` modulo `m`, in `1..=m`.
pub open spec fn sub_mod(x: int, y: int, m: int) -> int {
    wrap((x - y + m) % m, m)
}

/// The element-wise sum of `a` and `b` modulo `m`.
pub open spec fn added(a: Seq<usize>, b: Seq<usize>, m: int) -> Seq<usize> {
    Seq::new(a.len(), |i: int| add_mod(a[i] as int, b[i] as int, m) as usize)
}

/// The element-wise difference of `a` and `b` modulo `m`.
pub open spec fn subtracted(a: Seq<usize>, b: Seq<usize>, m: int) -> Seq<usize> {
    Seq::new(a.len(), |i: int| sub_mod(a[i] as int, b[i] as int, m) as usize)
}

/// The remainder of a negative `d`, from the remainder of `-d`.
proof fn lemma_mod_of_negative(d: int, m: int)
    requires
        d < 0,
        m > 0,
    ensures
        d % m == if (-d) % m == 0 {
            0
        } else {
            m - (-d) % m
        },
{
    let q = (-d) / m;
    let r = (-d) % m;
    lemma_fundamental_div_mod(-d, m);
    lemma_mod_bound(-d, m);
    if r == 0 {
        assert(d == (-q) * m + 0) by (nonlinear_arith)
            requires
                -d == m * q + r,
                r == 0,
        ;
        lemma_fundamental_div_mod_converse_mod(d, m, -q, 0);
    } else {
        assert(d == (-q - 1) * m + (m - r)) by (nonlinear_arith)
            requires
                -d == m * q + r,
        ;
        lemma_fundamental_div_mod_converse_mod(d, m, -q - 1, m - r);
    }
}

/// Adds `b` to `a` element by element modulo `modulus`, which must not be 0;
/// a sum that is a multiple of the modulus comes out as the modulus itself,
/// never as 0. The elements may be any numbers: no sum overflows. Sequences
/// of different lengths are refused with `LengthMismatch`.
pub fn modulo_add(a: &Vec<usize>, b: &Vec<usize>, modulus: usize) -> (r: Result<
    Vec<usize>,
    CipherError,
>)
    requires
        modulus > 0,
    ensures
        match r {
            Ok(v) => a.len() == b.len() && v@ == added(a@, b@, modulus as int),
            Err(e) => a.len() != b.len() && e == (CipherError::LengthMismatch {
                left: a.len(),
                right: b.len(),
            }),
        },
{
    if a.len() != b.len() {
        return Err(CipherError::LengthMismatch { left: a.len(), right: b.len() });
    }
    let mut out: Vec<usize> = Vec::new();
    let mut i: usize = 0;
    while i < a.len()
        invariant
            modulus > 0,
            a.len() == b.len(),
            i <= a.len(),
            out.len() == i,
            forall|j: int|
                0 <= j < i ==> out[j] as int == add_mod(a[j] as int, b[j] as int, modulus as int),
        decreases a.len() - i,
    {
        let sum: u128 = a[i] as u128 + b[i] as u128;
        let rem: usize = (sum % (modulus as u128)) as usize;
        out.push(if rem == 0 { modulus } else { rem });
        i += 1;
    }
    Ok(out)
}

/// Subtracts `b` from `a` element by element modulo `modulus`, which must be
/// positive; a difference that is a multiple of the modulus comes out as the
/// modulus itself, never as 0. The elements may be any numbers: each
/// difference is formed in signed arithmetic wide enough to hold it, and a
/// negative one is brought back into range. Sequences of different lengths
/// are refused with `LengthMismatch`.
pub fn modulo_subtract(a: &Vec<usize>, b: &Vec<usize>, modulus: i8) -> (r: Result<
    Vec<usize>,
    CipherError,
>)
    requires
        modulus > 0,
    ensures
        match r {
            Ok(v) => a.len() == b.len() && v@ == subtracted(a@, b@, modulus as int),
            Err(e) => a.len() != b.len() && e == (CipherError::LengthMismatch {
                left: a.len(),
                right: b.len(),
            }),
        },
{
    if a.len() != b.len() {
        return Err(CipherError::LengthMismatch { left: a.len(), right: b.len() });
    }
    let m: i128 = modulus as i128;
    let mut out: Vec<usize> = Vec::new();
    let mut i: usize = 0;
    while i < a.len()
        invariant
            m == modulus,
            modulus > 0,
            a.len() == b.len(),
            i <= a.len(),
            out.len() == i,
            forall|j: int|
                0 <= j < i ==> out[j] as int == sub_mod(a[j] as int, b[j] as int, modulus as int),
        decreases a.len() - i,
    {
        let diff: i128 = a[i] as i128 - b[i] as i128 + m;
        let rem: i128 = diff % m;
        proof {
            if diff < 0 {
                lemma_mod_of_negative(diff as int, m as int);
            }
        }
        let rem: usize = (if rem < 0 { rem + m } else { rem }) as usize;
        out.push(if rem == 0 { modulus as usize } else { rem });
        i += 1;
    }
    Ok(out)
}

/// Sums and differences modulo `m` lie in `1..=m`.
pub proof fn lemma_mod_results_in_range(x: int, y: int, m: int)
    requires
        m > 0,
    ensures
        1 <= add_mod(x, y, m) <= m,
        1 <= sub_mod(x, y, m) <= m,
{
    lemma_mod_bound(x + y, m);
    lemma_mod_bound(x - y + m, m);
}

/// Subtracting `y` undoes adding `y`, for every `x` in `1..=m`.
pub proof fn lemma_sub_mod_inverts_add_mod(x: int, y: int, m: int)
    requires
        m > 0,
        1 <= x <= m,
    ensures
        sub_mod(add_mod(x, y, m), y, m) == x,
{
    let s = add_mod(x, y, m);
    let q = (x + y) / m;
    let r = (x + y) % m;
    let k = if r == 0 {
        q - 1
    } else {
        q
    };
    lemma_fundamental_div_mod(x + y, m);
    assert(s - y + m == m * (1 - k) + x) by (nonlinear_arith)
        requires
            x + y == m * q + r,
            r == 0 ==> s == m && k == q - 1,
            r != 0 ==> s == r && k == q,
    ;
    lemma_mod_multiples_vanish(1 - k, x, m);
    if x == m {
        lemma_mod_multiples_vanish(1, 0, m);
        lemma_small_mod(0, m as nat);
    } else {
        lemma_small_mod(x as nat, m as nat);
    }
}

/// The inverse law of the combiner: for sequences of equal length, where
/// every element of `a` lies in `1..=m`, subtracting `b` from the sum of `a`
/// and `b` gives `a` back.
pub proof fn lemma_subtract_inverts_add(a: Seq<usize>, b: Seq<usize>, m: usize)
    requires
        m > 0,
        a.len() == b.len(),
        forall|i: int| 0 <= i < a.len() ==> 1 <= #[trigger] a[i] <= m,
    ensures
        subtracted(added(a, b, m as int), b, m as int) == a,
{
    assert forall|i: int| 0 <= i < a.len() implies #[trigger] subtracted(
        added(a, b, m as int),
        b,
        m as int,
    )[i] == a[i] by {
        lemma_mod_results_in_range(a[i] as int, b[i] as int, m as int);
        lemma_sub_mod_inverts_add_mod(a[i] as int, b[i] as int, m as int);
    }
    assert(subtracted(added(a, b, m as int), b, m as int) =~= a);
}

} // verus!
