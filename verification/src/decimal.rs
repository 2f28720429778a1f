//! Decimal notation of field elements, by long division of their limbs by ten.

use crate::fp::{limbs_bounded, limbs_val, radix, Fp};
use vstd::prelude::*;

verus! {

/// The decimal digit `d` as text.
pub open spec fn digit_text(d: nat) -> Seq<char> {
    if d == 0 {
        "0"@
    } else if d == 1 {
        "1"@
    } else if d == 2 {
        "2"@
    } else if d == 3 {
        "3"@
    } else if d == 4 {
        "4"@
    } else if d == 5 {
        "5"@
    } else if d == 6 {
        "6"@
    } else if d == 7 {
        "7"@
    } else if d == 8 {
        "8"@
    } else {
        "9"@
    }
}

/// `n` in decimal notation, most significant digit first, without leading zeros.
pub open spec fn decimal(n: nat) -> Seq<char>
    decreases n,
{
    if n < 10 {
        digit_text(n)
    } else {
        decimal(n / 10) + digit_text(n % 10)
    }
}

/// The number that a text of decimal digits stands for.
pub open spec fn digits_value(s: Seq<char>) -> int
    decreases s.len(),
{
    if s.len() == 0 {
        0
    } else {
        digits_value(s.drop_last()) * 10 + (s.last() as int - '0' as int)
    }
}

/// The decimal notation of `n` stands for `n`, is made of digits, and starts with a zero
/// only for zero itself.
pub proof fn lemma_decimal_value(n: nat)
    ensures
        digits_value(decimal(n)) == n,
        decimal(n).len() >= 1,
        forall|i: int| 0 <= i < decimal(n).len() ==> '0' <= #[trigger] decimal(n)[i] <= '9',
        decimal(n)[0] == '0' ==> n == 0,
    decreases n,
{
    reveal_strlit("0");
    reveal_strlit("1");
    reveal_strlit("2");
    reveal_strlit("3");
    reveal_strlit("4");
    reveal_strlit("5");
    reveal_strlit("6");
    reveal_strlit("7");
    reveal_strlit("8");
    reveal_strlit("9");
    assert forall|d: nat| d < 10 implies #[trigger] digit_text(d).len() == 1 && digit_text(d)[0]
        as int - '0' as int == d && '0' <= digit_text(d)[0] <= '9' by {
        assert('1' as int == '0' as int + 1);
        assert('2' as int == '0' as int + 2);
        assert('3' as int == '0' as int + 3);
        assert('4' as int == '0' as int + 4);
        assert('5' as int == '0' as int + 5);
        assert('6' as int == '0' as int + 6);
        assert('7' as int == '0' as int + 7);
        assert('8' as int == '0' as int + 8);
        assert('9' as int == '0' as int + 9);
    }
    if n < 10 {
        assert(digit_text(n).len() == 1);
        assert(digit_text(n).drop_last() =~= Seq::<char>::empty());
        assert(digits_value(digit_text(n)) == digits_value(Seq::<char>::empty()) * 10 + (
        digit_text(n)[0] as int - '0' as int));
    } else {
        vstd::arithmetic::div_mod::lemma_fundamental_div_mod(n as int, 10);
        lemma_decimal_value(n / 10);
        let d = decimal(n / 10);
        let t = digit_text(n % 10);
        assert(t.len() == 1);
        assert((d + t).drop_last() =~= d);
        assert((d + t).last() == t[0]);
        assert((d + t)[0] == d[0]);
        assert(digits_value(d + t) == digits_value(d) * 10 + (t[0] as int - '0' as int));
        assert forall|i: int| 0 <= i < (d + t).len() implies '0' <= #[trigger] (d + t)[i] <= '9' by {
            if i < d.len() {
                assert((d + t)[i] == d[i]);
            }
        }
    }
}

/// The text of one decimal digit.
fn digit_str(d: u64) -> (r: &'static str)
    requires
        d < 10,
    ensures
        r@ == digit_text(d as nat),
{
    match d {
        0 => "0",
        1 => "1",
        2 => "2",
        3 => "3",
        4 => "4",
        5 => "5",
        6 => "6",
        7 => "7",
        8 => "8",
        _ => "9",
    }
}

/// The value of the limbs from `i` on is the limb at `i` plus the radix times the value
/// of those from `i + 1` on.
proof fn lemma_skip_limb(s: Seq<u64>, i: int)
    requires
        0 <= i < s.len(),
    ensures
        limbs_val(s.skip(i)) == s[i] as nat + radix() * limbs_val(s.skip(i + 1)),
{
    assert(s.skip(i).drop_first() =~= s.skip(i + 1));
}

/// Limbs stand for zero exactly when every limb is zero.
proof fn lemma_zero_limbs(s: Seq<u64>)
    ensures
        (limbs_val(s) == 0) == (forall|i: int| 0 <= i < s.len() ==> s[i] == 0),
    decreases s.len(),
{
    if s.len() > 0 {
        let t = s.drop_first();
        lemma_zero_limbs(t);
        if limbs_val(s) == 0 {
            assert(radix() * limbs_val(t) >= 0) by (nonlinear_arith);
            assert(limbs_val(t) == 0) by (nonlinear_arith)
                requires
                    s[0] as nat + radix() * limbs_val(t) == 0,
                    radix() > 0,
            ;
            assert forall|i: int| 0 <= i < s.len() implies s[i] == 0 by {
                if i > 0 {
                    assert(s[i] == t[i - 1]);
                }
            }
        }
        if forall|i: int| 0 <= i < s.len() ==> s[i] == 0 {
            assert forall|i: int| 0 <= i < t.len() implies t[i] == 0 by {
                assert(t[i] == s[i + 1]);
            }
            assert(s[0] == 0);
        }
    }
}

/// The quotient and remainder of the division by ten of the number with limbs `a`.
fn div_rem_10(a: &[u64; 12]) -> (r: ([u64; 12], u64))
    requires
        limbs_bounded(a@),
    ensures
        limbs_bounded(r.0@),
        r.1 < 10,
        limbs_val(a@) == 10 * limbs_val(r.0@) + r.1,
{
    let mut q: [u64; 12] = [0u64; 12];
    let mut rem: u64 = 0;
    let mut i: usize = 12;
    proof {
        assert(a@.skip(12) =~= Seq::<u64>::empty());
        assert(q@.skip(12) =~= Seq::<u64>::empty());
    }
    while i > 0
        invariant
            0 <= i <= 12,
            rem < 10,
            limbs_bounded(a@),
            forall|j: int| i <= j < 12 ==> #[trigger] q@[j] < 4294967296u64,
            limbs_val(a@.skip(i as int)) == 10 * limbs_val(q@.skip(i as int)) + rem,
        decreases i,
    {
        i = i - 1;
        let ghost q0 = q@;
        let ghost rem0 = rem;
        let limb = a[i];
        assert(limb < 4294967296u64);
        let cur: u64 = rem * 4294967296u64 + limb;
        let digit = cur / 10;
        rem = cur % 10;
        q[i] = digit;
        proof {
            lemma_skip_limb(a@, i as int);
            lemma_skip_limb(q@, i as int);
            assert(q@.skip(i as int + 1) =~= q0.skip(i as int + 1));
            let big_q = limbs_val(q0.skip(i as int + 1));
            assert(cur == 10 * digit + rem);
            assert(digit < 4294967296u64);
            assert(limbs_val(a@.skip(i as int)) == 10 * limbs_val(q@.skip(i as int)) + rem)
                by (nonlinear_arith)
                requires
                    limbs_val(a@.skip(i as int)) == limb as nat + radix() * limbs_val(
                        a@.skip(i as int + 1),
                    ),
                    limbs_val(a@.skip(i as int + 1)) == 10 * big_q + rem0,
                    limbs_val(q@.skip(i as int)) == digit as nat + radix() * big_q,
                    cur == rem0 * 4294967296u64 + limb,
                    cur == 10 * digit + rem,
                    radix() == 4294967296nat,
            ;
        }
    }
    proof {
        assert(a@.skip(0) =~= a@);
        assert(q@.skip(0) =~= q@);
    }
    (q, rem)
}

/// Returns `true` if every limb is zero.
fn limbs_are_zero(a: &[u64; 12]) -> (r: bool)
    ensures
        r == (limbs_val(a@) == 0),
{
    proof {
        lemma_zero_limbs(a@);
    }
    let mut i: usize = 0;
    while i < 12
        invariant
            0 <= i <= 12,
            forall|j: int| 0 <= j < i ==> a@[j] == 0,
        decreases 12 - i,
    {
        if a[i] != 0 {
            proof {
                lemma_zero_limbs(a@);
                assert(a@[i as int] != 0);
            }
            return false;
        }
        i = i + 1;
    }
    proof {
        lemma_zero_limbs(a@);
    }
    true
}

/// The number with limbs `a` in decimal notation.
fn decimal_of(a: [u64; 12]) -> (r: String)
    requires
        limbs_bounded(a@),
    ensures
        r@ == decimal(limbs_val(a@)),
    decreases limbs_val(a@),
{
    let (q, d) = div_rem_10(&a);
    let n = Ghost(limbs_val(a@));
    proof {
        vstd::arithmetic::div_mod::lemma_fundamental_div_mod_converse(
            n@ as int,
            10,
            limbs_val(q@) as int,
            d as int,
        );
    }
    if limbs_are_zero(&q) {
        let mut s = String::new();
        s.append(digit_str(d));
        s
    } else {
        let mut s = decimal_of(q);
        s.append(digit_str(d));
        s
    }
}

impl Fp {
    /// The field element in decimal notation.
    pub fn to_string(&self) -> (r: String)
        ensures
            r@ == decimal(self@),
    {
        let limbs = self.to_limbs();
        decimal_of(limbs)
    }
}

} // verus!
