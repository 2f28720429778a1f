//! The base field of BLS12-377: integers modulo a 377-bit prime `p`,
//! stored as twelve little-endian 32-bit limbs (each held in a `u64`).

use vstd::arithmetic::div_mod::*;
use vstd::arithmetic::power::*;
use vstd::arithmetic::power2::*;
use vstd::prelude::*;

verus! {

/// The number of 32-bit limbs of a field element.
pub const NUM_LIMBS: usize = 12;

/// The modulus `p` of the BLS12-377 base field.
pub open spec fn modulus() -> nat {
    258664426012969094010652733694893533536393512754914660539884262666720468348340822774968888139573360124440321458177nat
}

/// The radix of one limb, `2^32`.
pub open spec fn radix() -> nat {
    4294967296nat
}

/// `radix()^i`.
pub open spec fn radix_pow(i: nat) -> nat
    decreases i,
{
    if i == 0 {
        1
    } else {
        radix() * radix_pow((i - 1) as nat)
    }
}

/// The number that a little-endian sequence of limbs stands for.
pub open spec fn limbs_val(s: Seq<u64>) -> nat
    decreases s.len(),
{
    if s.len() == 0 {
        0
    } else {
        s[0] as nat + radix() * limbs_val(s.drop_first())
    }
}

/// `(a - b) mod p`.
pub open spec fn sub_mod(a: nat, b: nat) -> nat {
    ((a + modulus() - b) % (modulus() as int)) as nat
}

/// The limbs of a field element in canonical form: bounded, twelve of them, and
/// standing for a number below the modulus.
pub open spec fn canonical_limbs(s: Seq<u64>) -> bool {
    &&& s.len() == 12
    &&& limbs_bounded(s)
    &&& limbs_val(s) < modulus()
}

/// Every limb is below the radix.
pub open spec fn limbs_bounded(s: Seq<u64>) -> bool {
    forall|i: int| 0 <= i < s.len() ==> #[trigger] s[i] < 4294967296u64
}

proof fn lemma_radix_pow_pos(i: nat)
    ensures
        radix_pow(i) > 0,
    decreases i,
{
    if i > 0 {
        lemma_radix_pow_pos((i - 1) as nat);
    }
}

/// Bounded limbs stand for a number below `radix()^len`.
proof fn lemma_limbs_val_bound(s: Seq<u64>)
    requires
        limbs_bounded(s),
    ensures
        limbs_val(s) < radix_pow(s.len()),
    decreases s.len(),
{
    if s.len() > 0 {
        let t = s.drop_first();
        assert(limbs_bounded(t)) by {
            assert forall|i: int| 0 <= i < t.len() implies #[trigger] t[i] < 4294967296u64 by {
                assert(t[i] == s[i + 1]);
            }
        }
        lemma_limbs_val_bound(t);
        let v = limbs_val(t);
        let r = radix_pow(t.len());
        assert(s[0] < 4294967296u64);
        assert(radix() * v + radix() <= radix() * r) by (nonlinear_arith)
            requires
                v < r,
                radix() == 4294967296nat,
        ;
    }
}

/// Appending one limb at the top of a prefix adds `limb * radix()^i`.
proof fn lemma_take_step(s: Seq<u64>, i: nat)
    requires
        i < s.len(),
    ensures
        limbs_val(s.take(i as int + 1)) == limbs_val(s.take(i as int)) + s[i as int] as nat
            * radix_pow(i),
    decreases i,
{
    if i == 0 {
        assert(s.take(1).drop_first() =~= Seq::<u64>::empty());
        assert(s.take(0) =~= Seq::<u64>::empty());
        assert(limbs_val(s.take(1)) == s[0] as nat + radix() * limbs_val(s.take(1).drop_first()));
        assert(limbs_val(Seq::<u64>::empty()) == 0);
        assert(limbs_val(s.take(1)) == s[0] as nat);
        assert(limbs_val(s.take(0)) == 0);
        assert(radix_pow(0) == 1);
    } else {
        let t = s.drop_first();
        lemma_take_step(t, (i - 1) as nat);
        assert(s.take(i as int + 1).drop_first() =~= t.take(i as int));
        assert(s.take(i as int).drop_first() =~= t.take(i as int - 1));
        assert(t[i as int - 1] == s[i as int]);
        let x = limbs_val(t.take(i as int - 1));
        let c = s[i as int] as nat;
        let q = radix_pow((i - 1) as nat);
        assert(radix() * (x + c * q) == radix() * x + c * (radix() * q)) by (nonlinear_arith);
        assert(s.take(i as int + 1)[0] == s[0]);
        assert(s.take(i as int)[0] == s[0]);
        assert(limbs_val(s.take(i as int + 1)) == s[0] as nat + radix() * limbs_val(
            t.take(i as int),
        ));
        assert(limbs_val(s.take(i as int)) == s[0] as nat + radix() * x);
        assert(radix_pow(i) == radix() * q);
    }
}

/// The whole of a sequence is its prefix of full length.
proof fn lemma_take_full(s: Seq<u64>)
    ensures
        s.take(s.len() as int) =~= s,
{
}

/// Splitting off the lowest limb.
proof fn lemma_skip_step(s: Seq<u64>, j: int)
    requires
        0 <= j < s.len(),
    ensures
        limbs_val(s.skip(j)) == s[j] as nat + radix() * limbs_val(s.skip(j + 1)),
{
    assert(s.skip(j).drop_first() =~= s.skip(j + 1));
}

/// Bounded limb sequences of equal length and equal value are equal.
proof fn lemma_limbs_injective(s: Seq<u64>, t: Seq<u64>)
    requires
        limbs_bounded(s),
        limbs_bounded(t),
        s.len() == t.len(),
        limbs_val(s) == limbs_val(t),
    ensures
        s =~= t,
    decreases s.len(),
{
    if s.len() > 0 {
        let s1 = s.drop_first();
        let t1 = t.drop_first();
        assert(s[0] < 4294967296u64);
        assert(t[0] < 4294967296u64);
        let a = limbs_val(s1) as int;
        let b = limbs_val(t1) as int;
        lemma_fundamental_div_mod_converse(limbs_val(s) as int, radix() as int, a, s[0] as int);
        lemma_fundamental_div_mod_converse(limbs_val(t) as int, radix() as int, b, t[0] as int);
        assert(limbs_bounded(s1)) by {
            assert forall|i: int| 0 <= i < s1.len() implies #[trigger] s1[i] < 4294967296u64 by {
                assert(s1[i] == s[i + 1]);
            }
        }
        assert(limbs_bounded(t1)) by {
            assert forall|i: int| 0 <= i < t1.len() implies #[trigger] t1[i] < 4294967296u64 by {
                assert(t1[i] == t[i + 1]);
            }
        }
        lemma_limbs_injective(s1, t1);
        assert forall|i: int| 0 <= i < s.len() implies s[i] == t[i] by {
            if i > 0 {
                assert(s[i] == s1[i - 1]);
                assert(t[i] == t1[i - 1]);
            }
        }
    }
}

/// Splits a sum below `2^34` into its low 32 bits and the carry.
proof fn lemma_split_u64(t: u64)
    requires
        t < 17179869184u64,
    ensures
        t == (t & 4294967295u64) + (t >> 32u64) * 4294967296u64,
        (t & 4294967295u64) < 4294967296u64,
        (t >> 32u64) < 4u64,
{
    assert(t == (t & 4294967295u64) + (t >> 32u64) * 4294967296u64) by (bit_vector)
        requires
            t < 17179869184u64,
    ;
    assert((t & 4294967295u64) < 4294967296u64) by (bit_vector);
    assert((t >> 32u64) < 4u64) by (bit_vector)
        requires
            t < 17179869184u64,
    ;
}

/// `a + b` over bounded limbs, with the carry out of the top limb.
fn add_limbs(a: &[u64; 12], b: &[u64; 12]) -> (res: ([u64; 12], u64))
    requires
        limbs_bounded(a@),
        limbs_bounded(b@),
    ensures
        limbs_bounded(res.0@),
        res.1 <= 1,
        limbs_val(res.0@) + res.1 * radix_pow(12) == limbs_val(a@) + limbs_val(b@),
{
    let mut r: [u64; 12] = [0u64; 12];
    let mut carry: u64 = 0;
    let mut i: usize = 0;
    while i < 12
        invariant
            0 <= i <= 12,
            carry <= 1,
            limbs_bounded(a@),
            limbs_bounded(b@),
            limbs_bounded(r@),
            limbs_val(a@.take(i as int)) + limbs_val(b@.take(i as int)) == limbs_val(
                r@.take(i as int),
            ) + carry * radix_pow(i as nat),
        decreases 12 - i,
    {
        assert(a@[i as int] < 4294967296u64);
        assert(b@[i as int] < 4294967296u64);
        let t: u64 = a[i] + b[i] + carry;
        proof {
            lemma_split_u64(t);
        }
        let low: u64 = t & 4294967295u64;
        let high: u64 = t >> 32u64;
        let ghost old_r = r@;
        r[i] = low;
        proof {
            assert(r@.take(i as int) =~= old_r.take(i as int));
            lemma_take_step(a@, i as nat);
            lemma_take_step(b@, i as nat);
            lemma_take_step(r@, i as nat);
            let q = radix_pow(i as nat);
            assert(radix_pow(i as nat + 1) == radix() * q);
            assert((a@[i as int] + b@[i as int] + carry) * q == low * q + high * (radix() * q))
                by (nonlinear_arith)
                requires
                    a@[i as int] + b@[i as int] + carry == low + high * radix(),
            ;
            assert(a@[i as int] as nat * q + b@[i as int] as nat * q + carry * q == (a@[i as int]
                + b@[i as int] + carry) * q) by (nonlinear_arith);
            assert forall|k: int| 0 <= k < r@.len() implies #[trigger] r@[k] < 4294967296u64 by {
                if k != i {
                    assert(r@[k] == old_r[k]);
                }
            }
        }
        carry = high;
        i = i + 1;
    }
    proof {
        lemma_take_full(a@);
        lemma_take_full(b@);
        lemma_take_full(r@);
    }
    (r, carry)
}

/// `a - b` over bounded limbs, with the borrow out of the top limb.
fn sub_limbs(a: &[u64; 12], b: &[u64; 12]) -> (res: ([u64; 12], u64))
    requires
        limbs_bounded(a@),
        limbs_bounded(b@),
    ensures
        limbs_bounded(res.0@),
        res.1 <= 1,
        limbs_val(a@) + res.1 * radix_pow(12) == limbs_val(b@) + limbs_val(res.0@),
{
    let mut r: [u64; 12] = [0u64; 12];
    let mut borrow: u64 = 0;
    let mut i: usize = 0;
    while i < 12
        invariant
            0 <= i <= 12,
            borrow <= 1,
            limbs_bounded(a@),
            limbs_bounded(b@),
            limbs_bounded(r@),
            limbs_val(a@.take(i as int)) + borrow * radix_pow(i as nat) == limbs_val(
                b@.take(i as int),
            ) + limbs_val(r@.take(i as int)),
        decreases 12 - i,
    {
        assert(a@[i as int] < 4294967296u64);
        assert(b@[i as int] < 4294967296u64);
        let t: u64 = a[i] + 4294967296u64 - b[i] - borrow;
        proof {
            lemma_split_u64(t);
        }
        let low: u64 = t & 4294967295u64;
        let high: u64 = t >> 32u64;
        assert(high <= 1);
        let ghost old_r = r@;
        r[i] = low;
        let next: u64 = 1 - high;
        proof {
            assert(r@.take(i as int) =~= old_r.take(i as int));
            lemma_take_step(a@, i as nat);
            lemma_take_step(b@, i as nat);
            lemma_take_step(r@, i as nat);
            let q = radix_pow(i as nat);
            assert(radix_pow(i as nat + 1) == radix() * q);
            assert(a@[i as int] * q + next * (radix() * q) == (low + b@[i as int] + borrow) * q)
                by (nonlinear_arith)
                requires
                    a@[i as int] + next * radix() == low + b@[i as int] + borrow,
            ;
            assert((low + b@[i as int] + borrow) * q == low * q + b@[i as int] * q + borrow * q)
                by (nonlinear_arith);
            assert forall|k: int| 0 <= k < r@.len() implies #[trigger] r@[k] < 4294967296u64 by {
                if k != i {
                    assert(r@[k] == old_r[k]);
                }
            }
        }
        borrow = next;
        i = i + 1;
    }
    proof {
        lemma_take_full(a@);
        lemma_take_full(b@);
        lemma_take_full(r@);
    }
    (r, borrow)
}


/// The limbs of the modulus.
fn modulus_limbs() -> (r: [u64; 12])
    ensures
        limbs_bounded(r@),
        limbs_val(r@) == modulus(),
{
    let r: [u64; 12] = [
        1u64,
        2231943168u64,
        805306368u64,
        386620740u64,
        3121170432u64,
        519266863u64,
        16061327u64,
        438491635u64,
        1822509371u64,
        3325756864u64,
        398790890u64,
        28195398u64,
    ];
    proof {
        reveal_with_fuel(limbs_val, 13);
        assert(r@ =~= seq![
            1u64,
            2231943168u64,
            805306368u64,
            386620740u64,
            3121170432u64,
            519266863u64,
            16061327u64,
            438491635u64,
            1822509371u64,
            3325756864u64,
            398790890u64,
            28195398u64,
        ]);
    }
    r
}

/// The limbs of `p - 2`, the exponent that inverts by Fermat's little theorem.
fn exponent_limbs() -> (r: [u64; 12])
    ensures
        limbs_bounded(r@),
        limbs_val(r@) == modulus() - 2,
{
    let r: [u64; 12] = [
        4294967295u64,
        2231943167u64,
        805306368u64,
        386620740u64,
        3121170432u64,
        519266863u64,
        16061327u64,
        438491635u64,
        1822509371u64,
        3325756864u64,
        398790890u64,
        28195398u64,
    ];
    proof {
        reveal_with_fuel(limbs_val, 13);
        assert(r@ =~= seq![
            4294967295u64,
            2231943167u64,
            805306368u64,
            386620740u64,
            3121170432u64,
            519266863u64,
            16061327u64,
            438491635u64,
            1822509371u64,
            3325756864u64,
            398790890u64,
            28195398u64,
        ]);
    }
    r
}

/// One step of double-and-add: from `x = a * n mod p`, doubling and adding `bit * a`
/// gives `a * (2n + bit) mod p`.
proof fn lemma_double_add_step(a: nat, x: nat, n: nat, bit: nat, y: nat)
    requires
        bit <= 1,
        a < modulus(),
        x == (a * n) % modulus(),
        y == (if bit == 1 {
            ((2 * x) % modulus() + a) % modulus()
        } else {
            (2 * x) % modulus()
        }),
    ensures
        y == (a * (2 * n + bit)) % modulus(),
{
    let m = modulus() as int;
    lemma_mul_mod_noop_right(2, (a * n) as int, m);
    assert(a * (2 * n + bit) == 2 * (a * n) + bit * a) by (nonlinear_arith);
    if bit == 1 {
        lemma_add_mod_noop(2 * (a * n) as int, a as int, m);
        lemma_small_mod(a, modulus());
        lemma_mod_twice(2 * (a * n) as int, m);
    }
}

/// One step of square-and-multiply: from `x = a^n mod p`, squaring and multiplying by
/// `a^bit` gives `a^(2n + bit) mod p`.
proof fn lemma_square_mul_step(a: nat, x: nat, n: nat, bit: nat, sq: nat, y: nat)
    requires
        bit <= 1,
        a < modulus(),
        x == pow(a as int, n) % (modulus() as int),
        sq == (x * x) % modulus(),
        y == (if bit == 1 {
            (sq * a) % modulus()
        } else {
            sq
        }),
    ensures
        y == pow(a as int, 2 * n + bit) % (modulus() as int),
{
    let m = modulus() as int;
    let pn = pow(a as int, n);
    lemma_pow_adds(a as int, n, n);
    assert(n + n == 2 * n);
    lemma_mul_mod_noop(pn, pn, m);
    if bit == 1 {
        lemma_pow_adds(a as int, 2 * n, 1);
        lemma_pow1(a as int);
        lemma_mul_mod_noop_left(pn * pn, a as int, m);
    } else {
        assert(2 * n + bit == 2 * n);
    }
}

proof fn lemma_radix_pow_12()
    ensures
        radix_pow(12) == 39402006196394479212279040100143613805079739270465446667948293404245721771497210611414266254884915640806627990306816nat,
{
    reveal_with_fuel(radix_pow, 13);
}

/// An element of the BLS12-377 base field.
#[derive(Clone, Copy, Debug)]
pub struct Fp {
    limbs: [u64; 12],
}

impl View for Fp {
    type V = nat;

    /// The field element as a number in `[0, p)`.
    closed spec fn view(&self) -> nat {
        limbs_val(self.limbs@) % modulus()
    }
}

impl Fp {
    #[verifier::type_invariant]
    spec fn canonical(self) -> bool {
        &&& limbs_bounded(self.limbs@)
        &&& limbs_val(self.limbs@) < modulus()
    }

    proof fn lemma_view(self)
        requires
            self.canonical(),
        ensures
            self@ == limbs_val(self.limbs@),
    {
        lemma_small_mod(limbs_val(self.limbs@), modulus());
    }

    /// Every field element is below the modulus.
    pub proof fn lemma_lt_modulus(self)
        ensures
            self@ < modulus(),
    {
        lemma_mod_bound(limbs_val(self.limbs@) as int, modulus() as int);
    }

    /// The field element one.
    pub closed spec fn one_spec() -> Fp {
        Fp { limbs: [1u64, 0u64, 0u64, 0u64, 0u64, 0u64, 0u64, 0u64, 0u64, 0u64, 0u64, 0u64] }
    }

    /// The field element zero.
    pub closed spec fn zero_spec() -> Fp {
        Fp { limbs: [0u64, 0u64, 0u64, 0u64, 0u64, 0u64, 0u64, 0u64, 0u64, 0u64, 0u64, 0u64] }
    }

    /// The field element `1` for `true` and `0` for `false`.
    pub open spec fn from_bool_spec(b: bool) -> Fp {
        if b {
            Fp::one_spec()
        } else {
            Fp::zero_spec()
        }
    }

    /// The limbs of the constants zero and one.
    pub proof fn lemma_small_constants()
        ensures
            canonical_limbs(Fp::one_spec().limbs_spec()@),
            limbs_val(Fp::one_spec().limbs_spec()@) == 1,
            Fp::one_spec()@ == 1,
            canonical_limbs(Fp::zero_spec().limbs_spec()@),
            limbs_val(Fp::zero_spec().limbs_spec()@) == 0,
            Fp::zero_spec()@ == 0,
    {
        reveal_with_fuel(limbs_val, 13);
        assert(Fp::one_spec().limbs@ =~= seq![1u64, 0u64, 0u64, 0u64, 0u64, 0u64, 0u64, 0u64, 0u64, 0u64, 0u64, 0u64]);
        assert(Fp::zero_spec().limbs@ =~= seq![0u64, 0u64, 0u64, 0u64, 0u64, 0u64, 0u64, 0u64, 0u64, 0u64, 0u64, 0u64]);
        lemma_small_mod(1, modulus());
        lemma_small_mod(0, modulus());
    }

    /// The canonical limbs of `self`.
    pub closed spec fn limbs_spec(self) -> [u64; 12] {
        self.limbs
    }

    /// The canonical limbs of `self`, little-endian, 32 bits per limb.
    pub fn to_limbs(&self) -> (r: [u64; 12])
        ensures
            r == self.limbs_spec(),
            canonical_limbs(r@),
            limbs_val(r@) == self@,
    {
        proof {
            use_type_invariant(self);
            self.lemma_view();
        }
        self.limbs
    }

    /// The field element whose canonical limbs are `limbs`.
    pub fn from_limbs(limbs: [u64; 12]) -> (r: Fp)
        requires
            canonical_limbs(limbs@),
        ensures
            r.limbs_spec() == limbs,
            r@ == limbs_val(limbs@),
    {
        let r = Fp { limbs };
        proof {
            r.lemma_view();
        }
        r
    }

    /// Whether `self` is below `other` as integers in `[0, p)`.
    pub fn less_than(&self, other: &Fp) -> (r: bool)
        ensures
            r == (self@ < other@),
    {
        proof {
            use_type_invariant(self);
            use_type_invariant(other);
            self.lemma_view();
            other.lemma_view();
            lemma_radix_pow_12();
        }
        let (d, borrow) = sub_limbs(&self.limbs, &other.limbs);
        proof {
            lemma_limbs_val_bound(d@);
        }
        borrow == 1
    }

    /// The additive identity.
    pub fn zero() -> (r: Fp)
        ensures
            r@ == 0,
            r == Fp::zero_spec(),
    {
        let limbs: [u64; 12] = [0u64; 12];
        proof {
            assert(limbs@ =~= seq![0u64, 0u64, 0u64, 0u64, 0u64, 0u64, 0u64, 0u64, 0u64, 0u64, 0u64, 0u64]);
            assert(limbs_val(limbs@) == 0) by {
                reveal_with_fuel(limbs_val, 13);
            }
        }
        let r = Fp { limbs };
        proof {
            assert(r.limbs =~= Fp::zero_spec().limbs);
        }
        r
    }

    /// The multiplicative identity.
    pub fn one() -> (r: Fp)
        ensures
            r@ == 1,
            r == Fp::one_spec(),
    {
        let limbs: [u64; 12] = [1u64, 0u64, 0u64, 0u64, 0u64, 0u64, 0u64, 0u64, 0u64, 0u64, 0u64, 0u64];
        proof {
            assert(limbs@ =~= seq![1u64, 0u64, 0u64, 0u64, 0u64, 0u64, 0u64, 0u64, 0u64, 0u64, 0u64, 0u64]);
            reveal_with_fuel(limbs_val, 13);
            assert(limbs_val(limbs@) == 1);
        }
        let r = Fp { limbs };
        proof {
            r.lemma_view();
            assert(r.limbs =~= Fp::one_spec().limbs);
        }
        r
    }

    /// The field element with the given integer value.
    pub fn from_u64(n: u64) -> (r: Fp)
        ensures
            r@ == n,
    {
        let mut limbs: [u64; 12] = [0u64; 12];
        let low: u64 = n & 4294967295u64;
        let high: u64 = n >> 32u64;
        proof {
            assert(n == low + high * 4294967296u64 && low < 4294967296u64 && high < 4294967296u64)
                by (bit_vector)
                requires
                    low == n & 4294967295u64,
                    high == n >> 32u64,
            ;
        }
        limbs[0] = low;
        limbs[1] = high;
        proof {
            reveal_with_fuel(limbs_val, 13);
            assert(limbs@ =~= seq![low, high, 0u64, 0u64, 0u64, 0u64, 0u64, 0u64, 0u64, 0u64, 0u64, 0u64]);
            assert(limbs_val(limbs@) == n);
        }
        let r = Fp { limbs };
        proof {
            r.lemma_view();
        }
        r
    }

    /// `self + other`.
    pub fn add(&self, other: &Fp) -> (r: Fp)
        ensures
            r@ == (self@ + other@) % modulus(),
    {
        proof {
            use_type_invariant(self);
            use_type_invariant(other);
            self.lemma_view();
            other.lemma_view();
            lemma_radix_pow_12();
        }
        let (s, c) = add_limbs(&self.limbs, &other.limbs);
        proof {
            lemma_limbs_val_bound(s@);
        }
        let m = modulus_limbs();
        let (d, borrow) = sub_limbs(&s, &m);
        proof {
            lemma_limbs_val_bound(d@);
        }
        let limbs = if borrow == 0 { d } else { s };
        proof {
            let x = self@ + other@;
            if borrow == 0 {
                lemma_mod_sub_multiples_vanish(x as int, modulus() as int);
                lemma_small_mod((x - modulus()) as nat, modulus());
            } else {
                lemma_small_mod(x, modulus());
            }
        }
        Fp { limbs }
    }

    /// `self - other`.
    pub fn sub(&self, other: &Fp) -> (r: Fp)
        ensures
            r@ == sub_mod(self@, other@),
    {
        proof {
            use_type_invariant(self);
            use_type_invariant(other);
            self.lemma_view();
            other.lemma_view();
            lemma_radix_pow_12();
        }
        let (d, borrow) = sub_limbs(&self.limbs, &other.limbs);
        proof {
            lemma_limbs_val_bound(d@);
        }
        let m = modulus_limbs();
        let (s, c) = add_limbs(&d, &m);
        proof {
            lemma_limbs_val_bound(s@);
        }
        let limbs = if borrow == 0 { d } else { s };
        proof {
            let x = self@ + modulus() - other@;
            if borrow == 0 {
                lemma_mod_sub_multiples_vanish((self@ - other@) + modulus(), modulus() as int);
                lemma_small_mod((self@ - other@) as nat, modulus());
            } else {
                lemma_small_mod(x as nat, modulus());
            }
        }
        Fp { limbs }
    }

    /// `-self`.
    pub fn neg(&self) -> (r: Fp)
        ensures
            r@ == sub_mod(0, self@),
    {
        let z = Fp::zero();
        z.sub(self)
    }

    /// Whether `self` and `other` are the same field element.
    pub fn equals(&self, other: &Fp) -> (r: bool)
        ensures
            r == (self@ == other@),
    {
        proof {
            use_type_invariant(self);
            use_type_invariant(other);
            self.lemma_view();
            other.lemma_view();
        }
        let mut i: usize = 0;
        while i < 12
            invariant
                0 <= i <= 12,
                limbs_bounded(self.limbs@),
                limbs_bounded(other.limbs@),
                self@ == limbs_val(self.limbs@),
                other@ == limbs_val(other.limbs@),
                forall|k: int| 0 <= k < i ==> self.limbs@[k] == other.limbs@[k],
            decreases 12 - i,
        {
            if self.limbs[i] != other.limbs[i] {
                proof {
                    if self@ == other@ {
                        lemma_limbs_injective(self.limbs@, other.limbs@);
                    }
                }
                return false;
            }
            i = i + 1;
        }
        proof {
            assert(self.limbs@ =~= other.limbs@);
        }
        true
    }

    /// Whether `self` is zero.
    pub fn is_zero(&self) -> (r: bool)
        ensures
            r == (self@ == 0),
    {
        self.equals(&Fp::zero())
    }

    /// Whether `self` is one.
    pub fn is_one(&self) -> (r: bool)
        ensures
            r == (self@ == 1),
    {
        self.equals(&Fp::one())
    }

    /// The field element `0` or `1` standing for `b`.
    pub fn from_bool(b: bool) -> (r: Fp)
        ensures
            r@ == (if b { 1nat } else { 0nat }),
            r == Fp::from_bool_spec(b),
    {
        if b {
            Fp::one()
        } else {
            Fp::zero()
        }
    }

    /// `self * other`.
    pub fn mul(&self, other: &Fp) -> (r: Fp)
        ensures
            r@ == (self@ * other@) % modulus(),
    {
        proof {
            use_type_invariant(other);
            other.lemma_view();
            self.lemma_lt_modulus();
        }
        let b: [u64; 12] = other.limbs;
        let mut acc = Fp::zero();
        let mut j: usize = 12;
        proof {
            assert(b@.skip(12) =~= Seq::<u64>::empty());
            assert(limbs_val(Seq::<u64>::empty()) == 0);
        }
        while j > 0
            invariant
                j <= 12,
                b@.len() == 12,
                limbs_bounded(b@),
                self@ < modulus(),
                acc@ == (self@ * limbs_val(b@.skip(j as int))) % modulus(),
            decreases j,
        {
            j = j - 1;
            let c: u64 = b[j];
            assert(c < 4294967296u64);
            let ghost h: nat = limbs_val(b@.skip(j as int + 1));
            let mut k: u64 = 32;
            proof {
                assert(c >> 32u64 == 0u64) by (bit_vector)
                    requires
                        c < 4294967296u64,
                ;
                lemma2_to64();
                assert(h * pow2(0) + (c >> 32u64) as nat == h);
            }
            while k > 0
                invariant
                    k <= 32,
                    c < 4294967296u64,
                    self@ < modulus(),
                    acc@ == (self@ * (h * pow2((32 - k) as nat) + (c >> k) as nat)) % modulus(),
                decreases k,
            {
                let ghost old_acc = acc@;
                let ghost n: nat = h * pow2((32 - k) as nat) + (c >> k) as nat;
                k = k - 1;
                let bit: u64 = (c >> k) & 1u64;
                proof {
                    assert(c >> k == 2 * (c >> (k + 1) as u64) + ((c >> k) & 1u64) && bit <= 1) by (bit_vector)
                        requires
                            k < 32,
                            bit == (c >> k) & 1u64,
                    ;
                    lemma_pow2_unfold((32 - k) as nat);
                    let e = pow2((32 - k - 1) as nat);
                    assert(h * (2 * e) == 2 * (h * e)) by (nonlinear_arith);
                }
                acc = acc.double();
                if bit == 1 {
                    acc = acc.add(self);
                }
                proof {
                    lemma_double_add_step(self@, old_acc, n, bit as nat, acc@);
                }
            }
            proof {
                lemma2_to64();
                assert(c >> 0u64 == c) by (bit_vector);
                lemma_skip_step(b@, j as int);
                assert(h * 4294967296 == 4294967296 * h) by (nonlinear_arith);
            }
        }
        proof {
            assert(b@.skip(0) =~= b@);
        }
        acc
    }

    /// `self` raised to the power that the limbs `e` stand for.
    fn pow_limbs(&self, e: &[u64; 12]) -> (r: Fp)
        requires
            limbs_bounded(e@),
        ensures
            r@ == pow(self@ as int, limbs_val(e@)) % (modulus() as int),
    {
        proof {
            self.lemma_lt_modulus();
            lemma_pow0(self@ as int);
        }
        let mut acc = Fp::one();
        let mut j: usize = 12;
        proof {
            assert(e@.skip(12) =~= Seq::<u64>::empty());
            assert(limbs_val(Seq::<u64>::empty()) == 0);
            lemma_small_mod(1, modulus());
        }
        while j > 0
            invariant
                j <= 12,
                e@.len() == 12,
                limbs_bounded(e@),
                self@ < modulus(),
                acc@ == pow(self@ as int, limbs_val(e@.skip(j as int))) % (modulus() as int),
            decreases j,
        {
            j = j - 1;
            let c: u64 = e[j];
            assert(c < 4294967296u64);
            let ghost h: nat = limbs_val(e@.skip(j as int + 1));
            let mut k: u64 = 32;
            proof {
                assert(c >> 32u64 == 0u64) by (bit_vector)
                    requires
                        c < 4294967296u64,
                ;
                lemma2_to64();
                assert(h * pow2(0) + (c >> 32u64) as nat == h);
            }
            while k > 0
                invariant
                    k <= 32,
                    c < 4294967296u64,
                    self@ < modulus(),
                    acc@ == pow(self@ as int, h * pow2((32 - k) as nat) + (c >> k) as nat) % (
                    modulus() as int),
                decreases k,
            {
                let ghost old_acc = acc@;
                let ghost n: nat = h * pow2((32 - k) as nat) + (c >> k) as nat;
                k = k - 1;
                let bit: u64 = (c >> k) & 1u64;
                proof {
                    assert(c >> k == 2 * (c >> (k + 1) as u64) + ((c >> k) & 1u64) && bit <= 1) by (bit_vector)
                        requires
                            k < 32,
                            bit == (c >> k) & 1u64,
                    ;
                    lemma_pow2_unfold((32 - k) as nat);
                    let e2 = pow2((32 - k - 1) as nat);
                    assert(h * (2 * e2) == 2 * (h * e2)) by (nonlinear_arith);
                }
                let sq = acc.mul(&acc);
                if bit == 1 {
                    acc = sq.mul(self);
                } else {
                    acc = sq;
                }
                proof {
                    lemma_square_mul_step(self@, old_acc, n, bit as nat, sq@, acc@);
                }
            }
            proof {
                lemma2_to64();
                assert(c >> 0u64 == c) by (bit_vector);
                lemma_skip_step(e@, j as int);
                assert(h * 4294967296 == 4294967296 * h) by (nonlinear_arith);
            }
        }
        proof {
            assert(e@.skip(0) =~= e@);
        }
        acc
    }

    /// The multiplicative inverse `self^(p - 2)`, when it is one.
    ///
    /// Returns `None` for zero, and whenever the candidate `self^(p - 2)` does not
    /// multiply with `self` to one.
    pub fn inverse(&self) -> (r: Option<Fp>)
        ensures
            self@ == 0 ==> r is None,
            r matches Some(x) ==> x@ == pow(self@ as int, (modulus() - 2) as nat) % (modulus() as int)
                && (self@ * x@) % modulus() == 1,
            r is None ==> (self@ * (pow(self@ as int, (modulus() - 2) as nat) % (modulus() as int)))
                % (modulus() as int) != 1,
    {
        let e = exponent_limbs();
        let candidate = self.pow_limbs(&e);
        let check = candidate.mul(self);
        proof {
            assert(candidate@ * self@ == self@ * candidate@) by (nonlinear_arith);
            if self@ == 0 {
                assert(candidate@ * self@ == 0) by (nonlinear_arith)
                    requires
                        self@ == 0,
                ;
                lemma_small_mod(0, modulus());
            }
        }
        if check.is_one() {
            Some(candidate)
        } else {
            None
        }
    }

    /// `self + self`.
    pub fn double(&self) -> (r: Fp)
        ensures
            r@ == (2 * self@) % modulus(),
    {
        self.add(self)
    }
}

impl PartialEq for Fp {
    fn eq(&self, other: &Self) -> (r: bool) {
        self.equals(other)
    }
}

impl Eq for Fp {

}

impl vstd::std_specs::cmp::PartialEqSpecImpl for Fp {
    open spec fn obeys_eq_spec() -> bool {
        true
    }

    open spec fn eq_spec(&self, other: &Self) -> bool {
        self@ == other@
    }
}

} // verus!
