//! Natural numbers of any size as little-endian vectors of 64-bit limbs,
//! with the multiplication and comparison that exact similarity ranking needs.

use vstd::prelude::*;

verus! {

/// The value of one limb place.
pub open spec fn base() -> nat {
    0x1_0000_0000_0000_0000
}

/// The weight of limb `i`: `base()` to the power `i`.
pub open spec fn place(i: nat) -> nat
    decreases i,
{
    if i == 0 {
        1
    } else {
        base() * place((i - 1) as nat)
    }
}

/// The number the limbs stand for, lowest limb first.
pub open spec fn val(s: Seq<u64>) -> nat
    decreases s.len(),
{
    if s.len() == 0 {
        0
    } else {
        s[0] as nat + base() * val(s.drop_first())
    }
}

proof fn lemma_val_take(s: Seq<u64>, i: int)
    requires
        0 <= i < s.len(),
    ensures
        val(s.take(i + 1)) == val(s.take(i)) + s[i] as nat * place(i as nat),
    decreases i,
{
    if i == 0 {
        assert(s.take(1).drop_first() =~= Seq::<u64>::empty());
        assert(s.take(0) =~= Seq::<u64>::empty());
        assert(val(s.take(1).drop_first()) == 0);
        assert(val(s.take(1)) == s[0] as nat);
        assert(val(s.take(0)) == 0);
        assert(place(0) == 1);
        assert(s[0] as nat * place(0) == s[0] as nat) by (nonlinear_arith)
            requires
                place(0) == 1,
        ;
    } else {
        let t = s.drop_first();
        lemma_val_take(t, i - 1);
        assert(s.take(i + 1).drop_first() =~= t.take(i));
        assert(s.take(i).drop_first() =~= t.take(i - 1));
        assert(t[i - 1] == s[i]);
        let a = val(t.take(i - 1));
        let c = s[i] as nat;
        let p = place((i - 1) as nat);
        assert(val(s.take(i + 1)) == s[0] as nat + base() * (a + c * p));
        assert(val(s.take(i)) == s[0] as nat + base() * a);
        assert(place(i as nat) == base() * p);
        assert(base() * (a + c * p) == base() * a + c * (base() * p)) by (nonlinear_arith);
        assert(val(s.take(i + 1)) == val(s.take(i)) + c * place(i as nat));
    }
}

proof fn lemma_val_bound(s: Seq<u64>)
    ensures
        val(s) < place(s.len()),
    decreases s.len(),
{
    if s.len() > 0 {
        let t = s.drop_first();
        lemma_val_bound(t);
        let a = val(t);
        let p = place(t.len());
        let c = s[0] as nat;
        assert(place(s.len()) == base() * p);
        assert(c + base() * a < base() * p) by (nonlinear_arith)
            requires
                a < p,
                c < base(),
        {
            assert(base() * a <= base() * (p - 1));
        }
    }
}

proof fn lemma_val_push_zero(s: Seq<u64>)
    ensures
        val(s.push(0)) == val(s),
{
    let t = s.push(0);
    lemma_val_take(t, s.len() as int);
    assert(t.take(s.len() as int + 1) =~= t);
    assert(t.take(s.len() as int) =~= s);
    assert(t[s.len() as int] == 0);
    assert(0 * place(s.len()) == 0);
}

/// A 128-bit number as two limbs.
pub fn from_u128(x: u128) -> (r: Vec<u64>)
    ensures
        r.len() == 2,
        val(r@) == x,
{
    let lo = (x % 0x1_0000_0000_0000_0000) as u64;
    let hi = (x / 0x1_0000_0000_0000_0000) as u64;
    let mut r: Vec<u64> = Vec::new();
    r.push(lo);
    r.push(hi);
    proof {
        assert(r@.drop_first().drop_first() =~= Seq::<u64>::empty());
        assert(val(r@.drop_first().drop_first()) == 0);
        assert(val(r@.drop_first()) == hi as nat);
        assert(val(r@) == lo as nat + base() * hi as nat);
    }
    r
}

/// The number times one limb.
pub fn mul_small(a: &Vec<u64>, m: u64) -> (r: Vec<u64>)
    requires
        a.len() < usize::MAX,
    ensures
        r.len() == a.len() + 1,
        val(r@) == val(a@) * m,
{
    let mut out: Vec<u64> = Vec::new();
    let mut carry: u64 = 0;
    let mut i: usize = 0;
    proof {
        assert(a@.take(0) =~= Seq::<u64>::empty());
        assert(out@ =~= Seq::<u64>::empty());
        assert(val(a@.take(0)) == 0);
        assert(val(out@) == 0);
        assert(val(a@.take(0)) * m == 0) by (nonlinear_arith)
            requires
                val(a@.take(0)) == 0,
        ;
        assert(carry as nat * place(0) == 0) by (nonlinear_arith)
            requires
                carry == 0,
        ;
    }
    while i < a.len()
        invariant
            i <= a.len() < usize::MAX,
            out.len() == i,
            val(out@) + carry as nat * place(i as nat) == val(a@.take(i as int)) * m,
        decreases a.len() - i,
    {
        let ai = a[i];
        assert(ai as nat * m as nat + carry as nat <= 0xffff_ffff_ffff_ffff_0000_0000_0000_0000) by (nonlinear_arith)
            requires
                ai <= 0xffff_ffff_ffff_ffff,
                m <= 0xffff_ffff_ffff_ffff,
                carry <= 0xffff_ffff_ffff_ffff,
        ;
        let t: u128 = ai as u128 * m as u128 + carry as u128;
        let lo = (t % 0x1_0000_0000_0000_0000) as u64;
        let hi = (t / 0x1_0000_0000_0000_0000) as u64;
        let ghost old_out = out@;
        out.push(lo);
        proof {
            lemma_val_take(out@, i as int);
            assert(out@.take(i + 1) =~= out@);
            assert(out@.take(i as int) =~= old_out);
            lemma_val_take(a@, i as int);
            let p = place(i as nat);
            assert(place((i + 1) as nat) == base() * p);
            let vo = val(old_out);
            let va = val(a@.take(i as int));
            assert(t == lo as nat + base() * hi as nat);
            assert(vo + lo as nat * p + hi as nat * (base() * p) == (va + ai as nat * p) * m) by (nonlinear_arith)
                requires
                    vo + carry as nat * p == va * m,
                    t == lo as nat + base() * hi as nat,
                    t == ai as nat * m as nat + carry as nat,
            ;
        }
        carry = hi;
        i = i + 1;
    }
    let ghost before = out@;
    out.push(carry);
    proof {
        lemma_val_take(out@, a.len() as int);
        assert(out@.take(a.len() + 1) =~= out@);
        assert(out@.take(a.len() as int) =~= before);
        assert(a@.take(a.len() as int) =~= a@);
    }
    out
}

/// The sum of two numbers of as many limbs.
pub fn add_eq(a: &Vec<u64>, b: &Vec<u64>) -> (r: Vec<u64>)
    requires
        a.len() == b.len(),
        a.len() < usize::MAX,
    ensures
        r.len() == a.len() + 1,
        val(r@) == val(a@) + val(b@),
{
    let mut out: Vec<u64> = Vec::new();
    let mut carry: u64 = 0;
    let mut i: usize = 0;
    proof {
        assert(a@.take(0) =~= Seq::<u64>::empty());
        assert(b@.take(0) =~= Seq::<u64>::empty());
        assert(out@ =~= Seq::<u64>::empty());
    }
    while i < a.len()
        invariant
            i <= a.len() < usize::MAX,
            a.len() == b.len(),
            out.len() == i,
            carry <= 1,
            val(out@) + carry as nat * place(i as nat) == val(a@.take(i as int)) + val(b@.take(i as int)),
        decreases a.len() - i,
    {
        let t: u128 = a[i] as u128 + b[i] as u128 + carry as u128;
        let lo = (t % 0x1_0000_0000_0000_0000) as u64;
        let hi = (t / 0x1_0000_0000_0000_0000) as u64;
        let ghost old_out = out@;
        out.push(lo);
        proof {
            lemma_val_take(out@, i as int);
            assert(out@.take(i + 1) =~= out@);
            assert(out@.take(i as int) =~= old_out);
            lemma_val_take(a@, i as int);
            lemma_val_take(b@, i as int);
            let p = place(i as nat);
            assert(place((i + 1) as nat) == base() * p);
            assert(t == lo as nat + base() * hi as nat);
            assert(hi <= 1);
            let vo = val(old_out);
            assert(vo + lo as nat * p + hi as nat * (base() * p) == vo + (lo as nat + base() * hi as nat) * p) by (nonlinear_arith);
            assert((a[i as int] as nat + b[i as int] as nat + carry as nat) * p
                == a[i as int] as nat * p + b[i as int] as nat * p + carry as nat * p) by (nonlinear_arith);
        }
        carry = hi;
        i = i + 1;
    }
    let ghost before = out@;
    out.push(carry);
    proof {
        lemma_val_take(out@, a.len() as int);
        assert(out@.take(a.len() + 1) =~= out@);
        assert(out@.take(a.len() as int) =~= before);
        assert(a@.take(a.len() as int) =~= a@);
        assert(b@.take(b.len() as int) =~= b@);
    }
    out
}

/// Whether the first of two numbers of as many limbs is the smaller.
pub fn less_than(a: &Vec<u64>, b: &Vec<u64>) -> (r: bool)
    requires
        a.len() == b.len(),
    ensures
        r == (val(a@) < val(b@)),
{
    let mut out: Vec<u64> = Vec::new();
    let mut borrow: u64 = 0;
    let mut i: usize = 0;
    proof {
        assert(a@.take(0) =~= Seq::<u64>::empty());
        assert(b@.take(0) =~= Seq::<u64>::empty());
        assert(out@ =~= Seq::<u64>::empty());
    }
    while i < a.len()
        invariant
            i <= a.len(),
            a.len() == b.len(),
            out.len() == i,
            borrow <= 1,
            val(out@) + val(b@.take(i as int)) == val(a@.take(i as int)) + borrow as nat * place(i as nat),
        decreases a.len() - i,
    {
        let ai = a[i] as u128;
        let bi = b[i] as u128 + borrow as u128;
        let d: u64;
        let nb: u64;
        if ai >= bi {
            d = (ai - bi) as u64;
            nb = 0;
        } else {
            d = (ai + 0x1_0000_0000_0000_0000 - bi) as u64;
            nb = 1;
        }
        let ghost old_out = out@;
        out.push(d);
        proof {
            lemma_val_take(out@, i as int);
            assert(out@.take(i + 1) =~= out@);
            assert(out@.take(i as int) =~= old_out);
            lemma_val_take(a@, i as int);
            lemma_val_take(b@, i as int);
            let p = place(i as nat);
            assert(place((i + 1) as nat) == base() * p);
            assert(d as nat + b[i as int] as nat + borrow as nat == a[i as int] as nat + nb as nat * base());
            assert(d as nat * p + b[i as int] as nat * p + borrow as nat * p
                == a[i as int] as nat * p + nb as nat * (base() * p)) by (nonlinear_arith)
                requires
                    d as nat + b[i as int] as nat + borrow as nat == a[i as int] as nat + nb as nat * base(),
            ;
        }
        borrow = nb;
        i = i + 1;
    }
    proof {
        assert(a@.take(a.len() as int) =~= a@);
        assert(b@.take(b.len() as int) =~= b@);
        lemma_val_bound(out@);
        lemma_val_bound(b@);
    }
    borrow == 1
}

/// The number with `n` limbs, the added ones zero.
pub fn pad(a: &Vec<u64>, n: usize) -> (r: Vec<u64>)
    requires
        a.len() <= n,
    ensures
        r.len() == n,
        val(r@) == val(a@),
{
    let mut r: Vec<u64> = Vec::new();
    let mut i: usize = 0;
    while i < a.len()
        invariant
            i <= a.len(),
            r@ == a@.take(i as int),
        decreases a.len() - i,
    {
        r.push(a[i]);
        i = i + 1;
        proof {
            assert(r@ =~= a@.take(i as int));
        }
    }
    proof {
        assert(a@.take(a.len() as int) =~= a@);
    }
    while r.len() < n
        invariant
            r.len() <= n,
            val(r@) == val(a@),
        decreases n - r.len(),
    {
        proof {
            lemma_val_push_zero(r@);
        }
        r.push(0);
    }
    r
}

/// The number times `base()`: a zero limb put below the others.
fn shift_up(a: &Vec<u64>) -> (r: Vec<u64>)
    requires
        a.len() < usize::MAX,
    ensures
        r.len() == a.len() + 1,
        val(r@) == base() * val(a@),
{
    let mut r: Vec<u64> = Vec::new();
    r.push(0);
    let mut i: usize = 0;
    while i < a.len()
        invariant
            i <= a.len() < usize::MAX,
            r@ == seq![0u64] + a@.take(i as int),
        decreases a.len() - i,
    {
        r.push(a[i]);
        i = i + 1;
        proof {
            assert(r@ =~= seq![0u64] + a@.take(i as int));
        }
    }
    proof {
        assert(a@.take(a.len() as int) =~= a@);
        assert(r@.drop_first() =~= a@);
    }
    r
}

/// The product of two numbers of at most 16 limbs each.
pub fn product(a: &Vec<u64>, b: &Vec<u64>) -> (r: Vec<u64>)
    requires
        a.len() <= 16,
        b.len() <= 16,
    ensures
        r.len() <= a.len() + 2 * b.len(),
        val(r@) == val(a@) * val(b@),
{
    let mut acc: Vec<u64> = Vec::new();
    let mut j: usize = b.len();
    proof {
        assert(b@.skip(b.len() as int) =~= Seq::<u64>::empty());
        assert(val(acc@) == 0);
    }
    while j > 0
        invariant
            j <= b.len() <= 16,
            a.len() <= 16,
            acc.len() <= a.len() + 2 * (b.len() - j),
            val(acc@) == val(a@) * val(b@.skip(j as int)),
        decreases j,
    {
        let sh = shift_up(&acc);
        let p = mul_small(a, b[j - 1]);
        let n = if sh.len() < p.len() { p.len() } else { sh.len() };
        let x = pad(&sh, n);
        let y = pad(&p, n);
        let s = add_eq(&x, &y);
        proof {
            let t = b@.skip(j - 1);
            assert(t.drop_first() =~= b@.skip(j as int));
            assert(t[0] == b@[j - 1]);
            assert(val(t) == b@[j - 1] as nat + base() * val(b@.skip(j as int)));
            let va = val(a@);
            let vs = val(b@.skip(j as int));
            assert(base() * (va * vs) + va * b@[j - 1] as nat == va * (b@[j - 1] as nat + base() * vs)) by (nonlinear_arith);
        }
        acc = s;
        j = j - 1;
    }
    proof {
        assert(b@.skip(0) =~= b@);
    }
    acc
}

} // verus!
