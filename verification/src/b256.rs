//! 32-byte identifiers (addresses and hashes), ordered and measured as
//! big-endian 256-bit unsigned integers.
use vstd::prelude::*;

verus! {

/// A 32-byte identifier: SHA-256 of a public key's uncompressed point
/// encoding when used as an address, or a message digest when used as a
/// hash.  Ordered by its value as a big-endian 256-bit unsigned integer.
#[derive(Clone, Copy, Debug, Eq, Hash)]
pub struct B256(pub [u8; 32]);

impl View for B256 {
    type V = Seq<u8>;

    open spec fn view(&self) -> Seq<u8> {
        self.0@
    }
}

impl PartialEq for B256 {
    fn eq(&self, other: &B256) -> (r: bool) {
        let mut i: usize = 0;
        while i < 32
            invariant
                0 <= i <= 32,
                forall|j: int| 0 <= j < i ==> self@[j] == other@[j],
            decreases 32 - i,
        {
            if self.0[i] != other.0[i] {
                return false;
            }
            i = i + 1;
        }
        proof {
            assert(self@ =~= other@);
            assert(self.0 =~= other.0);
        }
        true
    }
}

impl Default for B256 {
    /// The all-zero identifier.
    fn default() -> (r: B256)
        ensures
            r@ == Seq::new(32, |i: int| 0u8),
    {
        let r = B256([0; 32]);
        proof {
            assert(r@ =~= Seq::new(32, |i: int| 0u8));
        }
        r
    }
}

impl vstd::std_specs::cmp::PartialEqSpecImpl for B256 {
    open spec fn obeys_eq_spec() -> bool {
        true
    }

    open spec fn eq_spec(&self, other: &B256) -> bool {
        self == other
    }
}

/// Two identifiers with equal byte views are equal values.
pub proof fn lemma_b256_view_eq(a: B256, b: B256)
    requires
        a@ == b@,
    ensures
        a == b,
{
    assert(a.0 =~= b.0);
}

/// The value of a byte string read as a big-endian base-256 integer.
pub open spec fn be_val(s: Seq<u8>) -> nat
    decreases s.len(),
{
    if s.len() == 0 {
        0
    } else {
        be_val(s.drop_last()) * 256 + (s.last() as nat)
    }
}

/// 256 raised to the `n`th power.
pub open spec fn pow256(n: nat) -> nat
    decreases n,
{
    if n == 0 {
        1
    } else {
        256 * pow256((n - 1) as nat)
    }
}

/// The absolute difference of two byte strings read as big-endian integers.
pub open spec fn distance_val(a: Seq<u8>, b: Seq<u8>) -> nat {
    if be_val(a) >= be_val(b) {
        (be_val(a) - be_val(b)) as nat
    } else {
        (be_val(b) - be_val(a)) as nat
    }
}

pub proof fn lemma_pow256_pos(n: nat)
    ensures
        pow256(n) >= 1,
    decreases n,
{
    if n > 0 {
        lemma_pow256_pos((n - 1) as nat);
    }
}

/// A big-endian integer is bounded by 256 to the power of its length.
pub proof fn lemma_be_val_bound(s: Seq<u8>)
    ensures
        be_val(s) < pow256(s.len()),
    decreases s.len(),
{
    if s.len() == 0 {
    } else {
        lemma_be_val_bound(s.drop_last());
        assert(be_val(s.drop_last()) * 256 + s.last() < 256 * pow256((s.len() - 1) as nat))
            by (nonlinear_arith)
            requires
                be_val(s.drop_last()) < pow256((s.len() - 1) as nat),
                s.last() < 256,
        ;
    }
}

/// Splitting a byte string splits its value: the prefix is scaled by 256 to
/// the power of the suffix length.
pub proof fn lemma_be_val_split(s: Seq<u8>, k: int)
    requires
        0 <= k <= s.len(),
    ensures
        be_val(s) == be_val(s.take(k)) * pow256((s.len() - k) as nat) + be_val(s.skip(k)),
    decreases s.len(),
{
    if k == s.len() {
        assert(s.take(k) =~= s);
        assert(s.skip(k) =~= Seq::<u8>::empty());
        assert(be_val(Seq::<u8>::empty()) == 0);
        assert(pow256(0) == 1);
        assert((s.len() - k) as nat == 0);
        assert(be_val(s.take(k)) == be_val(s));
        assert(be_val(s.skip(k)) == 0);
        assert(be_val(s) == be_val(s.take(k)) * pow256((s.len() - k) as nat) + be_val(s.skip(k)));
    } else {
        let dl = s.drop_last();
        lemma_be_val_split(dl, k);
        assert(dl.take(k) =~= s.take(k));
        assert(s.skip(k).drop_last() =~= dl.skip(k));
        assert(s.skip(k).last() == s.last());
        let p = pow256((dl.len() - k) as nat);
        assert(be_val(s.skip(k)) == be_val(dl.skip(k)) * 256 + s.last());
        assert(pow256((s.len() - k) as nat) == 256 * p);
        assert(be_val(s) == be_val(s.take(k)) * pow256((s.len() - k) as nat) + be_val(s.skip(k)))
            by (nonlinear_arith)
            requires
                be_val(s) == be_val(s.drop_last()) * 256 + s.last(),
                be_val(s.drop_last()) == be_val(s.take(k)) * p + be_val(s.drop_last().skip(k)),
                be_val(s.skip(k)) == be_val(s.drop_last().skip(k)) * 256 + s.last(),
                pow256((s.len() - k) as nat) == 256 * p,
        ;
    }
}

/// A single byte read as a big-endian integer is its own value.
pub proof fn lemma_be_val_singleton(x: u8)
    ensures
        be_val(seq![x]) == x,
{
    assert(seq![x].drop_last() =~= Seq::<u8>::empty());
    assert(seq![x].last() == x);
    assert(be_val(Seq::<u8>::empty()) == 0);
}

/// If two equal-length byte strings agree on a prefix and the first differs
/// downward at the next position, its big-endian value is smaller.
pub proof fn lemma_be_val_prefix_lt(a: Seq<u8>, b: Seq<u8>, i: int)
    requires
        a.len() == b.len(),
        0 <= i < a.len(),
        a.take(i) == b.take(i),
        a[i] < b[i],
    ensures
        be_val(a) < be_val(b),
{
    lemma_be_val_split(a, i + 1);
    lemma_be_val_split(b, i + 1);
    assert(a.take(i + 1).drop_last() =~= a.take(i));
    assert(b.take(i + 1).drop_last() =~= b.take(i));
    assert(be_val(a.take(i + 1)) == be_val(a.take(i)) * 256 + a[i]);
    assert(be_val(b.take(i + 1)) == be_val(b.take(i)) * 256 + b[i]);
    let p = pow256((a.len() - i - 1) as nat);
    lemma_pow256_pos((a.len() - i - 1) as nat);
    lemma_be_val_bound(a.skip(i + 1));
    assert(a.skip(i + 1).len() == a.len() - i - 1);
    let q = be_val(a.take(i));
    assert((q * 256 + a[i]) * p + be_val(a.skip(i + 1)) < (q * 256 + b[i]) * p + be_val(
        b.skip(i + 1),
    )) by (nonlinear_arith)
        requires
            a[i] < b[i],
            be_val(a.skip(i + 1)) < p,
            p >= 1,
            q >= 0,
            be_val(b.skip(i + 1)) >= 0,
    ;
}

impl B256 {
    /// Whether this identifier, read as a big-endian 256-bit integer, is
    /// strictly smaller than `other`.
    pub fn less_than(&self, other: &B256) -> (r: bool)
        ensures
            r == (be_val(self@) < be_val(other@)),
    {
        let mut i: usize = 0;
        while i < 32
            invariant
                0 <= i <= 32,
                forall|j: int| 0 <= j < i ==> self@[j] == other@[j],
            decreases 32 - i,
        {
            if self.0[i] < other.0[i] {
                proof {
                    assert(self@.take(i as int) =~= other@.take(i as int));
                    lemma_be_val_prefix_lt(self@, other@, i as int);
                }
                return true;
            }
            if self.0[i] > other.0[i] {
                proof {
                    assert(other@.take(i as int) =~= self@.take(i as int));
                    lemma_be_val_prefix_lt(other@, self@, i as int);
                }
                return false;
            }
            i = i + 1;
        }
        proof {
            assert(self@ =~= other@);
        }
        false
    }

    /// The absolute difference of two identifiers read as big-endian 256-bit
    /// unsigned integers, itself encoded big-endian.
    pub fn distance(&self, other: &B256) -> (r: B256)
        ensures
            be_val(r@) == distance_val(self@, other@),
    {
        if self.less_than(other) {
            sub_be(other, self)
        } else {
            sub_be(self, other)
        }
    }
}

/// Big-endian byte-wise subtraction with borrow; the minuend must be at
/// least the subtrahend.
fn sub_be(a: &B256, b: &B256) -> (r: B256)
    requires
        be_val(b@) <= be_val(a@),
    ensures
        be_val(r@) == be_val(a@) - be_val(b@),
{
    let mut out: [u8; 32] = [0; 32];
    let mut borrow: u8 = 0;
    let mut i: usize = 32;
    while i > 0
        invariant
            0 <= i <= 32,
            borrow == 0 || borrow == 1,
            be_val(a@.skip(i as int)) + (borrow as nat) * pow256((32 - i) as nat) == be_val(
                out@.skip(i as int),
            ) + be_val(b@.skip(i as int)),
        decreases i,
    {
        let j = i - 1;
        let d: i16 = a.0[j] as i16 - b.0[j] as i16 - borrow as i16;
        let ghost old_out = out@;
        let ghost old_borrow = borrow as nat;
        let (oj, nb): (u8, u8) = if d < 0 {
            ((d + 256) as u8, 1)
        } else {
            (d as u8, 0)
        };
        out[j] = oj;
        borrow = nb;
        proof {
            let ji = j as int;
            let ii = i as int;
            let p = pow256((32 - ii) as nat);
            lemma_be_val_split(out@.skip(ji), 1);
            lemma_be_val_split(a@.skip(ji), 1);
            lemma_be_val_split(b@.skip(ji), 1);
            assert(out@.skip(ji).skip(1) =~= old_out.skip(ii));
            assert(out@.skip(ji).take(1) =~= seq![oj]);
            assert(a@.skip(ji).skip(1) =~= a@.skip(ii));
            assert(a@.skip(ji).take(1) =~= seq![a@[ji]]);
            assert(b@.skip(ji).skip(1) =~= b@.skip(ii));
            assert(b@.skip(ji).take(1) =~= seq![b@[ji]]);
            lemma_be_val_singleton(oj);
            lemma_be_val_singleton(a.0[ji]);
            lemma_be_val_singleton(b.0[ji]);
            assert(be_val(seq![oj]) == oj);
            assert(be_val(seq![a@[ji]]) == a@[ji]);
            assert(be_val(seq![b@[ji]]) == b@[ji]);
            let asuf = be_val(a@.skip(ii));
            let bsuf = be_val(b@.skip(ii));
            let osuf = be_val(old_out.skip(ii));
            let aj = a@[ji] as int;
            let bj = b@[ji] as int;
            assert(aj * p + asuf + (nb as int) * (256 * p) == (oj as int) * p + osuf + bj * p
                + bsuf) by (nonlinear_arith)
                requires
                    asuf + old_borrow * p == osuf + bsuf,
                    oj == aj - bj - old_borrow + (nb as int) * 256,
            ;
            assert(pow256((32 - ji) as nat) == 256 * p);
            assert((nb as int) * (256 * p) == (nb as nat) * pow256((32 - ji) as nat))
                by (nonlinear_arith)
                requires
                    pow256((32 - ji) as nat) == 256 * p,
            ;
        }
        i = j;
    }
    proof {
        assert(a@.skip(0) =~= a@);
        assert(b@.skip(0) =~= b@);
        assert(out@.skip(0) =~= out@);
        if borrow == 1 {
            lemma_be_val_bound(out@);
            lemma_be_val_bound(b@);
            assert(false);
        }
    }
    B256(out)
}

} // verus!
