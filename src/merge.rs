//! The counter encoding of the store: an unsigned big-endian integer of
//! eight bytes, and the merge that increments it in one step.
use vstd::prelude::*;

verus! {

/// 256 to the power `n`.
pub open spec fn pow256(n: nat) -> nat
    decreases n,
{
    if n == 0 {
        1
    } else {
        256 * pow256((n - 1) as nat)
    }
}

/// The number that big-endian bytes denote.
pub open spec fn be_value(b: Seq<u8>) -> nat
    decreases b.len(),
{
    if b.len() == 0 {
        0
    } else {
        be_value(b.drop_last()) * 256 + b.last() as nat
    }
}

/// The operand that asks for an increment.
pub open spec fn increment_operand() -> Seq<u8> {
    seq![73u8, 78u8, 67u8, 82u8]
}

/// The value after `k` increments of `start`. An absent or empty value
/// counts as eight zero bytes; the width then stays, and the count wraps
/// to zero past its largest value.
pub open spec fn merged_width(start: Seq<u8>, k: nat) -> nat {
    if start.len() == 0 && k > 0 {
        8
    } else {
        start.len()
    }
}

pub proof fn lemma_pow256_positive(n: nat)
    ensures
        pow256(n) >= 1,
    decreases n,
{
    if n > 0 {
        lemma_pow256_positive((n - 1) as nat);
    }
}

/// 256^n grows with n.
pub proof fn lemma_pow256_le(m: nat, n: nat)
    requires
        m <= n,
    ensures
        pow256(m) <= pow256(n),
    decreases n,
{
    if m < n {
        lemma_pow256_le(m, (n - 1) as nat);
        lemma_pow256_positive((n - 1) as nat);
    }
}

/// Big-endian bytes of width `n` stay below 256^n.
pub proof fn lemma_be_value_bound(b: Seq<u8>)
    ensures
        be_value(b) < pow256(b.len()),
    decreases b.len(),
{
    if b.len() > 0 {
        lemma_be_value_bound(b.drop_last());
        let p = pow256((b.len() - 1) as nat);
        assert(be_value(b.drop_last()) + 1 <= p);
        assert(be_value(b.drop_last()) * 256 + 256 <= p * 256) by (nonlinear_arith)
            requires
                be_value(b.drop_last()) + 1 <= p,
        ;
    }
}

/// The value of two byte strings one after the other.
pub proof fn lemma_be_value_concat(a: Seq<u8>, b: Seq<u8>)
    ensures
        be_value(a + b) == be_value(a) * pow256(b.len()) + be_value(b),
    decreases b.len(),
{
    if b.len() == 0 {
        assert(a + b =~= a);
        assert(pow256(0) == 1);
        assert(be_value(b) == 0);
        assert(be_value(a) * 1 == be_value(a));
    } else {
        let c = a + b;
        assert(c.drop_last() =~= a + b.drop_last());
        lemma_be_value_concat(a, b.drop_last());
        let p = pow256((b.len() - 1) as nat);
        assert(c.last() == b.last());
        assert(pow256(b.len()) == 256 * p);
        assert(be_value(c) == be_value(c.drop_last()) * 256 + c.last() as nat);
        assert(be_value(b) == be_value(b.drop_last()) * 256 + b.last() as nat);
        assert(be_value(c.drop_last()) == be_value(a) * p + be_value(b.drop_last()));
        assert((be_value(a) * p + be_value(b.drop_last())) * 256 + b.last() as nat == be_value(a) * (
        256 * p) + (be_value(b.drop_last()) * 256 + b.last() as nat)) by (nonlinear_arith);
        assert(be_value(c) == be_value(a) * (256 * p) + be_value(b));
    }
}

/// Zero bytes denote zero; bytes of 255 denote 256^n - 1.
pub proof fn lemma_be_value_uniform(b: Seq<u8>)
    ensures
        (forall|i: int| 0 <= i < b.len() ==> b[i] == 0u8) ==> be_value(b) == 0,
        (forall|i: int| 0 <= i < b.len() ==> b[i] == 255u8) ==> be_value(b) + 1 == pow256(b.len()),
    decreases b.len(),
{
    if b.len() > 0 {
        let d = b.drop_last();
        lemma_be_value_uniform(d);
        if forall|i: int| 0 <= i < b.len() ==> b[i] == 0u8 {
            assert(forall|i: int| 0 <= i < d.len() ==> d[i] == b[i]);
        }
        if forall|i: int| 0 <= i < b.len() ==> b[i] == 255u8 {
            assert(forall|i: int| 0 <= i < d.len() ==> d[i] == b[i]);
            assert(b.last() == b[b.len() - 1]);
        }
    }
}

/// Adds one to big-endian bytes in place, wrapping to zero past the largest
/// value of their width.
pub fn increment_be(value: Vec<u8>) -> (r: Vec<u8>)
    ensures
        r@.len() == value@.len(),
        be_value(r@) == (be_value(value@) + 1) % pow256(value@.len()),
{
    let ghost orig = value@;
    let mut bytes = value;
    let n = bytes.len();
    let mut i: usize = n;
    let mut carry = true;
    while carry && i > 0
        invariant
            bytes@.len() == n,
            orig.len() == n,
            i <= n,
            forall|k: int| 0 <= k < i ==> bytes@[k] == orig[k],
            forall|k: int| i < k < n ==> #[trigger] bytes@[k] == 0,
            forall|k: int| i < k < n ==> #[trigger] orig[k] == 255,
            i < n ==> (if carry {
                bytes@[i as int] == 0 && orig[i as int] == 255
            } else {
                bytes@[i as int] == orig[i as int] + 1 && orig[i as int] < 255
            }),
            !carry ==> i < n,
        decreases i,
    {
        i = i - 1;
        let b = bytes[i];
        assert(b == orig[i as int]);
        let ghost before = bytes@;
        if b == 255 {
            bytes.set(i, 0);
        } else {
            bytes.set(i, b + 1);
            carry = false;
        }
        assert(forall|k: int| 0 <= k < n && k != i ==> #[trigger] bytes@[k] == before[k]);
    }
    proof {
        let head = orig.take(i as int);
        if carry {
            assert(i == 0);
            lemma_be_value_uniform(bytes@);
            lemma_be_value_uniform(orig);
            assert((be_value(orig) + 1) % pow256(n as nat) == 0) by {
                lemma_pow256_positive(n as nat);
                vstd::arithmetic::div_mod::lemma_mod_self_0(pow256(n as nat) as int);
            }
        } else {
            let tail_old = orig.skip(i + 1);
            let tail_new = bytes@.skip(i + 1);
            assert(forall|j: int| 0 <= j < tail_old.len() ==> tail_old[j] == orig[i + 1 + j]);
            assert(forall|j: int| 0 <= j < tail_new.len() ==> tail_new[j] == bytes@[i + 1 + j]);
            lemma_be_value_uniform(tail_old);
            lemma_be_value_uniform(tail_new);
            let p = pow256(tail_old.len());
            assert(orig =~= head.push(orig[i as int]) + tail_old);
            assert(bytes@ =~= head.push(bytes@[i as int]) + tail_new);
            lemma_be_value_concat(head.push(orig[i as int]), tail_old);
            lemma_be_value_concat(head.push(bytes@[i as int]), tail_new);
            assert(head.push(orig[i as int]).drop_last() =~= head);
            assert(head.push(bytes@[i as int]).drop_last() =~= head);
            assert(be_value(head.push(bytes@[i as int])) == be_value(head.push(orig[i as int])) + 1);
            assert(be_value(bytes@) == be_value(orig) + 1) by (nonlinear_arith)
                requires
                    be_value(bytes@) == be_value(head.push(bytes@[i as int])) * p + 0,
                    be_value(orig) == be_value(head.push(orig[i as int])) * p + (p - 1),
                    be_value(head.push(bytes@[i as int])) == be_value(head.push(orig[i as int])) + 1,
                    p >= 1,
            ;
            lemma_be_value_bound(bytes@);
            vstd::arithmetic::div_mod::lemma_small_mod(
                (be_value(orig) + 1) as nat,
                pow256(n as nat),
            );
        }
    }
    bytes
}


/// An operation that a merge operand asks for.
#[derive(Clone, Copy, Debug, PartialEq, Eq, Structural)]
pub enum MergeOperation {
    /// Add one to the counter.
    Increment,
}

impl MergeOperation {
    /// Reads an operand: `INCR` is an increment, with nothing left over;
    /// any other operand is no operation, and is handed back whole.
    pub fn parse(v: &[u8]) -> (r: (Option<MergeOperation>, &[u8]))
        ensures
            v@ == increment_operand() ==> r.0 == Some(MergeOperation::Increment) && r.1@.len()
                == 0,
            v@ != increment_operand() ==> r.0 is None && r.1@ == v@,
    {
        if v.len() == 4 && v[0] == 73 && v[1] == 78 && v[2] == 67 && v[3] == 82 {
            assert(v@ =~= increment_operand());
            (Some(MergeOperation::Increment), v.split_at(0).0)
        } else {
            proof {
                if v@ == increment_operand() {
                    assert(v@[0] == 73u8 && v@[1] == 78u8 && v@[2] == 67u8 && v@[3] == 82u8);
                }
            }
            (None, v)
        }
    }
}

/// The value a merge starts from: the existing bytes, or none.
pub open spec fn merge_start(existing: Option<Seq<u8>>) -> Seq<u8> {
    match existing {
        Some(b) => b,
        None => Seq::empty(),
    }
}

/// Whether `k` increments of `start` still fit in the width of the result.
pub open spec fn merge_fits(start: Seq<u8>, k: nat) -> bool {
    be_value(start) + k < pow256(merged_width(start, k))
}

/// Bytes denote zero only where every byte is zero.
pub proof fn lemma_be_value_zero(b: Seq<u8>)
    ensures
        be_value(b) == 0 ==> forall|i: int| 0 <= i < b.len() ==> #[trigger] b[i] == 0u8,
    decreases b.len(),
{
    if b.len() > 0 {
        let d = b.drop_last();
        lemma_be_value_zero(d);
        if be_value(b) == 0 {
            assert(be_value(d) == 0 && b.last() == 0u8);
            assert forall|i: int| 0 <= i < b.len() implies #[trigger] b[i] == 0u8 by {
                if i < b.len() - 1 {
                    assert(b[i] == d[i]);
                }
            }
        }
    }
}

/// The merge of the counter namespace. Each operand must be `INCR`; each
/// adds one to the big-endian value. An absent or empty value starts as
/// eight zero bytes, and the width then stays. A counter never goes back:
/// where the increments would pass the largest value of the width, the
/// merge fails and gives `None`.
pub fn rocksdb_merger(_new_key: &[u8], existing_val: Option<&[u8]>, operands: &[Vec<u8>]) -> (r:
    Option<Vec<u8>>)
    requires
        forall|i: int| 0 <= i < operands@.len() ==> (#[trigger] operands@[i])@ == increment_operand(),
    ensures
        r is Some <==> merge_fits(
            merge_start(
                match existing_val {
                    Some(b) => Some(b@),
                    None => None,
                },
            ),
            operands@.len(),
        ),
        r matches Some(v) ==> v@.len() == merged_width(
            merge_start(
                match existing_val {
                    Some(b) => Some(b@),
                    None => None,
                },
            ),
            operands@.len(),
        ) && be_value(v@) == be_value(
            merge_start(
                match existing_val {
                    Some(b) => Some(b@),
                    None => None,
                },
            ),
        ) + operands@.len(),
{
    let ghost start = merge_start(
        match existing_val {
            Some(b) => Some(b@),
            None => None,
        },
    );
    let ghost k = operands@.len();
    let mut new_val: Vec<u8> = Vec::new();
    match existing_val {
        Some(b) => {
            let mut j: usize = 0;
            while j < b.len()
                invariant
                    j <= b@.len(),
                    new_val@ == b@.take(j as int),
                decreases b.len() - j,
            {
                new_val.push(b[j]);
                assert(new_val@ =~= b@.take(j + 1));
                j = j + 1;
            }
            assert(b@.take(j as int) =~= b@);
        },
        None => {
            assert(new_val@ =~= Seq::<u8>::empty());
        },
    }
    let mut i: usize = 0;
    proof {
        lemma_be_value_bound(start);
    }
    while i < operands.len()
        invariant
            forall|x: int| 0 <= x < operands@.len() ==> (#[trigger] operands@[x])@ == increment_operand(),
            k == operands@.len(),
            start == merge_start(
                match existing_val {
                    Some(b) => Some(b@),
                    None => None,
                },
            ),
            i <= operands@.len(),
            new_val@.len() == merged_width(start, i as nat),
            be_value(new_val@) == be_value(start) + i as nat,
        decreases operands.len() - i,
    {
        let (operation, _rest) = MergeOperation::parse(operands[i].as_slice());
        match operation {
            Some(MergeOperation::Increment) => {
                if new_val.len() == 0 {
                    let mut z: usize = 0;
                    while z < 8
                        invariant
                            z <= 8,
                            new_val@.len() == z,
                            forall|x: int| 0 <= x < z ==> #[trigger] new_val@[x] == 0u8,
                        decreases 8 - z,
                    {
                        new_val.push(0);
                        z = z + 1;
                    }
                    proof {
                        lemma_be_value_uniform(new_val@);
                        assert(start.len() == 0 && i == 0);
                    }
                }
                let ghost before = new_val@;
                new_val = increment_be(new_val);
                let ghost w = merged_width(start, (i + 1) as nat);
                proof {
                    assert(w == before.len());
                    lemma_pow256_positive((w - 1) as nat);
                    lemma_be_value_bound(before);
                    lemma_be_value_zero(new_val@);
                }
                let mut all_zero = true;
                let mut z: usize = 0;
                while z < new_val.len()
                    invariant
                        z <= new_val@.len(),
                        all_zero <==> forall|x: int| 0 <= x < z ==> #[trigger] new_val@[x] == 0u8,
                    decreases new_val.len() - z,
                {
                    if new_val[z] != 0 {
                        all_zero = false;
                    }
                    z = z + 1;
                }
                if all_zero {
                    proof {
                        lemma_be_value_uniform(new_val@);
                        // the value wrapped: one more than `before` is 256^w
                        assert(be_value(before) + 1 == pow256(w)) by {
                            if be_value(before) + 1 < pow256(w) {
                                vstd::arithmetic::div_mod::lemma_small_mod(
                                    (be_value(before) + 1) as nat,
                                    pow256(w),
                                );
                            }
                        }
                        assert(be_value(start) + k >= pow256(w));
                        assert(!merge_fits(start, k)) by {
                            crate::merge::lemma_width_stays(start, (i + 1) as nat, k);
                        }
                    }
                    return None;
                }
                proof {
                    assert(be_value(new_val@) != 0);
                    if be_value(before) + 1 == pow256(w) {
                        vstd::arithmetic::div_mod::lemma_mod_self_0(pow256(w) as int);
                    }
                    vstd::arithmetic::div_mod::lemma_small_mod(
                        (be_value(before) + 1) as nat,
                        pow256(w),
                    );
                }
            },
            None => {
                assert(operands@[i as int]@ == increment_operand());
            },
        }
        i = i + 1;
    }
    proof {
        lemma_be_value_bound(new_val@);
    }
    Some(new_val)
}

/// Once a start has some width, more increments keep it.
pub proof fn lemma_width_stays(start: Seq<u8>, i: nat, k: nat)
    requires
        1 <= i <= k,
    ensures
        merged_width(start, i) == merged_width(start, k),
{
}

} // verus!
