//! Grouping an ordered item sequence into batches of a bounded size.
//!
//! Batching never reorders or drops items: the batches laid end to end
//! are the original sequence, and there are exactly ceiling(m / b) of
//! them for m items and bound b.

use vstd::prelude::*;
use crate::model::WorkItem;

verus! {

/// The batches laid end to end, in batch order.
pub open spec fn joined<T>(bs: Seq<Seq<T>>) -> Seq<T>
    decreases bs.len(),
{
    if bs.len() == 0 {
        Seq::<T>::empty()
    } else {
        joined(bs.drop_last()) + bs.last()
    }
}

/// How many batches of size at most `b` hold `m` items: the ceiling of
/// m divided by b.
pub open spec fn batch_count(m: int, b: int) -> int {
    (m + b - 1) / b
}

/// Where batch `i` ends in the original sequence of length `m`.
pub open spec fn batch_end(i: int, b: int, m: int) -> int {
    if (i + 1) * b <= m {
        (i + 1) * b
    } else {
        m
    }
}

/// Batches that are exact consecutive slices of `s` reconstruct `s`
/// when laid end to end.
pub proof fn lemma_joined_of_slices<T>(bs: Seq<Seq<T>>, s: Seq<T>, b: int)
    requires
        b >= 1,
        forall|i: int| 0 <= i < bs.len() ==> bs[i] == s.subrange(i * b, batch_end(i, b, s.len() as int)),
        s.len() <= bs.len() * b,
        bs.len() >= 1 ==> (bs.len() - 1) * b < s.len(),
        bs.len() == 0 ==> s.len() == 0,
    ensures
        joined(bs) == s,
    decreases bs.len(),
{
    if bs.len() == 0 {
        assert(joined(bs) =~= s);
    } else {
        let k = bs.len() as int;
        let m = s.len() as int;
        let head = bs.drop_last();
        if k == 1 {
            assert(joined(head) =~= Seq::<T>::empty());
            assert(batch_end(0, b, m) == m) by (nonlinear_arith)
                requires b >= 1, m <= k * b, k == 1, m > (k - 1) * b;
            assert(bs[0] == s.subrange(0 * b, batch_end(0, b, m)));
            assert(s.subrange(0, m) =~= s);
            assert(joined(bs) =~= s);
        } else {
            let prefix = s.subrange(0, (k - 1) * b);
            assert((k - 1) * b < m);
            assert(0 < (k - 1) * b) by (nonlinear_arith)
                requires b >= 1, k >= 2;
            assert forall|i: int| 0 <= i < head.len() implies head[i] == prefix.subrange(
                i * b,
                batch_end(i, b, prefix.len() as int),
            ) by {
                assert((i + 1) * b <= (k - 1) * b) by (nonlinear_arith)
                    requires b >= 1, 0 <= i < k - 1;
                assert(i * b >= 0) by (nonlinear_arith)
                    requires i >= 0, b >= 1;
                assert((i + 1) * b == i * b + b) by (nonlinear_arith);
                assert(batch_end(i, b, prefix.len() as int) == (i + 1) * b);
                assert(batch_end(i, b, m) == (i + 1) * b);
                assert(prefix.subrange(i * b, (i + 1) * b) =~= s.subrange(i * b, (i + 1) * b));
            }
            assert(prefix.len() <= head.len() * b) by (nonlinear_arith)
                requires prefix.len() == (k - 1) * b, head.len() == k - 1, b >= 1;
            assert((head.len() - 1) * b < prefix.len()) by (nonlinear_arith)
                requires b >= 1, prefix.len() == (k - 1) * b, head.len() == k - 1, k >= 2;
            lemma_joined_of_slices(head, prefix, b);
            assert(bs.last() == s.subrange((k - 1) * b, batch_end(k - 1, b, m)));
            assert(batch_end(k - 1, b, m) == m) by (nonlinear_arith)
                requires m <= k * b;
            assert(joined(bs) =~= s);
        }
    }
}

/// With b at least 1 and (k-1)*b < m <= k*b, the ceiling of m / b is k.
proof fn lemma_ceil_div(m: int, b: int, k: int)
    requires
        b >= 1,
        k >= 0,
        (k - 1) * b < m,
        m <= k * b,
    ensures
        batch_count(m, b) == k,
{
    assert((m + b - 1) / b == k) by (nonlinear_arith)
        requires b >= 1, (k - 1) * b < m, m <= k * b;
}

/// Group the items, in order, into batches of at most `batch_size`.
///
/// The result holds exactly the ceiling of (item count / batch size)
/// batches; every batch is a non-empty consecutive slice of the input,
/// and the batches laid end to end are the input.
pub fn make_batches(items: Vec<WorkItem>, batch_size: usize) -> (r: Vec<Vec<WorkItem>>)
    requires
        batch_size >= 1,
    ensures
        r@.len() == batch_count(items@.len() as int, batch_size as int),
        forall|i: int| 0 <= i < r@.len() ==> r@[i]@ == items@.subrange(
            i * batch_size as int,
            batch_end(i, batch_size as int, items@.len() as int),
        ),
        forall|i: int| 0 <= i < r@.len() ==> 1 <= (#[trigger] r@[i]@).len() <= batch_size,
        joined(r@.map_values(|v: Vec<WorkItem>| v@)) == items@,
{
    let ghost orig = items@;
    let ghost b = batch_size as int;
    let ghost m = orig.len() as int;
    let mut rest = items;
    let mut r: Vec<Vec<WorkItem>> = Vec::new();
    while rest.len() > 0
        invariant
            batch_size >= 1,
            b == batch_size as int,
            m == orig.len() as int,
            rest@.len() > 0 ==> {
                &&& r@.len() * b <= m
                &&& rest@ == orig.skip(r@.len() * b)
            },
            rest@.len() == 0 ==> {
                &&& m <= r@.len() * b
                &&& (r@.len() >= 1 ==> (r@.len() - 1) * b < m)
                &&& (r@.len() == 0 ==> m == 0)
            },
            forall|i: int| 0 <= i < r@.len() ==> r@[i]@ == orig.subrange(
                i * b,
                batch_end(i, b, m),
            ),
            forall|i: int| 0 <= i < r@.len() ==> 1 <= (#[trigger] r@[i]@).len() <= batch_size,
        decreases rest@.len(),
    {
        let ghost k = r@.len() as int;
        let ghost start = k * b;
        proof {
            assert(k * b >= 0) by (nonlinear_arith)
                requires k >= 0, b >= 1;
        }
        let mut batch: Vec<WorkItem> = Vec::new();
        while batch.len() < batch_size && rest.len() > 0
            invariant
                batch_size >= 1,
                b == batch_size as int,
                m == orig.len() as int,
                0 <= start,
                start + batch@.len() <= m,
                batch@ == orig.subrange(start, start + batch@.len()),
                rest@ == orig.skip(start + batch@.len()),
                batch@.len() <= batch_size,
            decreases rest@.len(),
        {
            let x = rest.remove(0);
            proof {
                assert(orig.skip(start + batch@.len())[0] == orig[start + batch@.len()]);
            }
            batch.push(x);
            proof {
                assert(batch@ =~= orig.subrange(start, start + batch@.len()));
                assert(rest@ =~= orig.skip(start + batch@.len()));
            }
        }
        let full = batch.len() == batch_size;
        let emptied = rest.len() == 0;
        proof {
            assert(batch@.len() >= 1);
        }
        r.push(batch);
        proof {
            let k2 = r@.len() as int;
            assert(k2 == k + 1);
            assert(k2 * b == start + b) by (nonlinear_arith)
                requires k2 == k + 1, start == k * b;
            let last = r@[k2 - 1]@;
            assert(batch_end(k, b, m) == if (k + 1) * b <= m { (k + 1) * b } else { m });
            if emptied {
                assert(start + last.len() == m);
                assert(last =~= orig.subrange(k * b, batch_end(k, b, m)));
            } else {
                assert(full);
                assert(start + b <= m);
                assert(last =~= orig.subrange(k * b, batch_end(k, b, m)));
                assert(rest@ =~= orig.skip(k2 * b));
            }
            assert(forall|i: int| 0 <= i < k ==> r@[i]@ == orig.subrange(
                i * b,
                batch_end(i, b, m),
            ));
        }
    }
    proof {
        let k = r@.len() as int;
        if k == 0 {
            assert(m == 0);
            assert(batch_count(0, b) == 0) by (nonlinear_arith)
                requires b >= 1;
        } else {
            lemma_ceil_div(m, b, k);
        }
        let views = r@.map_values(|v: Vec<WorkItem>| v@);
        assert(views.len() == r@.len());
        assert(forall|i: int| 0 <= i < views.len() ==> views[i] == r@[i]@);
        lemma_joined_of_slices(views, orig, b);
    }
    r
}

} // verus!
