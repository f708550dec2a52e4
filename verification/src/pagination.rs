//! PaginationEngine: sorts threads by last activity (most recent first,
//! ties broken by ascending id — a deterministic rule chosen on purpose)
//! and slices out the requested, clamped page.

use vstd::prelude::*;
use vstd::arithmetic::div_mod::lemma_fundamental_div_mod;
use vstd::arithmetic::div_mod::lemma_mod_bound;
use vstd::seq_lib::lemma_multiset_commutative;
use vstd::seq_lib::to_multiset_build;

use crate::model::Thread;
use crate::model::ThreadModel;
use crate::repo::thread_models;

verus! {

/// Display order: `a` comes no later than `b` when it is more recent, or
/// equally recent with the smaller id.
pub open spec fn le_act(a: ThreadModel, b: ThreadModel) -> bool {
    a.last_updated > b.last_updated || (a.last_updated == b.last_updated && a.id <= b.id)
}

/// The sequence is in display order.
pub open spec fn sorted_by_activity(s: Seq<ThreadModel>) -> bool {
    forall|i: int, j: int| 0 <= i < j < s.len() ==> #[trigger] le_act(s[i], s[j])
}

/// Ceiling division, the page count formula.
pub open spec fn spec_total_pages(count: int, size: int) -> int {
    (count + size - 1) / size
}

/// How a requested page number is clamped: below 1 becomes 1; above the
/// last page becomes the last page, unless there are no pages at all.
pub open spec fn spec_clamp_page(req: int, total: int) -> int {
    if req < 1 {
        1
    } else if req > total && total > 0 {
        total
    } else {
        req
    }
}

/// First index of a page (bounded by the collection's length).
pub open spec fn spec_page_start(cur: int, size: int, count: int) -> int {
    vstd::math::min((cur - 1) * size, count)
}

/// One-past-last index of a page.
pub open spec fn spec_page_end(cur: int, size: int, count: int) -> int {
    vstd::math::min(spec_page_start(cur, size, count) + size, count)
}

/// Bounds of the ceiling-division page count.
proof fn lemma_ceil_div(count: int, size: int)
    requires
        0 <= count,
        1 <= size,
    ensures
        0 <= spec_total_pages(count, size) <= count,
        spec_total_pages(count, size) * size >= count,
        count > 0 ==> (spec_total_pages(count, size) - 1) * size < count,
        count == 0 ==> spec_total_pages(count, size) == 0,
        count > 0 ==> spec_total_pages(count, size) > 0,
{
    let t = spec_total_pages(count, size);
    let x = count + size - 1;
    lemma_fundamental_div_mod(x, size);
    lemma_mod_bound(x, size);
    let r = x % size;
    assert(size * t == count + size - 1 - r);
    assert(t * size >= count) by (nonlinear_arith)
        requires
            size * t == count + size - 1 - r,
            0 <= r < size,
    ;
    assert((t - 1) * size < count) by (nonlinear_arith)
        requires
            size * t == count + size - 1 - r,
            0 <= r < size,
            1 <= size,
    ;
    assert(t >= 0) by (nonlinear_arith)
        requires
            size * t == count + size - 1 - r,
            0 <= r < size,
            1 <= size,
            0 <= count,
    ;
    assert(t <= count) by (nonlinear_arith)
        requires
            size * t == count + size - 1 - r,
            0 <= r < size,
            1 <= size,
            0 <= count,
    ;
    if count == 0 {
        assert(t <= 0);
    }
    if count > 0 {
        assert(t * size >= count);
        assert(t > 0) by (nonlinear_arith)
            requires
                t * size >= count,
                count > 0,
                1 <= size,
        ;
    }
}

/// Whether `a` displays no later than `b`.
fn comes_before(a: &Thread, b: &Thread) -> (r: bool)
    ensures
        r == le_act(a@, b@),
{
    a.last_updated > b.last_updated || (a.last_updated == b.last_updated && a.id <= b.id)
}

/// Sorts threads into display order by insertion, keeping exactly the
/// same records (as a multiset of models).
pub fn sort_by_activity(v: Vec<Thread>) -> (r: Vec<Thread>)
    ensures
        r@.len() == v@.len(),
        thread_models(r@).to_multiset() == thread_models(v@).to_multiset(),
        sorted_by_activity(thread_models(r@)),
{
    let mut out: Vec<Thread> = Vec::new();
    let mut i: usize = 0;
    proof {
        assert(v@.subrange(0, 0) =~= Seq::<Thread>::empty());
        assert(thread_models(out@) =~= thread_models(v@.subrange(0, 0)));
    }
    while i < v.len()
        invariant
            i <= v.len(),
            out@.len() == i,
            thread_models(out@).to_multiset() == thread_models(
                v@.subrange(0, i as int),
            ).to_multiset(),
            sorted_by_activity(thread_models(out@)),
        decreases v.len() - i,
    {
        broadcast use vstd::seq_lib::group_to_multiset_ensures;

        let t = v[i].clone();
        let ghost tm = t@;
        let ghost mo = thread_models(out@);
        let mut j: usize = 0;
        loop
            invariant
                j <= out@.len(),
                tm == t@,
                mo == thread_models(out@),
                forall|k: int| 0 <= k < j ==> le_act(#[trigger] thread_models(out@)[k], tm),
            ensures
                j <= out@.len(),
                tm == t@,
                mo == thread_models(out@),
                forall|k: int| 0 <= k < j ==> le_act(#[trigger] thread_models(out@)[k], tm),
                j == out@.len() || le_act(tm, thread_models(out@)[j as int]),
            decreases out@.len() - j,
        {
            if j >= out.len() {
                break ;
            }
            let keep = comes_before(&out[j], &t);
            proof {
                assert(thread_models(out@)[j as int] == out@[j as int]@);
            }
            if !keep {
                break ;
            }
            j += 1;
        }
        out.insert(j, t);
        proof {
            let ma = mo.subrange(0, j as int);
            let mb = mo.subrange(j as int, mo.len() as int);
            assert(thread_models(out@) =~= ma + (seq![tm] + mb));
            assert(mo =~= ma + mb);
            lemma_multiset_commutative(ma, seq![tm] + mb);
            lemma_multiset_commutative(seq![tm], mb);
            lemma_multiset_commutative(ma, mb);
            assert(seq![tm] =~= Seq::<ThreadModel>::empty().push(tm));
            assert(seq![tm].to_multiset() == Seq::<ThreadModel>::empty().to_multiset().insert(tm));
            assert(thread_models(out@).to_multiset() =~= mo.to_multiset().insert(tm));
            assert(thread_models(v@.subrange(0, i + 1)).drop_last() =~= thread_models(
                v@.subrange(0, i as int),
            ));
            assert(thread_models(v@.subrange(0, i + 1)) =~= thread_models(
                v@.subrange(0, i as int),
            ).push(tm));
            assert(sorted_by_activity(thread_models(out@))) by {
                let s = thread_models(out@);
                assert forall|p: int, q: int| 0 <= p < q < s.len() implies #[trigger] le_act(
                    s[p],
                    s[q],
                ) by {
                    if q < j {
                        assert(le_act(mo[p], mo[q]));
                    } else if p < j && q == j {
                        assert(le_act(mo[p], tm));
                    } else if p < j && q > j {
                        assert(le_act(mo[p], mo[q - 1]));
                    } else if p == j {
                        assert(le_act(tm, mo[j as int]));
                        if q > j + 1 {
                            assert(le_act(mo[j as int], mo[q - 1]));
                        }
                    } else {
                        assert(le_act(mo[p - 1], mo[q - 1]));
                    }
                }
            }
        }
        i += 1;
    }
    proof {
        assert(v@.subrange(0, v@.len() as int) =~= v@);
    }
    out
}

/// Sorts the given threads into display order and returns the requested
/// page: the page's records, the clamped current page number, and the
/// total page count.
pub fn paginate(threads: Vec<Thread>, requested_page: i32, page_size: i32) -> (r: (
    Vec<Thread>,
    i32,
    i32,
))
    requires
        1 <= page_size,
        threads@.len() <= 0x7fffffff,
    ensures
        r.2 as int == spec_total_pages(threads@.len() as int, page_size as int),
        r.1 as int == spec_clamp_page(requested_page as int, r.2 as int),
        sorted_by_activity(thread_models(r.0@)),
        exists|s: Seq<ThreadModel>|
            {
                &&& #[trigger] s.to_multiset() == thread_models(threads@).to_multiset()
                &&& sorted_by_activity(s)
                &&& s.len() == threads@.len()
                &&& thread_models(r.0@) == s.subrange(
                    spec_page_start(r.1 as int, page_size as int, s.len() as int),
                    spec_page_end(r.1 as int, page_size as int, s.len() as int),
                )
            },
{
    let sorted = sort_by_activity(threads);
    let count = sorted.len();
    let count64 = count as u64;
    let size64 = page_size as u64;
    proof {
        lemma_ceil_div(count as int, size64 as int);
    }
    let total64 = (count64 + size64 - 1) / size64;
    let total = total64 as i32;
    let cur: i32 = if requested_page < 1 {
        1
    } else if requested_page > total && total > 0 {
        total
    } else {
        requested_page
    };
    proof {
        assert(((cur - 1) as u64) * size64 <= 0x4000000000000000) by (nonlinear_arith)
            requires
                0 <= (cur - 1) as u64 <= 0x80000000u64,
                1 <= size64 <= 0x80000000u64,
        ;
    }
    let raw64 = ((cur - 1) as u64) * size64;
    let start64 = if raw64 < count64 {
        raw64
    } else {
        count64
    };
    let end64 = if start64 + size64 < count64 {
        start64 + size64
    } else {
        count64
    };
    let start = start64 as usize;
    let end = end64 as usize;
    let mut page: Vec<Thread> = Vec::new();
    let mut k = start;
    while k < end
        invariant
            start <= k <= end <= count,
            count == sorted@.len(),
            thread_models(page@) == thread_models(sorted@).subrange(start as int, k as int),
        decreases end - k,
    {
        let ghost pre = thread_models(sorted@).subrange(start as int, k as int);
        let item = sorted[k].clone();
        let ghost im = item@;
        page.push(item);
        proof {
            assert(thread_models(page@) =~= pre.push(im));
            assert(thread_models(sorted@).subrange(start as int, k + 1) =~= pre.push(
                thread_models(sorted@)[k as int],
            ));
        }
        k += 1;
    }
    proof {
        let s = thread_models(sorted@);
        assert(s.len() == sorted@.len());
        assert(sorted_by_activity(thread_models(page@))) by {
            let ps = thread_models(page@);
            assert forall|p: int, q: int| 0 <= p < q < ps.len() implies #[trigger] le_act(
                ps[p],
                ps[q],
            ) by {
                assert(le_act(s[start + p], s[start + q]));
            }
        }
    }
    (page, cur, total)
}

} // verus!
