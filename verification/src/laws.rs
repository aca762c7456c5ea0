//! The laws of the merge algorithm: idempotence, completeness without
//! duplication, order preservation, and the complement relation between
//! merging and the capture filter.

use vstd::prelude::*;

use crate::package::rec_in;
use crate::package::spec_filter_new;
use crate::package::spec_merge;
use crate::package::spec_new_records;
use crate::package::uniq;
use crate::package::wf_rec;
use crate::package::wf_set;
use crate::package::Rec;

verus! {

proof fn lemma_rec_in_push(s: Seq<Rec>, x: Rec)
    ensures
        forall|r: Rec| rec_in(s.push(x), r) <==> (rec_in(s, r) || r == x),
{
    assert forall|r: Rec| rec_in(s.push(x), r) implies (rec_in(s, r) || r == x) by {
        let i = choose|i: int| 0 <= i < s.push(x).len() && s.push(x)[i] == r;
        if i < s.len() {
            assert(s[i] == r);
        }
    }
    assert forall|r: Rec| (rec_in(s, r) || r == x) implies rec_in(s.push(x), r) by {
        if rec_in(s, r) {
            let i = choose|i: int| 0 <= i < s.len() && s[i] == r;
            assert(s.push(x)[i] == r);
        } else {
            assert(s.push(x)[s.len() as int] == r);
        }
    }
}

proof fn lemma_rec_in_concat(x: Seq<Rec>, y: Seq<Rec>)
    ensures
        forall|r: Rec| rec_in(x + y, r) <==> (rec_in(x, r) || rec_in(y, r)),
{
    assert forall|r: Rec| rec_in(x + y, r) implies (rec_in(x, r) || rec_in(y, r)) by {
        let i = choose|i: int| 0 <= i < (x + y).len() && (x + y)[i] == r;
        if i < x.len() {
            assert(x[i] == r);
        } else {
            assert(y[i - x.len()] == r);
        }
    }
    assert forall|r: Rec| (rec_in(x, r) || rec_in(y, r)) implies rec_in(x + y, r) by {
        if rec_in(x, r) {
            let i = choose|i: int| 0 <= i < x.len() && x[i] == r;
            assert((x + y)[i] == r);
        } else {
            let i = choose|i: int| 0 <= i < y.len() && y[i] == r;
            assert((x + y)[i + x.len()] == r);
        }
    }
}

proof fn lemma_rec_in_last(s: Seq<Rec>)
    requires
        s.len() > 0,
    ensures
        forall|r: Rec| rec_in(s, r) <==> (rec_in(s.drop_last(), r) || r == s.last()),
{
    assert forall|r: Rec| rec_in(s, r) implies (rec_in(s.drop_last(), r) || r == s.last()) by {
        let i = choose|i: int| 0 <= i < s.len() && s[i] == r;
        if i < s.len() - 1 {
            assert(s.drop_last()[i] == r);
        }
    }
    assert forall|r: Rec| (rec_in(s.drop_last(), r) || r == s.last()) implies rec_in(s, r) by {
        if rec_in(s.drop_last(), r) {
            let i = choose|i: int| 0 <= i < s.drop_last().len() && s.drop_last()[i] == r;
            assert(s[i] == r);
        } else {
            assert(s[s.len() - 1] == r);
        }
    }
}

proof fn lemma_uniq_push(s: Seq<Rec>, x: Rec)
    requires
        uniq(s),
        !rec_in(s, x),
    ensures
        uniq(s.push(x)),
{
    assert forall|i: int, j: int| 0 <= i < j < s.push(x).len() implies s.push(x)[i] != s.push(x)[
        j
    ] by {
        if j < s.len() {
            assert(s[i] != s[j]);
        } else {
            assert(s.push(x)[j] == x);
            assert(s.push(x)[i] == s[i]);
            assert(s[i] != x);
        }
    }
}

/// Every record that the merge appends after `b` is new: not in `b`, and
/// appended only once.
proof fn lemma_new_records_props(a: Seq<Rec>, b: Seq<Rec>)
    ensures
        uniq(spec_new_records(a, b)),
        forall|r: Rec| rec_in(spec_new_records(a, b), r) ==> !rec_in(b, r),
        forall|r: Rec| #[trigger] rec_in(spec_new_records(a, b), r) ==> rec_in(a, r),
    decreases a.len(),
{
    if a.len() == 0 {
    } else {
        lemma_new_records_props(a.drop_last(), b);
        let p = spec_new_records(a.drop_last(), b);
        lemma_rec_in_last(a);
        assert(rec_in(a, a.last()));
        assert forall|r: Rec| #[trigger] rec_in(p, r) implies rec_in(a, r) by {
            assert(rec_in(a.drop_last(), r));
        }
        if !(rec_in(b, a.last()) || rec_in(p, a.last())) {
            lemma_uniq_push(p, a.last());
            lemma_rec_in_push(p, a.last());
            assert(spec_new_records(a, b) == p.push(a.last()));
        } else {
            assert(spec_new_records(a, b) == p);
        }
        assert forall|r: Rec| #[trigger] rec_in(spec_new_records(a, b), r) implies rec_in(
            a,
            r,
        ) by {
            if rec_in(p, r) {
            } else {
                assert(r == a.last());
            }
        }
    }
}

/// The merge of `a` into `b` is exactly `b` followed by the genuinely new
/// records of `a`, in `a`'s original relative order: `b`'s records keep their
/// positions, and the additions keep theirs.
pub proof fn lemma_merge_order(a: Seq<Rec>, b: Seq<Rec>)
    ensures
        spec_merge(a, b) == b + spec_new_records(a, b),
        spec_merge(a, b).take(b.len() as int) == b,
    decreases a.len(),
{
    if a.len() == 0 {
        assert(spec_merge(a, b) =~= b + spec_new_records(a, b));
    } else {
        lemma_merge_order(a.drop_last(), b);
        let m0 = spec_merge(a.drop_last(), b);
        let p = spec_new_records(a.drop_last(), b);
        lemma_rec_in_concat(b, p);
        if rec_in(m0, a.last()) {
        } else {
            assert((b + p).push(a.last()) =~= b + p.push(a.last()));
        }
    }
    assert((b + spec_new_records(a, b)).take(b.len() as int) =~= b);
}

/// Merging never loses a record and never invents one: a record is in
/// `merge(a, b)` exactly when it is in `a` or in `b`.
pub proof fn lemma_merge_members(a: Seq<Rec>, b: Seq<Rec>)
    ensures
        forall|r: Rec| rec_in(spec_merge(a, b), r) <==> (rec_in(a, r) || rec_in(b, r)),
    decreases a.len(),
{
    if a.len() == 0 {
        assert forall|r: Rec| !rec_in(a, r) by {}
    } else {
        lemma_merge_members(a.drop_last(), b);
        let m0 = spec_merge(a.drop_last(), b);
        lemma_rec_in_last(a);
        if rec_in(m0, a.last()) {
        } else {
            lemma_rec_in_push(m0, a.last());
        }
    }
}

/// If the persisted records hold no structural duplicate, neither does the
/// merge: no record appears twice in `merge(a, b)`.
pub proof fn lemma_merge_uniq(a: Seq<Rec>, b: Seq<Rec>)
    requires
        uniq(b),
    ensures
        uniq(spec_merge(a, b)),
    decreases a.len(),
{
    if a.len() == 0 {
    } else {
        lemma_merge_uniq(a.drop_last(), b);
        let m0 = spec_merge(a.drop_last(), b);
        if rec_in(m0, a.last()) {
        } else {
            lemma_uniq_push(m0, a.last());
        }
    }
}

/// Merging `x + y` into `b` merges `x` first and then `y` into the result.
proof fn lemma_merge_concat(x: Seq<Rec>, y: Seq<Rec>, b: Seq<Rec>)
    ensures
        spec_merge(x + y, b) == spec_merge(y, spec_merge(x, b)),
    decreases y.len(),
{
    if y.len() == 0 {
        assert(x + y =~= x);
    } else {
        lemma_merge_concat(x, y.drop_last(), b);
        assert((x + y).drop_last() =~= x + y.drop_last());
        assert((x + y).last() == y.last());
    }
}

/// Merging records that are all already present changes nothing.
proof fn lemma_merge_absorbed(x: Seq<Rec>, c: Seq<Rec>)
    requires
        forall|r: Rec| #[trigger] rec_in(x, r) ==> rec_in(c, r),
    ensures
        spec_merge(x, c) == c,
    decreases x.len(),
{
    if x.len() == 0 {
    } else {
        lemma_rec_in_last(x);
        assert(rec_in(x, x.last()));
        assert forall|r: Rec| #[trigger] rec_in(x.drop_last(), r) implies rec_in(c, r) by {
            assert(rec_in(x, r));
        }
        lemma_merge_absorbed(x.drop_last(), c);
    }
}

/// Merging records that are pairwise distinct and all new appends them all.
proof fn lemma_merge_all_new(d: Seq<Rec>, b: Seq<Rec>)
    requires
        uniq(d),
        forall|r: Rec| #[trigger] rec_in(d, r) ==> !rec_in(b, r),
    ensures
        spec_merge(d, b) == b + d,
    decreases d.len(),
{
    if d.len() == 0 {
        assert(spec_merge(d, b) =~= b + d);
    } else {
        lemma_rec_in_last(d);
        assert forall|r: Rec| #[trigger] rec_in(d.drop_last(), r) implies !rec_in(b, r) by {
            assert(rec_in(d, r));
        }
        lemma_merge_all_new(d.drop_last(), b);
        assert(rec_in(d, d.last()));
        assert(!rec_in(b, d.last()));
        assert(!rec_in(d.drop_last(), d.last())) by {
            if rec_in(d.drop_last(), d.last()) {
                let i = choose|i: int|
                    0 <= i < d.drop_last().len() && d.drop_last()[i] == d.last();
                assert(d[i] == d[d.len() - 1]);
            }
        }
        lemma_rec_in_concat(b, d.drop_last());
        assert((b + d.drop_last()).push(d.last()) =~= b + d);
    }
}

/// Idempotence of the merge: re-running a sync with the same persisted set
/// neither duplicates nor reorders anything — `merge(merge(a, b), b)` is
/// `merge(a, b)`.
pub proof fn lemma_merge_idempotent(a: Seq<Rec>, b: Seq<Rec>)
    ensures
        spec_merge(spec_merge(a, b), b) == spec_merge(a, b),
{
    let e = spec_new_records(a, b);
    lemma_merge_order(a, b);
    lemma_new_records_props(a, b);
    lemma_merge_concat(b, e, b);
    assert forall|r: Rec| #[trigger] rec_in(b, r) implies rec_in(b, r) by {}
    lemma_merge_absorbed(b, b);
    lemma_merge_all_new(e, b);
}

/// Re-running a sync whose merge already landed changes nothing: merging the
/// same candidates into the merged result returns the merged result, so the
/// repeated operation rewrites the file byte for byte and commits nothing.
pub proof fn lemma_remirror_no_change(a: Seq<Rec>, b: Seq<Rec>)
    ensures
        spec_merge(a, spec_merge(a, b)) == spec_merge(a, b),
{
    lemma_merge_members(a, b);
    let m = spec_merge(a, b);
    assert forall|r: Rec| #[trigger] rec_in(a, r) implies rec_in(m, r) by {}
    lemma_merge_absorbed(a, m);
}

/// Merging two well-formed record sets gives a well-formed record set.
pub proof fn lemma_merge_wf(a: Seq<Rec>, b: Seq<Rec>)
    requires
        wf_set(a),
        wf_set(b),
    ensures
        wf_set(spec_merge(a, b)),
{
    lemma_merge_members(a, b);
    let m = spec_merge(a, b);
    assert forall|k: int| 0 <= k < m.len() implies wf_rec(#[trigger] m[k]) by {
        assert(rec_in(m, m[k]));
        if rec_in(a, m[k]) {
            let i = choose|i: int| 0 <= i < a.len() && a[i] == m[k];
            assert(wf_rec(a[i]));
        } else {
            let i = choose|i: int| 0 <= i < b.len() && b[i] == m[k];
            assert(wf_rec(b[i]));
        }
    }
}

/// The capture filter is the complement of intersection: as sets,
/// `merge(a, b)` holds exactly `b` together with `a.filter_saved_packages(b)`.
pub proof fn lemma_filter_complement(a: Seq<Rec>, b: Seq<Rec>)
    ensures
        forall|r: Rec|
            rec_in(spec_merge(a, b), r) <==> (rec_in(b, r) || rec_in(spec_filter_new(a, b), r)),
{
    lemma_merge_members(a, b);
    lemma_filter_members(a, b);
}

/// A record passes the capture filter exactly when it is a candidate that is
/// not already persisted.
pub proof fn lemma_filter_members(a: Seq<Rec>, b: Seq<Rec>)
    ensures
        forall|r: Rec| rec_in(spec_filter_new(a, b), r) <==> (rec_in(a, r) && !rec_in(b, r)),
    decreases a.len(),
{
    if a.len() == 0 {
        assert forall|r: Rec| !rec_in(a, r) by {}
    } else {
        lemma_filter_members(a.drop_last(), b);
        let p = spec_filter_new(a.drop_last(), b);
        lemma_rec_in_last(a);
        if rec_in(b, a.last()) {
        } else {
            lemma_rec_in_push(p, a.last());
        }
    }
}

} // verus!
