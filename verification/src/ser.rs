//! The canonical persisted text form of a record set: one record per line,
//! key-value structured, no indentation, so that successive commits produce
//! minimal, reviewable diffs.

use vstd::prelude::*;

use crate::package::mgr_name;
use crate::package::mgr_str;
use crate::package::op_name;
use crate::package::op_str;
use crate::package::Package;
use crate::package::Packages;
use crate::package::Rec;

verus! {

/// A token as it stands in the file: delimited by double quotes.
pub open spec fn quoted(t: Seq<char>) -> Seq<char> {
    "\""@ + t + "\""@
}

/// The identifier tokens after the first, each preceded by a comma.
pub open spec fn ser_tokens_rest(ts: Seq<Seq<char>>) -> Seq<char>
    decreases ts.len(),
{
    if ts.len() == 0 {
        Seq::empty()
    } else {
        ","@ + quoted(ts[0]) + ser_tokens_rest(ts.drop_first())
    }
}

/// The identifier tokens, quoted and comma-separated.
pub open spec fn ser_tokens(ts: Seq<Seq<char>>) -> Seq<char> {
    if ts.len() == 0 {
        Seq::empty()
    } else {
        quoted(ts[0]) + ser_tokens_rest(ts.drop_first())
    }
}

/// One record as one line of the persisted file.
pub open spec fn ser_record(r: Rec) -> Seq<char> {
    "(manager:"@ + mgr_name(r.manager) + ",op:"@ + op_name(r.op) + ",id:["@ + ser_tokens(r.id)
        + "])\n"@
}

/// The whole record set: the records' lines in order.
pub open spec fn ser_set(rs: Seq<Rec>) -> Seq<char>
    decreases rs.len(),
{
    if rs.len() == 0 {
        Seq::empty()
    } else {
        ser_record(rs[0]) + ser_set(rs.drop_first())
    }
}

proof fn lemma_ser_tokens_rest_concat(x: Seq<Seq<char>>, y: Seq<Seq<char>>)
    ensures
        ser_tokens_rest(x + y) == ser_tokens_rest(x) + ser_tokens_rest(y),
    decreases x.len(),
{
    if x.len() == 0 {
        assert(x + y =~= y);
        assert(ser_tokens_rest(x) + ser_tokens_rest(y) =~= ser_tokens_rest(y));
    } else {
        lemma_ser_tokens_rest_concat(x.drop_first(), y);
        assert((x + y).drop_first() =~= x.drop_first() + y);
        assert(","@ + quoted(x[0]) + (ser_tokens_rest(x.drop_first()) + ser_tokens_rest(y)) =~= (
        ","@ + quoted(x[0]) + ser_tokens_rest(x.drop_first())) + ser_tokens_rest(y));
    }
}

/// Appending one record to a set appends its line to the serialized form.
pub proof fn lemma_ser_set_push(rs: Seq<Rec>, r: Rec)
    ensures
        ser_set(rs.push(r)) == ser_set(rs) + ser_record(r),
    decreases rs.len(),
{
    if rs.len() == 0 {
        assert(rs.push(r).drop_first() =~= Seq::<Rec>::empty());
        assert(ser_set(Seq::<Rec>::empty()) == Seq::<char>::empty());
        assert(rs.push(r)[0] == r);
        assert(ser_set(rs.push(r)) =~= ser_set(rs) + ser_record(r));
    } else {
        lemma_ser_set_push(rs.drop_first(), r);
        assert(rs.push(r).drop_first() =~= rs.drop_first().push(r));
        assert(rs.push(r)[0] == rs[0]);
        assert(ser_record(rs[0]) + (ser_set(rs.drop_first()) + ser_record(r)) =~= (ser_record(
            rs[0],
        ) + ser_set(rs.drop_first())) + ser_record(r));
    }
}

/// Writes one record as its line of the persisted file.
fn append_record(out: &mut String, p: &Package)
    ensures
        final(out)@ == old(out)@ + ser_record(p@),
{
    let ghost base = out@;
    out.append("(manager:");
    out.append(mgr_str(p.manager));
    out.append(",op:");
    out.append(op_str(p.op));
    out.append(",id:[");
    let ghost mid = out@;
    proof {
        assert(p@.id.take(0) =~= Seq::<Seq<char>>::empty());
        assert(mid =~= base + "(manager:"@ + mgr_name(p@.manager) + ",op:"@ + op_name(p@.op)
            + ",id:["@ + ser_tokens(p@.id.take(0)));
    }
    let n = p.id.len();
    for j in 0..n
        invariant
            n == p.id.len(),
            mid == base + "(manager:"@ + mgr_name(p@.manager) + ",op:"@ + op_name(p@.op)
                + ",id:["@,
            out@ == mid + ser_tokens(p@.id.take(j as int)),
    {
        if j > 0 {
            out.append(",");
        }
        out.append("\"");
        out.append(p.id[j].as_str());
        out.append("\"");
        proof {
            let taken = p@.id.take(j as int);
            assert(p@.id.take(j + 1) =~= taken + seq![p@.id[j as int]]);
            if j == 0 {
                assert(taken.len() == 0);
                assert((taken + seq![p@.id[0]])[0] == p@.id[0]);
                assert((taken + seq![p@.id[0]]).drop_first() =~= Seq::<Seq<char>>::empty());
                assert(ser_tokens(p@.id.take(1)) =~= quoted(p@.id[0]));
                assert(out@ =~= mid + ser_tokens(p@.id.take(1)));
            } else {
                lemma_ser_tokens_rest_concat(taken.drop_first(), seq![p@.id[j as int]]);
                assert((taken + seq![p@.id[j as int]])[0] == taken[0]);
                assert((taken + seq![p@.id[j as int]]).drop_first() =~= taken.drop_first() + seq![
                    p@.id[j as int],
                ]);
                assert(seq![p@.id[j as int]].drop_first() =~= Seq::<Seq<char>>::empty());
                assert(ser_tokens_rest(Seq::<Seq<char>>::empty()) == Seq::<char>::empty());
                assert(ser_tokens_rest(seq![p@.id[j as int]]) =~= ","@ + quoted(p@.id[j as int]));
                assert(out@ =~= mid + ser_tokens(p@.id.take(j + 1)));
            }
        }
    }
    out.append("])\n");
    proof {
        assert(p@.id.take(n as int) =~= p@.id);
        assert(out@ =~= old(out)@ + ser_record(p@));
    }
}

impl Packages {
    /// Serializes the record set to the canonical text form of the
    /// persisted file.
    pub fn serialize(&self) -> (out: String)
        ensures
            out@ == ser_set(self@),
    {
        let mut out = String::new();
        let n = self.0.len();
        proof {
            assert(self@.take(0) =~= Seq::<Rec>::empty());
            assert(out@ =~= ser_set(self@.take(0)));
        }
        for i in 0..n
            invariant
                n == self.0.len(),
                out@ == ser_set(self@.take(i as int)),
        {
            append_record(&mut out, &self.0[i]);
            proof {
                lemma_ser_set_push(self@.take(i as int), self@[i as int]);
                assert(self@.take(i + 1) =~= self@.take(i as int).push(self@[i as int]));
            }
        }
        proof {
            assert(self@.take(n as int) =~= self@);
        }
        out
    }
}

} // verus!
