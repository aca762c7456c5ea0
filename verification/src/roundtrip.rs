//! The round-trip law of the persisted text form: serializing any
//! well-formed record set and parsing the result gives the record set back,
//! so a no-op sync rewrites the file byte for byte.

use vstd::prelude::*;

use crate::de::find_quote;
use crate::de::lemma_find_quote_props;
use crate::de::parse_mgr;
use crate::de::parse_op;
use crate::de::parse_record;
use crate::de::parse_set;
use crate::de::parse_tokens;
use crate::de::pfx;
use crate::de::spec_deserialize;
use crate::package::mgr_name;
use crate::package::op_name;
use crate::package::wf_rec;
use crate::package::wf_set;
use crate::package::wf_token;
use crate::package::Manager;
use crate::package::Op;
use crate::package::Rec;
use crate::ser::quoted;
use crate::ser::ser_record;
use crate::ser::ser_set;
use crate::ser::ser_tokens;
use crate::ser::ser_tokens_rest;

verus! {

proof fn lemma_pfx_index(s: Seq<char>, i: int, p: Seq<char>)
    requires
        pfx(s, i, p),
    ensures
        forall|q: int| 0 <= q < p.len() ==> s[i + q] == #[trigger] p[q],
{
    assert forall|q: int| 0 <= q < p.len() implies s[i + q] == #[trigger] p[q] by {
        assert(s.subrange(i, i + p.len())[q] == s[i + q]);
    }
}

proof fn lemma_pfx_split(s: Seq<char>, i: int, a: Seq<char>, b: Seq<char>)
    requires
        pfx(s, i, a + b),
    ensures
        pfx(s, i, a),
        pfx(s, i + a.len(), b),
{
    lemma_pfx_index(s, i, a + b);
    assert forall|q: int| 0 <= q < a.len() implies (a + b)[q] == a[q] by {}
    assert(s.subrange(i, i + a.len()) =~= a);
    assert forall|q: int|
        0 <= q < b.len() implies s.subrange(i + a.len(), i + a.len() + b.len())[q] == b[q] by {
        assert((a + b)[a.len() + q] == b[q]);
        assert(s[i + (a.len() + q)] == (a + b)[a.len() + q]);
    }
    assert(s.subrange(i + a.len(), i + a.len() + b.len()) =~= b);
}

proof fn lemma_find_quote_at(s: Seq<char>, i: int, m: int)
    requires
        0 <= i,
        0 <= m,
        i + m < s.len(),
        forall|k: int| i <= k < i + m ==> s[k] != '"',
        s[i + m] == '"',
    ensures
        find_quote(s, i) == Some(i + m),
    decreases m,
{
    if m == 0 {
    } else {
        assert(s[i] != '"');
        lemma_find_quote_at(s, i + 1, m - 1);
    }
}

proof fn lemma_parse_mgr_at(s: Seq<char>, i: int, m: Manager)
    requires
        pfx(s, i, mgr_name(m)),
    ensures
        parse_mgr(s, i) == Some((m, i + mgr_name(m).len())),
{
    reveal_strlit("apt");
    reveal_strlit("brew");
    reveal_strlit("cargo");
    reveal_strlit("npm");
    reveal_strlit("pip");
    lemma_pfx_index(s, i, mgr_name(m));
    assert(s[i] == mgr_name(m)[0]);
    if pfx(s, i, mgr_name(Manager::Apt)) {
        lemma_pfx_index(s, i, mgr_name(Manager::Apt));
    }
    if pfx(s, i, mgr_name(Manager::Brew)) {
        lemma_pfx_index(s, i, mgr_name(Manager::Brew));
    }
    if pfx(s, i, mgr_name(Manager::Cargo)) {
        lemma_pfx_index(s, i, mgr_name(Manager::Cargo));
    }
    if pfx(s, i, mgr_name(Manager::Npm)) {
        lemma_pfx_index(s, i, mgr_name(Manager::Npm));
    }
    if pfx(s, i, mgr_name(Manager::Pip)) {
        lemma_pfx_index(s, i, mgr_name(Manager::Pip));
    }
}

proof fn lemma_parse_op_at(s: Seq<char>, i: int, o: Op)
    requires
        pfx(s, i, op_name(o)),
    ensures
        parse_op(s, i) == Some((o, i + op_name(o).len())),
{
    reveal_strlit("install");
    reveal_strlit("remove");
    lemma_pfx_index(s, i, op_name(o));
    assert(s[i] == op_name(o)[0]);
    if pfx(s, i, op_name(Op::Install)) {
        lemma_pfx_index(s, i, op_name(Op::Install));
    }
    if pfx(s, i, op_name(Op::Remove)) {
        lemma_pfx_index(s, i, op_name(Op::Remove));
    }
}

proof fn lemma_parse_tokens_at(s: Seq<char>, i: int, ts: Seq<Seq<char>>)
    requires
        forall|k: int| 0 <= k < ts.len() ==> wf_token(#[trigger] ts[k]),
        pfx(s, i, ser_tokens(ts) + "]"@),
    ensures
        parse_tokens(s, i) == Some((ts, i + ser_tokens(ts).len() + 1)),
    decreases ts.len(),
{
    reveal_strlit("]");
    reveal_strlit("\"");
    reveal_strlit(",");
    let p = ser_tokens(ts) + "]"@;
    lemma_pfx_index(s, i, p);
    if ts.len() == 0 {
        assert(p.len() == 1);
        assert(p[0] == ']');
        assert(s[i] == ']');
        assert(parse_tokens(s, i) == Some((Seq::<Seq<char>>::empty(), i + 1)));
        assert(ts =~= Seq::<Seq<char>>::empty());
    } else {
        let t0 = ts[0];
        let rest = ts.drop_first();
        assert(wf_token(t0));
        let q0 = quoted(t0);
        assert(q0.len() == t0.len() + 2);
        assert(ser_tokens(ts) == q0 + ser_tokens_rest(rest));
        assert(p[0] == '"') by {
            assert(q0[0] == '"');
        }
        assert(s[i] == '"');
        assert(0 <= i < s.len());
        // the token's characters and its closing quote
        assert forall|k: int| i + 1 <= k < i + 1 + t0.len() implies s[k] != '"' by {
            assert(p[k - i] == q0[k - i]);
            assert(q0[k - i] == t0[k - i - 1]);
        }
        assert(p[1 + t0.len() as int] == '"') by {
            assert(q0[1 + t0.len() as int] == '"');
        }
        assert(s[i + 1 + t0.len()] == '"');
        assert(i + 1 + t0.len() < s.len());
        lemma_find_quote_at(s, i + 1, t0.len() as int);
        let j = i + 1 + t0.len();
        assert(find_quote(s, i + 1) == Some(j));
        assert(s.subrange(i + 1, j) =~= t0) by {
            assert forall|k: int| 0 <= k < t0.len() implies s.subrange(i + 1, j)[k] == t0[k] by {
                assert(s.subrange(i + 1, j)[k] == s[i + 1 + k]);
                assert(p[1 + k] == q0[1 + k]);
                assert(q0[1 + k] == t0[k]);
            }
        }
        if rest.len() == 0 {
            assert(ser_tokens_rest(rest) == Seq::<char>::empty());
            assert(ser_tokens(ts) =~= q0);
            assert(p[q0.len() as int] == ']');
            assert(s[j + 1] == ']');
            assert(j + 1 < s.len());
            assert(parse_tokens(s, i) == Some((seq![s.subrange(i + 1, j)], j + 2)));
            assert(seq![s.subrange(i + 1, j)] =~= ts);
            assert(j + 2 == i + ser_tokens(ts).len() + 1);
        } else {
            assert(ser_tokens_rest(rest) == ","@ + quoted(rest[0]) + ser_tokens_rest(
                rest.drop_first(),
            ));
            assert(ser_tokens(rest) == quoted(rest[0]) + ser_tokens_rest(rest.drop_first()));
            assert(ser_tokens_rest(rest) =~= ","@ + ser_tokens(rest));
            assert(p[q0.len() as int] == ',') by {
                assert(ser_tokens(ts)[q0.len() as int] == ser_tokens_rest(rest)[0]);
            }
            assert(s[j + 1] == ',');
            assert(j + 1 < s.len());
            assert(p[q0.len() as int + 1] == '"') by {
                assert(ser_tokens(ts)[q0.len() as int + 1] == ser_tokens_rest(rest)[1]);
                assert(ser_tokens_rest(rest)[1] == ser_tokens(rest)[0]);
                assert(quoted(rest[0])[0] == '"');
            }
            assert(s[j + 2] == '"');
            assert(j + 2 < s.len());
            assert(p =~= (q0 + ","@) + (ser_tokens(rest) + "]"@));
            lemma_pfx_split(s, i, q0 + ","@, ser_tokens(rest) + "]"@);
            assert(i + (q0 + ","@).len() == j + 2);
            assert forall|k: int| 0 <= k < rest.len() implies wf_token(#[trigger] rest[k]) by {
                assert(rest[k] == ts[k + 1]);
            }
            lemma_parse_tokens_at(s, j + 2, rest);
            assert(parse_tokens(s, j + 2) == Some((rest, j + 2 + ser_tokens(rest).len() + 1)));
            assert(parse_tokens(s, i) == Some(
                (seq![s.subrange(i + 1, j)] + rest, j + 2 + ser_tokens(rest).len() + 1),
            ));
            assert(seq![s.subrange(i + 1, j)] + rest =~= ts);
            assert(j + 2 + ser_tokens(rest).len() + 1 == i + ser_tokens(ts).len() + 1);
        }
    }
}

proof fn lemma_parse_record_at(s: Seq<char>, i: int, r: Rec)
    requires
        wf_rec(r),
        pfx(s, i, ser_record(r)),
    ensures
        parse_record(s, i) == Some((r, i + ser_record(r).len())),
{
    reveal_strlit("(manager:");
    reveal_strlit(",op:");
    reveal_strlit(",id:[");
    reveal_strlit("])\n");
    reveal_strlit("]");
    reveal_strlit(")\n");
    let st = ser_tokens(r.id);
    assert("])\n"@ =~= "]"@ + ")\n"@);
    assert(ser_record(r) =~= "(manager:"@ + (mgr_name(r.manager) + (",op:"@ + (op_name(r.op) + (
    ",id:["@ + ((st + "]"@) + ")\n"@))))));
    lemma_pfx_split(s, i, "(manager:"@, mgr_name(r.manager) + (",op:"@ + (op_name(r.op) + (",id:["@
        + ((st + "]"@) + ")\n"@)))));
    let i1 = i + 9;
    lemma_pfx_split(s, i1, mgr_name(r.manager), ",op:"@ + (op_name(r.op) + (",id:["@ + ((st + "]"@)
        + ")\n"@))));
    lemma_parse_mgr_at(s, i1, r.manager);
    let i2 = i1 + mgr_name(r.manager).len();
    lemma_pfx_split(s, i2, ",op:"@, op_name(r.op) + (",id:["@ + ((st + "]"@) + ")\n"@)));
    let i3 = i2 + 4;
    lemma_pfx_split(s, i3, op_name(r.op), ",id:["@ + ((st + "]"@) + ")\n"@));
    lemma_parse_op_at(s, i3, r.op);
    let i4 = i3 + op_name(r.op).len();
    lemma_pfx_split(s, i4, ",id:["@, (st + "]"@) + ")\n"@);
    let i5 = i4 + 5;
    lemma_pfx_split(s, i5, st + "]"@, ")\n"@);
    assert forall|k: int| 0 <= k < r.id.len() implies wf_token(#[trigger] r.id[k]) by {}
    lemma_parse_tokens_at(s, i5, r.id);
    let i6 = i5 + st.len() + 1;
    assert(pfx(s, i6, ")\n"@));
    assert(parse_record(s, i) == Some((Rec { manager: r.manager, op: r.op, id: r.id }, i6 + 2)));
    assert(Rec { manager: r.manager, op: r.op, id: r.id } == r);
    assert(i6 + 2 == i + ser_record(r).len());
}

proof fn lemma_parse_set_at(s: Seq<char>, i: int, rs: Seq<Rec>)
    requires
        wf_set(rs),
        0 <= i <= s.len(),
        s.subrange(i, s.len() as int) == ser_set(rs),
    ensures
        parse_set(s, i) == Some(rs),
    decreases rs.len(),
{
    if rs.len() == 0 {
        assert(ser_set(rs).len() == 0);
        assert(i == s.len());
        assert(rs =~= Seq::<Rec>::empty());
    } else {
        reveal_strlit("(manager:");
        let r0 = rs[0];
        let rest = rs.drop_first();
        assert(wf_rec(r0));
        assert(ser_set(rs) == ser_record(r0) + ser_set(rest));
        assert(ser_record(r0).len() >= 9) by {
            assert(ser_record(r0) == "(manager:"@ + mgr_name(r0.manager) + ",op:"@ + op_name(r0.op)
                + ",id:["@ + ser_tokens(r0.id) + "])\n"@);
        }
        assert(pfx(s, i, ser_record(r0))) by {
            assert forall|q: int| 0 <= q < ser_record(r0).len() implies s.subrange(
                i,
                i + ser_record(r0).len(),
            )[q] == ser_record(r0)[q] by {
                assert(s.subrange(i, s.len() as int)[q] == s[i + q]);
                assert(ser_set(rs)[q] == ser_record(r0)[q]);
                assert(s.subrange(i, i + ser_record(r0).len())[q] == s[i + q]);
            }
            assert(s.subrange(i, i + ser_record(r0).len()) =~= ser_record(r0));
        }
        lemma_parse_record_at(s, i, r0);
        let j = i + ser_record(r0).len();
        assert(i != s.len());
        assert(i < j <= s.len());
        assert(s.subrange(j, s.len() as int) =~= ser_set(rest)) by {
            assert forall|q: int| 0 <= q < s.len() - j implies s.subrange(j, s.len() as int)[q]
                == ser_set(rest)[q] by {
                assert(s.subrange(j, s.len() as int)[q] == s[j + q]);
                assert(s.subrange(i, s.len() as int)[j - i + q] == s[j + q]);
                assert(ser_set(rs)[j - i + q] == ser_set(rest)[q]);
            }
        }
        assert forall|k: int| 0 <= k < rest.len() implies wf_rec(#[trigger] rest[k]) by {
            assert(rest[k] == rs[k + 1]);
        }
        lemma_parse_set_at(s, j, rest);
        assert(parse_set(s, i) == Some(seq![r0] + rest));
        assert(seq![r0] + rest =~= rs);
    }
}

proof fn lemma_pfx_join(s: Seq<char>, i: int, a: Seq<char>, b: Seq<char>)
    requires
        pfx(s, i, a),
        pfx(s, i + a.len(), b),
    ensures
        pfx(s, i, a + b),
{
    lemma_pfx_index(s, i, a);
    lemma_pfx_index(s, i + a.len(), b);
    assert forall|q: int|
        0 <= q < (a + b).len() implies s.subrange(i, i + (a + b).len())[q] == (a + b)[q] by {
        if q < a.len() {
            assert(s[i + q] == a[q]);
        } else {
            assert(s[i + a.len() + (q - a.len())] == b[q - a.len()]);
        }
    }
    assert(s.subrange(i, i + (a + b).len()) =~= a + b);
}

proof fn lemma_tokens_sound(s: Seq<char>, i: int)
    ensures
        match parse_tokens(s, i) {
            Some(r) => pfx(s, i, ser_tokens(r.0) + "]"@) && r.1 == i + ser_tokens(r.0).len() + 1
                && (r.0.len() == 0 <==> s[i] == ']'),
            None => true,
        },
    decreases s.len() - i,
{
    reveal_strlit("]");
    reveal_strlit("\"");
    reveal_strlit(",");
    if 0 <= i < s.len() {
        if s[i] == ']' {
            assert(ser_tokens(Seq::<Seq<char>>::empty()) == Seq::<char>::empty());
            assert(s.subrange(i, i + 1) =~= "]"@);
            assert(Seq::<char>::empty() + "]"@ =~= "]"@);
        } else if s[i] == '"' {
            lemma_find_quote_props(s, i + 1);
            if let Some(j) = find_quote(s, i + 1) {
                let t = s.subrange(i + 1, j);
                assert(quoted(t).len() == t.len() + 2);
                assert(pfx(s, i, quoted(t))) by {
                    assert forall|q: int|
                        0 <= q < quoted(t).len() implies s.subrange(i, i + quoted(t).len())[q]
                        == quoted(t)[q] by {
                        if q == 0 {
                        } else if q < 1 + t.len() {
                            assert(quoted(t)[q] == t[q - 1]);
                            assert(t[q - 1] == s[i + q]);
                        } else {
                            assert(quoted(t)[q] == '"');
                            assert(i + q == j);
                        }
                    }
                    assert(s.subrange(i, i + quoted(t).len()) =~= quoted(t));
                }
                if j + 1 < s.len() && s[j + 1] == ']' {
                    let ts = seq![t];
                    assert(ts.drop_first() =~= Seq::<Seq<char>>::empty());
                    assert(ser_tokens_rest(Seq::<Seq<char>>::empty()) == Seq::<char>::empty());
                    assert(ser_tokens(ts) =~= quoted(t));
                    assert(s.subrange(j + 1, j + 2) =~= "]"@);
                    assert(pfx(s, j + 1, "]"@));
                    lemma_pfx_join(s, i, quoted(t), "]"@);
                    assert(ser_tokens(ts) + "]"@ =~= quoted(t) + "]"@);
                } else if j + 1 < s.len() && s[j + 1] == ',' && j + 2 < s.len() && s[j + 2] == '"'
                    && i < j {
                    lemma_tokens_sound(s, j + 2);
                    if let Some((ts2, k)) = parse_tokens(s, j + 2) {
                        assert(ts2.len() > 0);
                        let ts = seq![t] + ts2;
                        assert(ts.drop_first() =~= ts2);
                        assert(ts[0] == t);
                        assert(ser_tokens_rest(ts2) =~= ","@ + ser_tokens(ts2)) by {
                            assert(ser_tokens(ts2) == quoted(ts2[0]) + ser_tokens_rest(
                                ts2.drop_first(),
                            ));
                        }
                        assert(s.subrange(j + 1, j + 2) =~= ","@);
                        assert(pfx(s, j + 1, ","@));
                        lemma_pfx_join(s, i, quoted(t), ","@);
                        lemma_pfx_join(s, i, quoted(t) + ","@, ser_tokens(ts2) + "]"@);
                        assert(ser_tokens(ts) + "]"@ =~= (quoted(t) + ","@) + (ser_tokens(ts2)
                            + "]"@));
                        assert(ser_tokens(ts).len() == quoted(t).len() + 1 + ser_tokens(
                            ts2,
                        ).len());
                    }
                }
            }
        }
    }
}

proof fn lemma_record_sound(s: Seq<char>, i: int)
    ensures
        match parse_record(s, i) {
            Some(r) => pfx(s, i, ser_record(r.0)) && r.1 == i + ser_record(r.0).len(),
            None => true,
        },
{
    reveal_strlit("(manager:");
    reveal_strlit(",op:");
    reveal_strlit(",id:[");
    reveal_strlit("])\n");
    reveal_strlit("]");
    reveal_strlit(")\n");
    if pfx(s, i, "(manager:"@) {
        let i1 = i + 9;
        if let Some((m, i2)) = parse_mgr(s, i1) {
            assert(pfx(s, i1, mgr_name(m)) && i2 == i1 + mgr_name(m).len()) by {
                reveal_strlit("apt");
                reveal_strlit("brew");
                reveal_strlit("cargo");
                reveal_strlit("npm");
                reveal_strlit("pip");
            }
            if pfx(s, i2, ",op:"@) {
                let i3 = i2 + 4;
                if let Some((o, i4)) = parse_op(s, i3) {
                    assert(pfx(s, i3, op_name(o)) && i4 == i3 + op_name(o).len()) by {
                        reveal_strlit("install");
                        reveal_strlit("remove");
                    }
                    if pfx(s, i4, ",id:["@) {
                        let i5 = i4 + 5;
                        lemma_tokens_sound(s, i5);
                        if let Some((ts, i6)) = parse_tokens(s, i5) {
                            if pfx(s, i6, ")\n"@) {
                                let st = ser_tokens(ts);
                                lemma_pfx_join(s, i, "(manager:"@, mgr_name(m));
                                lemma_pfx_join(s, i, "(manager:"@ + mgr_name(m), ",op:"@);
                                lemma_pfx_join(
                                    s,
                                    i,
                                    "(manager:"@ + mgr_name(m) + ",op:"@,
                                    op_name(o),
                                );
                                lemma_pfx_join(
                                    s,
                                    i,
                                    "(manager:"@ + mgr_name(m) + ",op:"@ + op_name(o),
                                    ",id:["@,
                                );
                                lemma_pfx_join(
                                    s,
                                    i,
                                    "(manager:"@ + mgr_name(m) + ",op:"@ + op_name(o) + ",id:["@,
                                    st + "]"@,
                                );
                                lemma_pfx_join(
                                    s,
                                    i,
                                    "(manager:"@ + mgr_name(m) + ",op:"@ + op_name(o) + ",id:["@
                                        + (st + "]"@),
                                    ")\n"@,
                                );
                                let r = Rec { manager: m, op: o, id: ts };
                                assert(ser_record(r) =~= "(manager:"@ + mgr_name(m) + ",op:"@
                                    + op_name(o) + ",id:["@ + (st + "]"@) + ")\n"@);
                            }
                        }
                    }
                }
            }
        }
    }
}

proof fn lemma_set_sound(s: Seq<char>, i: int)
    requires
        0 <= i <= s.len(),
    ensures
        match parse_set(s, i) {
            Some(rs) => s.subrange(i, s.len() as int) == ser_set(rs),
            None => true,
        },
    decreases s.len() - i,
{
    if i == s.len() {
        assert(s.subrange(i, s.len() as int) =~= ser_set(Seq::<Rec>::empty()));
    } else if let Some((r, j)) = parse_record(s, i) {
        lemma_record_sound(s, i);
        if i < j <= s.len() {
            lemma_set_sound(s, j);
            if let Some(rest) = parse_set(s, j) {
                let rs = seq![r] + rest;
                assert(rs.drop_first() =~= rest);
                assert(rs[0] == r);
                assert(ser_set(rs) == ser_record(r) + ser_set(rest));
                lemma_pfx_index(s, i, ser_record(r));
                assert forall|q: int|
                    0 <= q < s.len() - i implies s.subrange(i, s.len() as int)[q] == ser_set(
                    rs,
                )[q] by {
                    if q < ser_record(r).len() {
                        assert(s[i + q] == ser_record(r)[q]);
                    } else {
                        assert(s.subrange(j, s.len() as int)[q - (j - i)] == s[q + i]);
                        assert(ser_set(rest)[q - (j - i)] == ser_set(rs)[q]);
                    }
                }
                assert(s.subrange(i, s.len() as int) =~= ser_set(rs));
            }
        }
    }
}

/// Byte stability of the persisted text form: any text the parser accepts is
/// exactly the serialization of the record set it denotes, so re-serializing
/// a loaded file reproduces it byte for byte and a repeated commit of
/// unchanged data produces no diff.
pub proof fn lemma_reserialize(s: Seq<char>, rs: Seq<Rec>)
    requires
        spec_deserialize(s) == Some(rs),
    ensures
        ser_set(rs) == s,
{
    lemma_set_sound(s, 0);
    assert(s.subrange(0, s.len() as int) =~= s);
}

/// Round trip of the persisted text form: parsing the serialization of any
/// well-formed record set gives back exactly that record set. Serializing
/// the parse therefore reproduces the text byte for byte, so a sync that
/// adds nothing rewrites an unchanged file.
pub proof fn lemma_round_trip(rs: Seq<Rec>)
    requires
        wf_set(rs),
    ensures
        spec_deserialize(ser_set(rs)) == Some(rs),
{
    let s = ser_set(rs);
    assert(s.subrange(0, s.len() as int) =~= s);
    lemma_parse_set_at(s, 0, rs);
}

} // verus!
