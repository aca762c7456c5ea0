//! Data model for captured package-manager actions and the ordered,
//! deduplicating record collection with its merge algorithm.

use vstd::prelude::*;

verus! {

/// Which package manager produced a record.
#[derive(Clone, Copy, Debug, PartialEq, Eq, Structural)]
pub enum Manager {
    Apt,
    Brew,
    Cargo,
    Npm,
    Pip,
}

/// What the manager was asked to do.
#[derive(Clone, Copy, Debug, PartialEq, Eq, Structural)]
pub enum Op {
    Install,
    Remove,
}

/// Mathematical model of one captured action: the manager, the operation,
/// and the identifier tokens (package names or arguments, order kept).
#[verifier::ext_equal]
pub struct Rec {
    pub manager: Manager,
    pub op: Op,
    pub id: Seq<Seq<char>>,
}

/// One captured package-manager action. Identity is structural: two records
/// are the same action exactly when manager, operation and identifier agree.
#[derive(Debug)]
pub struct Package {
    pub manager: Manager,
    pub op: Op,
    pub id: Vec<String>,
}

impl View for Package {
    type V = Rec;

    open spec fn view(&self) -> Rec {
        Rec { manager: self.manager, op: self.op, id: self.id.deep_view() }
    }
}

impl DeepView for Package {
    type V = Rec;

    open spec fn deep_view(&self) -> Rec {
        self@
    }
}

/// An ordered sequence of records. Insertion order is meaningful for display
/// and for the persisted file; merging keeps it free of structural duplicates.
#[derive(Debug)]
pub struct Packages(pub Vec<Package>);

impl View for Packages {
    type V = Seq<Rec>;

    open spec fn view(&self) -> Seq<Rec> {
        self.0.deep_view()
    }
}

/// Whether the record `r` occurs (structurally) in `s`.
pub open spec fn rec_in(s: Seq<Rec>, r: Rec) -> bool {
    exists|i: int| 0 <= i < s.len() && s[i] == r
}

impl Package {
    /// Structural equality of two records.
    pub fn same_as(&self, other: &Package) -> (r: bool)
        ensures
            r == (self@ == other@),
    {
        if !(self.manager == other.manager && self.op == other.op) {
            assert(self@ != other@);
            return false;
        }
        if self.id.len() != other.id.len() {
            assert(self@.id.len() != other@.id.len());
            return false;
        }
        let n = self.id.len();
        for i in 0..n
            invariant
                n == self.id.len() == other.id.len(),
                forall|k: int| 0 <= k < i ==> self.id[k]@ == other.id[k]@,
        {
            if !self.id[i].eq(&other.id[i]) {
                assert(self@.id[i as int] != other@.id[i as int]);
                return false;
            }
        }
        assert(self@.id =~= other@.id);
        assert(self@ =~= other@);
        true
    }

    /// A structurally equal copy of the record.
    pub fn duplicate(&self) -> (r: Package)
        ensures
            r@ == self@,
    {
        let mut id: Vec<String> = Vec::new();
        let n = self.id.len();
        for i in 0..n
            invariant
                n == self.id.len(),
                id.len() == i,
                forall|k: int| 0 <= k < i ==> id[k]@ == self.id[k]@,
        {
            id.push(self.id[i].clone());
        }
        let r = Package { manager: self.manager, op: self.op, id };
        assert(r@.id =~= self@.id);
        assert(r@ =~= self@);
        r
    }
}

/// The subsequence of `a` whose records are not structurally present in `b`:
/// the records of `a` that are genuinely new with respect to `b`, in `a`'s
/// original relative order.
pub open spec fn spec_filter_new(a: Seq<Rec>, b: Seq<Rec>) -> Seq<Rec>
    decreases a.len(),
{
    if a.len() == 0 {
        Seq::empty()
    } else {
        let p = spec_filter_new(a.drop_last(), b);
        if rec_in(b, a.last()) {
            p
        } else {
            p.push(a.last())
        }
    }
}

/// The merge of candidate records `a` into the persisted records `b`:
/// `b` unchanged, followed by each record of `a`, in order, that is not
/// already present in the result built so far. Never drops a record of `b`;
/// only adds.
pub open spec fn spec_merge(a: Seq<Rec>, b: Seq<Rec>) -> Seq<Rec>
    decreases a.len(),
{
    if a.len() == 0 {
        b
    } else {
        let m = spec_merge(a.drop_last(), b);
        if rec_in(m, a.last()) {
            m
        } else {
            m.push(a.last())
        }
    }
}

/// The genuinely new records that merging `a` into `b` appends: each record
/// of `a`, in `a`'s original relative order, that is neither present in `b`
/// nor already picked from an earlier position of `a`.
pub open spec fn spec_new_records(a: Seq<Rec>, b: Seq<Rec>) -> Seq<Rec>
    decreases a.len(),
{
    if a.len() == 0 {
        Seq::empty()
    } else {
        let p = spec_new_records(a.drop_last(), b);
        if rec_in(b, a.last()) || rec_in(p, a.last()) {
            p
        } else {
            p.push(a.last())
        }
    }
}

/// No two records of `s` are structurally equal.
pub open spec fn uniq(s: Seq<Rec>) -> bool {
    forall|i: int, j: int| 0 <= i < j < s.len() ==> s[i] != s[j]
}

impl Packages {
    /// Keeps exactly the records that are not structurally present in
    /// `saved`, in their original relative order. This is the
    /// pre-confirmation capture filter.
    pub fn filter_saved_packages(&mut self, saved: &Packages)
        ensures
            final(self)@ == spec_filter_new(old(self)@, saved@),
    {
        let n = self.0.len();
        let mut out: Vec<Package> = Vec::new();
        for i in 0..n
            invariant
                n == self.0.len(),
                self.0 == old(self).0,
                out.deep_view() == spec_filter_new(self@.take(i as int), saved@),
        {
            proof {
                assert(self@.take(i + 1).drop_last() =~= self@.take(i as int));
            }
            if !vec_contains(&saved.0, &self.0[i]) {
                let ghost prev = out.deep_view();
                out.push(self.0[i].duplicate());
                proof {
                    assert(out.deep_view() =~= prev.push(self@[i as int]));
                }
            }
        }
        proof {
            assert(self@.take(n as int) =~= self@);
        }
        self.0 = out;
    }

    /// Merges the receiver (the candidate records) into `existing` (the
    /// persisted records) and replaces the receiver with the result:
    /// `existing`'s records first, in their order, then the genuinely new
    /// candidates in their original relative order, without introducing a
    /// structural duplicate.
    pub fn merge(&mut self, existing: &Packages)
        ensures
            final(self)@ == spec_merge(old(self)@, existing@),
    {
        let mut out: Vec<Package> = Vec::new();
        let m = existing.0.len();
        for i in 0..m
            invariant
                m == existing.0.len(),
                out.deep_view() == existing@.take(i as int),
        {
            let ghost prev = out.deep_view();
            out.push(existing.0[i].duplicate());
            proof {
                assert(out.deep_view() =~= prev.push(existing@[i as int]));
                assert(existing@.take(i + 1) =~= existing@.take(i as int).push(
                    existing@[i as int],
                ));
            }
        }
        proof {
            assert(existing@.take(m as int) =~= existing@);
        }
        let n = self.0.len();
        for i in 0..n
            invariant
                n == self.0.len(),
                self.0 == old(self).0,
                out.deep_view() == spec_merge(self@.take(i as int), existing@),
        {
            proof {
                assert(self@.take(i + 1).drop_last() =~= self@.take(i as int));
            }
            if !vec_contains(&out, &self.0[i]) {
                let ghost prev = out.deep_view();
                out.push(self.0[i].duplicate());
                proof {
                    assert(out.deep_view() =~= prev.push(self@[i as int]));
                }
            }
        }
        proof {
            assert(self@.take(n as int) =~= self@);
        }
        self.0 = out;
    }
}

/// Canonical spelling of a manager tag, used for display and in the
/// persisted file.
pub open spec fn mgr_name(m: Manager) -> Seq<char> {
    match m {
        Manager::Apt => "apt"@,
        Manager::Brew => "brew"@,
        Manager::Cargo => "cargo"@,
        Manager::Npm => "npm"@,
        Manager::Pip => "pip"@,
    }
}

/// Canonical spelling of an operation tag.
pub open spec fn op_name(o: Op) -> Seq<char> {
    match o {
        Op::Install => "install"@,
        Op::Remove => "remove"@,
    }
}

/// An identifier token may hold any character except the double quote that
/// delimits it in the persisted file.
pub open spec fn wf_token(t: Seq<char>) -> bool {
    forall|i: int| 0 <= i < t.len() ==> t[i] != '"'
}

/// All identifier tokens of the record are well formed.
pub open spec fn wf_rec(r: Rec) -> bool {
    forall|i: int| 0 <= i < r.id.len() ==> wf_token(#[trigger] r.id[i])
}

/// All records of the set are well formed.
pub open spec fn wf_set(s: Seq<Rec>) -> bool {
    forall|i: int| 0 <= i < s.len() ==> wf_rec(#[trigger] s[i])
}

/// The identifier tokens, each preceded by one space.
pub open spec fn id_with_spaces(ts: Seq<Seq<char>>) -> Seq<char>
    decreases ts.len(),
{
    if ts.len() == 0 {
        Seq::empty()
    } else {
        " "@ + ts[0] + id_with_spaces(ts.drop_first())
    }
}

/// The stable textual form of a record: manager, operation, then the
/// identifier tokens, separated by single spaces.
pub open spec fn spec_full_name(r: Rec) -> Seq<char> {
    mgr_name(r.manager) + " "@ + op_name(r.op) + id_with_spaces(r.id)
}

/// The full names of the records after the first, each preceded by a comma
/// and a space.
pub open spec fn name_list_rest(rs: Seq<Rec>) -> Seq<char>
    decreases rs.len(),
{
    if rs.len() == 0 {
        Seq::empty()
    } else {
        ", "@ + spec_full_name(rs[0]) + name_list_rest(rs.drop_first())
    }
}

/// The full names of the records, separated by a comma and a space.
pub open spec fn name_list(rs: Seq<Rec>) -> Seq<char> {
    if rs.len() == 0 {
        Seq::empty()
    } else {
        spec_full_name(rs[0]) + name_list_rest(rs.drop_first())
    }
}

/// The commit message derived from a candidate set: a fixed prefix followed
/// by the candidates' full names. Deterministic in the candidate set alone.
pub open spec fn spec_commit_message(rs: Seq<Rec>) -> Seq<char> {
    "Emplace - mirror "@ + name_list(rs)
}

proof fn lemma_id_with_spaces_concat(x: Seq<Seq<char>>, y: Seq<Seq<char>>)
    ensures
        id_with_spaces(x + y) == id_with_spaces(x) + id_with_spaces(y),
    decreases x.len(),
{
    if x.len() == 0 {
        assert(x + y =~= y);
        assert(id_with_spaces(x) + id_with_spaces(y) =~= id_with_spaces(y));
    } else {
        lemma_id_with_spaces_concat(x.drop_first(), y);
        assert((x + y).drop_first() =~= x.drop_first() + y);
        assert(" "@ + x[0] + (id_with_spaces(x.drop_first()) + id_with_spaces(y)) =~= (" "@ + x[0]
            + id_with_spaces(x.drop_first())) + id_with_spaces(y));
    }
}

proof fn lemma_name_list_rest_concat(x: Seq<Rec>, y: Seq<Rec>)
    ensures
        name_list_rest(x + y) == name_list_rest(x) + name_list_rest(y),
    decreases x.len(),
{
    if x.len() == 0 {
        assert(x + y =~= y);
        assert(name_list_rest(x) + name_list_rest(y) =~= name_list_rest(y));
    } else {
        lemma_name_list_rest_concat(x.drop_first(), y);
        assert((x + y).drop_first() =~= x.drop_first() + y);
        assert(", "@ + spec_full_name(x[0]) + (name_list_rest(x.drop_first()) + name_list_rest(y))
            =~= (", "@ + spec_full_name(x[0]) + name_list_rest(x.drop_first())) + name_list_rest(
            y,
        ));
    }
}

/// The canonical spelling of a manager tag as a string slice.
pub fn mgr_str(m: Manager) -> (r: &'static str)
    ensures
        r@ == mgr_name(m),
{
    match m {
        Manager::Apt => "apt",
        Manager::Brew => "brew",
        Manager::Cargo => "cargo",
        Manager::Npm => "npm",
        Manager::Pip => "pip",
    }
}

/// The canonical spelling of an operation tag as a string slice.
pub fn op_str(o: Op) -> (r: &'static str)
    ensures
        r@ == op_name(o),
{
    match o {
        Op::Install => "install",
        Op::Remove => "remove",
    }
}

impl Package {
    /// Stable textual form `"<manager> <operation> <identifier...>"`.
    pub fn full_name(&self) -> (out: String)
        ensures
            out@ == spec_full_name(self@),
    {
        let mut out = String::new();
        out.append(mgr_str(self.manager));
        out.append(" ");
        out.append(op_str(self.op));
        let n = self.id.len();
        proof {
            assert(self@.id.take(0) =~= Seq::<Seq<char>>::empty());
            assert(out@ =~= mgr_name(self@.manager) + " "@ + op_name(self@.op) + id_with_spaces(
                self@.id.take(0),
            ));
        }
        for i in 0..n
            invariant
                n == self.id.len(),
                out@ == mgr_name(self@.manager) + " "@ + op_name(self@.op) + id_with_spaces(
                    self@.id.take(i as int),
                ),
        {
            let ghost pre = out@;
            out.append(" ");
            out.append(self.id[i].as_str());
            proof {
                lemma_id_with_spaces_concat(self@.id.take(i as int), seq![self@.id[i as int]]);
                assert(self@.id.take(i + 1) =~= self@.id.take(i as int) + seq![
                    self@.id[i as int],
                ]);
                assert(seq![self@.id[i as int]].drop_first() =~= Seq::<Seq<char>>::empty());
                assert(id_with_spaces(Seq::<Seq<char>>::empty()) == Seq::<char>::empty());
                assert(id_with_spaces(seq![self@.id[i as int]]) =~= " "@ + self@.id[i as int]);
                assert(out@ =~= mgr_name(self@.manager) + " "@ + op_name(self@.op)
                    + id_with_spaces(self@.id.take(i + 1)));
            }
        }
        proof {
            assert(self@.id.take(n as int) =~= self@.id);
        }
        out
    }
}

impl Packages {
    /// The commit message for mirroring this (pre-merge) candidate set:
    /// a fixed prefix naming the tool, then the candidates' full names.
    pub fn commit_message(&self) -> (out: String)
        ensures
            out@ == spec_commit_message(self@),
    {
        let mut out = String::new();
        out.append("Emplace - mirror ");
        let n = self.0.len();
        proof {
            assert(self@.take(0) =~= Seq::<Rec>::empty());
            assert(out@ =~= "Emplace - mirror "@ + name_list(self@.take(0)));
        }
        for i in 0..n
            invariant
                n == self.0.len(),
                out@ == "Emplace - mirror "@ + name_list(self@.take(i as int)),
        {
            if i > 0 {
                out.append(", ");
            }
            let name = self.0[i].full_name();
            out.append(name.as_str());
            proof {
                let taken = self@.take(i as int);
                assert(self@.take(i + 1) =~= taken + seq![self@[i as int]]);
                if i == 0 {
                    assert(taken.len() == 0);
                    assert((taken + seq![self@[0]])[0] == self@[0]);
                    assert((taken + seq![self@[0]]).drop_first() =~= Seq::<Rec>::empty());
                    assert(name_list(self@.take(1)) =~= spec_full_name(self@[0]));
                    assert(out@ =~= "Emplace - mirror "@ + name_list(self@.take(1)));
                } else {
                    lemma_name_list_rest_concat(taken.drop_first(), seq![self@[i as int]]);
                    assert((taken + seq![self@[i as int]])[0] == taken[0]);
                    assert((taken + seq![self@[i as int]]).drop_first() =~= taken.drop_first()
                        + seq![self@[i as int]]);
                    assert(seq![self@[i as int]].drop_first() =~= Seq::<Rec>::empty());
                    assert(name_list_rest(Seq::<Rec>::empty()) == Seq::<char>::empty());
                    assert(name_list_rest(seq![self@[i as int]]) =~= ", "@ + spec_full_name(
                        self@[i as int],
                    ));
                    assert(out@ =~= "Emplace - mirror "@ + name_list(self@.take(i + 1)));
                }
            }
        }
        proof {
            assert(self@.take(n as int) =~= self@);
        }
        out
    }

    /// Whether every identifier token of every record is well formed, so the
    /// set can be written to the persisted file.
    pub fn is_well_formed(&self) -> (r: bool)
        ensures
            r == wf_set(self@),
    {
        let n = self.0.len();
        for i in 0..n
            invariant
                n == self.0.len(),
                forall|k: int| 0 <= k < i ==> wf_rec(#[trigger] self@[k]),
        {
            let p = &self.0[i];
            assert(p@ == self@[i as int]);
            let m = p.id.len();
            for j in 0..m
                invariant
                    m == p.id.len(),
                    p@ == self@[i as int],
                    0 <= i < self@.len(),
                    forall|k: int| 0 <= k < j ==> wf_token(#[trigger] p@.id[k]),
            {
                let t = p.id[j].as_str();
                proof {
                    assert(t@ == p@.id[j as int]);
                }
                let tl = t.unicode_len();
                for c in 0..tl
                    invariant
                        tl == t@.len(),
                        t@ == p@.id[j as int],
                        p@ == self@[i as int],
                        0 <= i < self@.len(),
                        0 <= j < p@.id.len(),
                        forall|k: int| 0 <= k < c ==> t@[k] != '"',
                {
                    if t.get_char(c) == '"' {
                        assert(p@.id[j as int][c as int] == '"');
                        assert(!wf_token(p@.id[j as int]));
                        assert(0 <= j < p@.id.len());
                        assert(!wf_rec(self@[i as int]));
                        assert(0 <= i < self@.len());
                        assert(!wf_set(self@));
                        return false;
                    }
                }
                assert(wf_token(p@.id[j as int]));
            }
            assert(wf_rec(self@[i as int]));
        }
        true
    }
}

/// Whether a record structurally equal to `p` occurs in `v`.
pub fn vec_contains(v: &Vec<Package>, p: &Package) -> (r: bool)
    ensures
        r == rec_in(v.deep_view(), p@),
{
    let n = v.len();
    for i in 0..n
        invariant
            n == v.len(),
            forall|k: int| 0 <= k < i ==> v.deep_view()[k] != p@,
    {
        if v[i].same_as(p) {
            assert(v.deep_view()[i as int] == p@);
            return true;
        }
        assert(v.deep_view()[i as int] == v[i as int]@);
    }
    false
}

} // verus!
