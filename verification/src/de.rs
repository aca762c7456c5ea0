//! Strict parser for the canonical persisted text form. The specification
//! parser below defines exactly which strings are accepted and what they
//! mean; the executable parser returns exactly its result.

use vstd::prelude::*;

use crate::package::mgr_name;
use crate::package::op_name;
use crate::package::wf_rec;
use crate::package::wf_set;
use crate::package::wf_token;
use crate::package::Manager;
use crate::package::Op;
use crate::package::Package;
use crate::package::Packages;
use crate::package::Rec;

verus! {

/// `p` stands in `s` at position `i`.
pub open spec fn pfx(s: Seq<char>, i: int, p: Seq<char>) -> bool {
    0 <= i && i + p.len() <= s.len() && s.subrange(i, i + p.len()) == p
}

/// Position of the first double quote at or after `i`, if any.
pub open spec fn find_quote(s: Seq<char>, i: int) -> Option<int>
    decreases s.len() - i,
{
    if i < 0 || i >= s.len() {
        None
    } else if s[i] == '"' {
        Some(i)
    } else {
        find_quote(s, i + 1)
    }
}

/// The manager tag spelled at position `i`, with the position after it.
pub open spec fn parse_mgr(s: Seq<char>, i: int) -> Option<(Manager, int)> {
    if pfx(s, i, mgr_name(Manager::Apt)) {
        Some((Manager::Apt, i + mgr_name(Manager::Apt).len()))
    } else if pfx(s, i, mgr_name(Manager::Brew)) {
        Some((Manager::Brew, i + mgr_name(Manager::Brew).len()))
    } else if pfx(s, i, mgr_name(Manager::Cargo)) {
        Some((Manager::Cargo, i + mgr_name(Manager::Cargo).len()))
    } else if pfx(s, i, mgr_name(Manager::Npm)) {
        Some((Manager::Npm, i + mgr_name(Manager::Npm).len()))
    } else if pfx(s, i, mgr_name(Manager::Pip)) {
        Some((Manager::Pip, i + mgr_name(Manager::Pip).len()))
    } else {
        None
    }
}

/// The operation tag spelled at position `i`, with the position after it.
pub open spec fn parse_op(s: Seq<char>, i: int) -> Option<(Op, int)> {
    if pfx(s, i, op_name(Op::Install)) {
        Some((Op::Install, i + op_name(Op::Install).len()))
    } else if pfx(s, i, op_name(Op::Remove)) {
        Some((Op::Remove, i + op_name(Op::Remove).len()))
    } else {
        None
    }
}

/// The quoted, comma-separated identifier tokens starting at `i`, up to and
/// including the closing bracket, with the position after it.
pub open spec fn parse_tokens(s: Seq<char>, i: int) -> Option<(Seq<Seq<char>>, int)>
    decreases s.len() - i,
{
    if i < 0 || i >= s.len() {
        None
    } else if s[i] == ']' {
        Some((Seq::empty(), i + 1))
    } else if s[i] == '"' {
        match find_quote(s, i + 1) {
            None => None,
            Some(j) => {
                if j + 1 < s.len() && s[j + 1] == ']' {
                    Some((seq![s.subrange(i + 1, j)], j + 2))
                } else if j + 1 < s.len() && s[j + 1] == ',' && j + 2 < s.len() && s[j + 2] == '"'
                    && i < j {
                    match parse_tokens(s, j + 2) {
                        None => None,
                        Some((ts, k)) => Some((seq![s.subrange(i + 1, j)] + ts, k)),
                    }
                } else {
                    None
                }
            },
        }
    } else {
        None
    }
}

/// One record line starting at `i`, with the position after its newline.
pub open spec fn parse_record(s: Seq<char>, i: int) -> Option<(Rec, int)> {
    if !pfx(s, i, "(manager:"@) {
        None
    } else {
        match parse_mgr(s, i + "(manager:"@.len()) {
            None => None,
            Some((m, i2)) => if !pfx(s, i2, ",op:"@) {
                None
            } else {
                match parse_op(s, i2 + ",op:"@.len()) {
                    None => None,
                    Some((o, i4)) => if !pfx(s, i4, ",id:["@) {
                        None
                    } else {
                        match parse_tokens(s, i4 + ",id:["@.len()) {
                            None => None,
                            Some((ts, i6)) => if !pfx(s, i6, ")\n"@) {
                                None
                            } else {
                                Some((Rec { manager: m, op: o, id: ts }, i6 + ")\n"@.len()))
                            },
                        }
                    },
                }
            },
        }
    }
}

/// The record lines from `i` to the end of the text, in order. The empty
/// text holds the empty record set; anything that is not a sequence of
/// canonical record lines is rejected.
pub open spec fn parse_set(s: Seq<char>, i: int) -> Option<Seq<Rec>>
    decreases s.len() - i,
{
    if i == s.len() {
        Some(Seq::empty())
    } else {
        match parse_record(s, i) {
            None => None,
            Some((r, j)) => if i < j <= s.len() {
                match parse_set(s, j) {
                    None => None,
                    Some(rs) => Some(seq![r] + rs),
                }
            } else {
                None
            },
        }
    }
}

/// The record set a persisted text denotes, if it is well formed.
pub open spec fn spec_deserialize(s: Seq<char>) -> Option<Seq<Rec>> {
    parse_set(s, 0)
}

/// What a successful quote search guarantees: the quote found is the first.
pub proof fn lemma_find_quote_props(s: Seq<char>, i: int)
    ensures
        match find_quote(s, i) {
            Some(j) => i <= j < s.len() && s[j] == '"' && forall|k: int| i <= k < j ==> s[k] != '"',
            None => true,
        },
    decreases s.len() - i,
{
    if i < 0 || i >= s.len() {
    } else if s[i] == '"' {
    } else {
        lemma_find_quote_props(s, i + 1);
    }
}

/// A successfully parsed token list lies within the text, advances the
/// position, and yields only well-formed (quote-free) tokens.
pub proof fn lemma_parse_tokens_props(s: Seq<char>, i: int)
    ensures
        match parse_tokens(s, i) {
            Some(r) => i < r.1 <= s.len() && forall|k: int|
                0 <= k < r.0.len() ==> wf_token(#[trigger] r.0[k]),
            None => true,
        },
    decreases s.len() - i,
{
    if 0 <= i < s.len() && s[i] == '"' {
        lemma_find_quote_props(s, i + 1);
        if let Some(j) = find_quote(s, i + 1) {
            assert(wf_token(s.subrange(i + 1, j))) by {
                assert forall|k: int|
                    0 <= k < s.subrange(i + 1, j).len() implies #[trigger] s.subrange(i + 1, j)[k]
                    != '"' by {
                    assert(s.subrange(i + 1, j)[k] == s[i + 1 + k]);
                }
            }
            if j + 1 < s.len() && s[j + 1] == ']' {
            } else if j + 1 < s.len() && s[j + 1] == ',' && j + 2 < s.len() && s[j + 2] == '"' && i
                < j {
                lemma_parse_tokens_props(s, j + 2);
            }
        }
    }
}

/// A successfully parsed record line lies within the text, advances the
/// position, and yields a well-formed record.
pub proof fn lemma_parse_record_props(s: Seq<char>, i: int)
    ensures
        match parse_record(s, i) {
            Some(r) => i < r.1 <= s.len() && wf_rec(r.0),
            None => true,
        },
{
    reveal_strlit("(manager:");
    reveal_strlit(",op:");
    reveal_strlit(",id:[");
    reveal_strlit(")\n");
    if pfx(s, i, "(manager:"@) {
        if let Some((m, i2)) = parse_mgr(s, i + "(manager:"@.len()) {
            if pfx(s, i2, ",op:"@) {
                if let Some((o, i4)) = parse_op(s, i2 + ",op:"@.len()) {
                    if pfx(s, i4, ",id:["@) {
                        lemma_parse_tokens_props(s, i4 + ",id:["@.len());
                    }
                }
            }
        }
    }
}

/// Every record set a text denotes is well formed.
pub proof fn lemma_parse_set_props(s: Seq<char>, i: int)
    ensures
        match parse_set(s, i) {
            Some(rs) => wf_set(rs),
            None => true,
        },
    decreases s.len() - i,
{
    if i == s.len() {
    } else if let Some((r, j)) = parse_record(s, i) {
        lemma_parse_record_props(s, i);
        if i < j <= s.len() {
            lemma_parse_set_props(s, j);
            if let Some(rs) = parse_set(s, j) {
                assert forall|k: int| 0 <= k < (seq![r] + rs).len() implies wf_rec(
                    #[trigger] (seq![r] + rs)[k],
                ) by {
                    if k > 0 {
                        assert((seq![r] + rs)[k] == rs[k - 1]);
                    }
                }
            }
        }
    }
}

/// Whether `lit` stands in `s` at position `i`.
fn match_lit(s: &str, i: usize, lit: &str) -> (r: bool)
    ensures
        r == pfx(s@, i as int, lit@),
{
    let n = s.unicode_len();
    let l = lit.unicode_len();
    if i > n || l > n - i {
        return false;
    }
    for k in 0..l
        invariant
            n == s@.len(),
            l == lit@.len(),
            i + l <= n,
            forall|q: int| 0 <= q < k ==> s@[i + q] == lit@[q],
    {
        if s.get_char(i + k) != lit.get_char(k) {
            proof {
                if pfx(s@, i as int, lit@) {
                    assert(s@.subrange(i as int, i + l)[k as int] == lit@[k as int]);
                }
            }
            return false;
        }
    }
    proof {
        assert(s@.subrange(i as int, i + l) =~= lit@);
    }
    true
}

/// Position of the first double quote at or after `i`, if any.
fn find_quote_x(s: &str, i: usize) -> (res: Option<usize>)
    ensures
        match res {
            Some(j) => find_quote(s@, i as int) == Some(j as int),
            None => find_quote(s@, i as int) is None,
        },
{
    let n = s.unicode_len();
    let mut k = i;
    while k < n
        invariant
            n == s@.len(),
            i <= k,
            find_quote(s@, i as int) == find_quote(s@, k as int),
        decreases n - k,
    {
        if s.get_char(k) == '"' {
            return Some(k);
        }
        k += 1;
    }
    None
}

/// The manager tag spelled at position `i`.
fn parse_mgr_x(s: &str, i: usize) -> (res: Option<(Manager, usize)>)
    ensures
        match res {
            Some(p) => parse_mgr(s@, i as int) == Some((p.0, p.1 as int)),
            None => parse_mgr(s@, i as int) is None,
        },
{
    // the text length bounds every position computed below
    let n = s.unicode_len();
    proof {
        reveal_strlit("apt");
        reveal_strlit("brew");
        reveal_strlit("cargo");
        reveal_strlit("npm");
        reveal_strlit("pip");
    }
    if match_lit(s, i, "apt") {
        Some((Manager::Apt, i + 3))
    } else if match_lit(s, i, "brew") {
        Some((Manager::Brew, i + 4))
    } else if match_lit(s, i, "cargo") {
        Some((Manager::Cargo, i + 5))
    } else if match_lit(s, i, "npm") {
        Some((Manager::Npm, i + 3))
    } else if match_lit(s, i, "pip") {
        Some((Manager::Pip, i + 3))
    } else {
        None
    }
}

/// The operation tag spelled at position `i`.
fn parse_op_x(s: &str, i: usize) -> (res: Option<(Op, usize)>)
    ensures
        match res {
            Some(p) => parse_op(s@, i as int) == Some((p.0, p.1 as int)),
            None => parse_op(s@, i as int) is None,
        },
{
    // the text length bounds every position computed below
    let n = s.unicode_len();
    proof {
        reveal_strlit("install");
        reveal_strlit("remove");
    }
    if match_lit(s, i, "install") {
        Some((Op::Install, i + 7))
    } else if match_lit(s, i, "remove") {
        Some((Op::Remove, i + 6))
    } else {
        None
    }
}

/// The quoted, comma-separated identifier tokens starting at `i`.
fn parse_tokens_x(s: &str, i: usize) -> (res: Option<(Vec<String>, usize)>)
    ensures
        match res {
            Some(p) => parse_tokens(s@, i as int) == Some((p.0.deep_view(), p.1 as int)),
            None => parse_tokens(s@, i as int) is None,
        },
{
    let n = s.unicode_len();
    if i >= n {
        return None;
    }
    let c0 = s.get_char(i);
    if c0 == ']' {
        return Some((Vec::new(), i + 1));
    }
    if c0 != '"' {
        return None;
    }
    let mut out: Vec<String> = Vec::new();
    let mut cur = i;
    loop
        invariant
            n == s@.len(),
            i <= cur < n,
            s@[cur as int] == '"',
            parse_tokens(s@, i as int) == (match parse_tokens(s@, cur as int) {
                None => None::<(Seq<Seq<char>>, int)>,
                Some(p) => Some((out.deep_view() + p.0, p.1)),
            }),
        decreases n - cur,
    {
        let j = match find_quote_x(s, cur + 1) {
            None => {
                return None;
            },
            Some(j) => j,
        };
        proof {
            lemma_find_quote_props(s@, cur + 1);
        }
        let token = s.substring_char(cur + 1, j).to_owned();
        if j + 1 >= n {
            return None;
        }
        let c = s.get_char(j + 1);
        if c == ']' {
            let ghost prev = out.deep_view();
            out.push(token);
            proof {
                assert(out.deep_view() =~= prev.push(s@.subrange(cur + 1, j as int)));
                assert(prev + seq![s@.subrange(cur + 1, j as int)] =~= out.deep_view());
                assert(prev + (seq![s@.subrange(cur + 1, j as int)] + Seq::<Seq<char>>::empty())
                    =~= out.deep_view());
            }
            return Some((out, j + 2));
        }
        if c != ',' {
            return None;
        }
        if j + 2 >= n {
            return None;
        }
        if s.get_char(j + 2) != '"' {
            return None;
        }
        let ghost prev = out.deep_view();
        out.push(token);
        proof {
            let tok = s@.subrange(cur + 1, j as int);
            assert(out.deep_view() =~= prev.push(tok));
            assert forall|p: (Seq<Seq<char>>, int)|
                prev + (seq![tok] + p.0) =~= out.deep_view() + p.0 by {}
        }
        cur = j + 2;
    }
}

/// One record line starting at `i`.
fn parse_record_x(s: &str, i: usize) -> (res: Option<(Package, usize)>)
    ensures
        match res {
            Some(p) => parse_record(s@, i as int) == Some((p.0@, p.1 as int)) && i < p.1
                && p.1 <= s@.len() && wf_rec(p.0@),
            None => parse_record(s@, i as int) is None,
        },
{
    // the text length bounds every position computed below
    let n = s.unicode_len();
    proof {
        reveal_strlit("(manager:");
        reveal_strlit(",op:");
        reveal_strlit(",id:[");
        reveal_strlit(")\n");
    }
    if !match_lit(s, i, "(manager:") {
        return None;
    }
    let (m, i2) = match parse_mgr_x(s, i + 9) {
        None => {
            return None;
        },
        Some(p) => p,
    };
    if !match_lit(s, i2, ",op:") {
        return None;
    }
    let (o, i4) = match parse_op_x(s, i2 + 4) {
        None => {
            return None;
        },
        Some(p) => p,
    };
    if !match_lit(s, i4, ",id:[") {
        return None;
    }
    let (ts, i6) = match parse_tokens_x(s, i4 + 5) {
        None => {
            return None;
        },
        Some(p) => p,
    };
    if !match_lit(s, i6, ")\n") {
        return None;
    }
    let p = Package { manager: m, op: o, id: ts };
    proof {
        lemma_parse_record_props(s@, i as int);
        assert(p@ == Rec { manager: m, op: o, id: p.id.deep_view() });
    }
    Some((p, i6 + 2))
}

/// Parses the persisted text form back into a record set. Returns `None`
/// exactly when the text is not the canonical form of any record set.
pub fn deserialize(s: &str) -> (res: Option<Packages>)
    ensures
        match res {
            Some(p) => spec_deserialize(s@) == Some(p@) && wf_set(p@),
            None => spec_deserialize(s@) is None,
        },
{
    let n = s.unicode_len();
    let mut out: Vec<Package> = Vec::new();
    let mut i: usize = 0;
    while i < n
        invariant
            n == s@.len(),
            i <= n,
            parse_set(s@, 0) == (match parse_set(s@, i as int) {
                None => None::<Seq<Rec>>,
                Some(rest) => Some(out.deep_view() + rest),
            }),
        decreases n - i,
    {
        let (p, j) = match parse_record_x(s, i) {
            None => {
                return None;
            },
            Some(pj) => pj,
        };
        let ghost prev = out.deep_view();
        out.push(p);
        proof {
            assert(out.deep_view() =~= prev.push(p@));
            assert forall|rest: Seq<Rec>| prev + (seq![p@] + rest) =~= out.deep_view() + rest by {}
        }
        i = j;
    }
    proof {
        assert(parse_set(s@, i as int) == Some(Seq::<Rec>::empty()));
        assert(out.deep_view() + Seq::<Rec>::empty() =~= out.deep_view());
        lemma_parse_set_props(s@, 0);
    }
    Some(Packages(out))
}

} // verus!
