//! Code generation: syntax nodes to target-language text.
//!
//! Each node is mapped to a text fragment by a pure template — a typed
//! `let` for a variable declaration, a translated parameter list for a
//! function declaration, quote-rewritten arguments for a call — and the
//! fragments are concatenated in node order. The whole pass is modelled
//! by the spec function [`gen_spec`]; [`generator`] is verified to return
//! exactly what it says.

use vstd::prelude::*;

use crate::syntax::FunctionDeclare;
use crate::syntax::NodeModel;
use crate::syntax::Parsed;
use crate::syntax::nodes_view;

verus! {

/// `pat` occurs in `s` at position `k`.
pub open spec fn occurs_at(s: Seq<char>, pat: Seq<char>, k: int) -> bool {
    0 <= k && k + pat.len() <= s.len() && s.subrange(k, k + pat.len()) == pat
}

/// The first position where `pat` occurs in `s`, or -1 if it never does.
pub open spec fn find_sub(s: Seq<char>, pat: Seq<char>) -> int
    decreases s.len(),
{
    if pat.len() > s.len() {
        -1
    } else if occurs_at(s, pat, 0) {
        0
    } else if s.len() == 0 {
        -1
    } else {
        let r = find_sub(s.drop_first(), pat);
        if r == -1 {
            -1
        } else {
            r + 1
        }
    }
}

/// Whether `pat` occurs anywhere in `s`.
pub open spec fn contains_sub(s: Seq<char>, pat: Seq<char>) -> bool {
    find_sub(s, pat) != -1
}

/// Occurrences in the tail are occurrences in the whole, one position on.
proof fn lemma_occurs_shift(s: Seq<char>, pat: Seq<char>, k: int)
    requires
        s.len() > 0,
        k >= 1,
    ensures
        occurs_at(s, pat, k) == occurs_at(s.drop_first(), pat, k - 1),
{
    if k + pat.len() <= s.len() {
        let d = s.drop_first();
        assert(s.subrange(k, k + pat.len()) =~= d.subrange(k - 1, k - 1 + pat.len()));
    }
}

/// What `find_sub` returns: the first occurrence, or -1 when there is none.
pub proof fn lemma_find_sub_props(s: Seq<char>, pat: Seq<char>)
    ensures
        find_sub(s, pat) == -1 ==> forall|k: int| !occurs_at(s, pat, k),
        find_sub(s, pat) != -1 ==> 0 <= find_sub(s, pat) && occurs_at(s, pat, find_sub(s, pat)) && (
        forall|k: int| 0 <= k < find_sub(s, pat) ==> !occurs_at(s, pat, k)),
    decreases s.len(),
{
    if pat.len() > s.len() {
    } else if occurs_at(s, pat, 0) {
    } else if s.len() == 0 {
        assert forall|k: int| !occurs_at(s, pat, k) by {
            if 0 <= k && k + pat.len() <= s.len() {
                assert(k == 0);
            }
        }
    } else {
        lemma_find_sub_props(s.drop_first(), pat);
        assert forall|k: int| k >= 1 implies occurs_at(s, pat, k) == occurs_at(
            s.drop_first(),
            pat,
            k - 1,
        ) by {
            lemma_occurs_shift(s, pat, k);
        }
    }
}

/// `find_sub` of a sequence with a witnessed first occurrence.
pub proof fn lemma_find_sub_is(s: Seq<char>, pat: Seq<char>, k: int)
    requires
        occurs_at(s, pat, k),
        forall|j: int| 0 <= j < k ==> !occurs_at(s, pat, j),
    ensures
        find_sub(s, pat) == k,
{
    lemma_find_sub_props(s, pat);
}

/// A whitespace character, as trimming understands it.
pub open spec fn is_ws_char(c: char) -> bool {
    c == ' ' || c == '\t' || c == '\n' || c == '\r'
}

/// `s` without its leading whitespace.
pub open spec fn trim_start(s: Seq<char>) -> Seq<char>
    decreases s.len(),
{
    if s.len() > 0 && is_ws_char(s[0]) {
        trim_start(s.drop_first())
    } else {
        s
    }
}

/// `s` without its trailing whitespace.
pub open spec fn trim_end(s: Seq<char>) -> Seq<char>
    decreases s.len(),
{
    if s.len() > 0 && is_ws_char(s.last()) {
        trim_end(s.drop_last())
    } else {
        s
    }
}

/// `s` without leading and trailing whitespace.
pub open spec fn trim_spec(s: Seq<char>) -> Seq<char> {
    trim_end(trim_start(s))
}

/// `trim_start` drops exactly the leading run of whitespace.
pub proof fn lemma_trim_start_skip(s: Seq<char>, k: int)
    requires
        0 <= k <= s.len(),
        forall|j: int| 0 <= j < k ==> is_ws_char(#[trigger] s[j]),
        k == s.len() || !is_ws_char(s[k]),
    ensures
        trim_start(s) == s.skip(k),
    decreases s.len(),
{
    if k == 0 {
        assert(s.skip(0) =~= s);
    } else {
        let d = s.drop_first();
        assert(forall|j: int| 0 <= j < k - 1 ==> is_ws_char(#[trigger] d[j]));
        lemma_trim_start_skip(d, k - 1);
        assert(d.skip(k - 1) =~= s.skip(k));
    }
}

/// `trim_end` drops exactly the trailing run of whitespace.
pub proof fn lemma_trim_end_take(s: Seq<char>, k: int)
    requires
        0 <= k <= s.len(),
        forall|j: int| k <= j < s.len() ==> is_ws_char(#[trigger] s[j]),
        k == 0 || !is_ws_char(s[k - 1]),
    ensures
        trim_end(s) == s.take(k),
    decreases s.len(),
{
    if k == s.len() {
        assert(s.take(k) =~= s);
    } else {
        let d = s.drop_last();
        assert(forall|j: int| k <= j < d.len() ==> is_ws_char(#[trigger] d[j]));
        lemma_trim_end_take(d, k);
        assert(d.take(k) =~= s.take(k));
    }
}

/// The index of the first comma, or `s.len()` if there is none.
pub open spec fn first_comma(s: Seq<char>) -> int
    decreases s.len(),
{
    if s.len() == 0 {
        0
    } else if s[0] == ',' {
        0
    } else {
        1 + first_comma(s.drop_first())
    }
}

/// `first_comma` points at a comma inside the sequence, or just past it.
pub proof fn lemma_first_comma_bounds(s: Seq<char>)
    ensures
        0 <= first_comma(s) <= s.len(),
        first_comma(s) < s.len() ==> s[first_comma(s)] == ',',
        forall|j: int| 0 <= j < first_comma(s) ==> s[j] != ',',
    decreases s.len(),
{
    if s.len() > 0 && s[0] != ',' {
        lemma_first_comma_bounds(s.drop_first());
        assert forall|j: int| 0 <= j < first_comma(s) implies s[j] != ',' by {
            if j > 0 {
                assert(s[j] == s.drop_first()[j - 1]);
            }
        }
    }
}

/// `first_comma` of a sequence with a witnessed first comma.
pub proof fn lemma_first_comma_is(s: Seq<char>, k: int)
    requires
        0 <= k < s.len(),
        s[k] == ',',
        forall|j: int| 0 <= j < k ==> s[j] != ',',
    ensures
        first_comma(s) == k,
    decreases k,
{
    if k > 0 {
        assert(forall|j: int| 0 <= j < k - 1 ==> s.drop_first()[j] == s[j + 1]);
        lemma_first_comma_is(s.drop_first(), k - 1);
    }
}

/// The pieces of `s` between commas. Every string has at least one
/// (possibly empty) piece.
pub open spec fn comma_split(s: Seq<char>) -> Seq<Seq<char>>
    decreases s.len(),
{
    let k = first_comma(s);
    if !(0 <= k < s.len()) {
        seq![s]
    } else {
        seq![s.take(k)] + comma_split(s.skip(k + 1))
    }
}

/// The piece of `s` between the first and second occurrence of `pat`
/// (or everything after the first occurrence, if there is no second).
pub open spec fn split_second(s: Seq<char>, pat: Seq<char>) -> Seq<char> {
    let k1 = find_sub(s, pat);
    let rest = s.skip(k1 + pat.len());
    let k2 = find_sub(rest, pat);
    if k2 == -1 {
        rest
    } else {
        rest.take(k2)
    }
}

/// One parameter element against one type mapping: when the trimmed
/// element contains the source keyword, emit `name: TargetType`, comma
/// separated from what was emitted before.
pub open spec fn sanitise_change(
    elem: Seq<char>,
    from: Seq<char>,
    to: Seq<char>,
    acc: Seq<char>,
) -> Seq<char> {
    let t = trim_spec(elem);
    if contains_sub(t, from) {
        if acc.len() == 0 {
            acc + split_second(t, from) + ": "@ + to
        } else {
            acc + ", "@ + split_second(t, from) + ": "@ + to
        }
    } else {
        acc
    }
}

/// One parameter element against the type mappings from index `j` on.
pub open spec fn sanitise_one(
    elem: Seq<char>,
    changes: Seq<(Seq<char>, Seq<char>)>,
    j: int,
    acc: Seq<char>,
) -> Seq<char>
    decreases changes.len() - j,
{
    if j < 0 || j >= changes.len() {
        acc
    } else {
        sanitise_one(elem, changes, j + 1, sanitise_change(elem, changes[j].0, changes[j].1, acc))
    }
}

/// The parameter elements from the first on, threaded through the type
/// mappings.
pub open spec fn sanitise_elems(
    elems: Seq<Seq<char>>,
    changes: Seq<(Seq<char>, Seq<char>)>,
    acc: Seq<char>,
) -> Seq<char>
    decreases elems.len(),
{
    if elems.len() == 0 {
        acc
    } else {
        sanitise_elems(elems.drop_first(), changes, sanitise_one(elems[0], changes, 0, acc))
    }
}

/// The translated parameter list: the comma-separated elements, each
/// re-emitted as `name: TargetType` under the type mappings.
pub open spec fn sanitise_spec(params: Seq<char>, changes: Seq<(Seq<char>, Seq<char>)>) -> Seq<
    char,
> {
    sanitise_elems(comma_split(params), changes, Seq::empty())
}

/// The views of a list of type-mapping pairs.
pub open spec fn changes_view(cs: Seq<(String, String)>) -> Seq<(Seq<char>, Seq<char>)> {
    Seq::new(cs.len(), |i: int| (cs[i].0@, cs[i].1@))
}

/// The fixed source-to-target type mapping.
pub open spec fn fixed_changes() -> Seq<(Seq<char>, Seq<char>)> {
    seq![("string"@, "String"@), ("int"@, "i32"@), ("bool"@, "bool"@)]
}

/// The quote rewrite of a call's argument text, scanning from `i` with
/// `start` marking where the current run (verbatim text outside quotes,
/// or the payload of an open string literal) began.
///
/// Text outside double quotes passes through verbatim; each pair of
/// quotes becomes a quoted-string constructor call wrapping exactly the
/// enclosed text; text after an unmatched opening quote is dropped.
pub open spec fn rw_from(p: Seq<char>, i: int, inside: bool, start: int) -> Seq<char>
    decreases p.len() - i,
{
    if i < 0 || start < 0 || start > i {
        Seq::empty()
    } else if i >= p.len() {
        if inside {
            Seq::empty()
        } else {
            p.subrange(start, p.len() as int)
        }
    } else if p[i] == '"' {
        if !inside {
            p.subrange(start, i) + "String::from(\""@ + rw_from(p, i + 1, true, i + 1)
        } else {
            p.subrange(start, i) + "\")"@ + rw_from(p, i + 1, false, i + 1)
        }
    } else {
        rw_from(p, i + 1, inside, start)
    }
}

/// The quote rewrite of a whole argument text.
pub open spec fn rewrite_spec(p: Seq<char>) -> Seq<char> {
    rw_from(p, 0, false, 0)
}

/// The text fragment a single node generates.
pub open spec fn gen_node(n: NodeModel) -> Seq<char> {
    match n {
        NodeModel::VariableDeclare(vd) => if vd.type_class == "String"@ {
            "let "@ + vd.name + ": "@ + vd.type_class + " = String::from(\""@ + vd.value
                + "\");\n"@
        } else if vd.type_class == "i32"@ {
            "let "@ + vd.name + ": "@ + vd.type_class + " = "@ + vd.value + ";\n"@
        } else if vd.type_class == "bool"@ {
            "let "@ + vd.name + ": "@ + vd.type_class + " = "@ + vd.value + ";"@
        } else {
            Seq::empty()
        },
        NodeModel::FunctionDeclare(fd) => "fn "@ + fd.name + "("@ + sanitise_spec(
            fd.parameters,
            fixed_changes(),
        ) + ") {"@,
        NodeModel::FunctionCall(fc) => fc.name + "("@ + rewrite_spec(fc.parameters) + ");"@,
        NodeModel::Print(body) => "println!("@ + body + ");"@,
        NodeModel::RSquirly(_) => "}"@,
        NodeModel::If(b) => "if "@ + b + " {"@,
        NodeModel::OrIf(b) => "else if "@ + b + " {"@,
        NodeModel::Else => "else {"@,
    }
}

/// The generated text of a node sequence: the fragments, concatenated in
/// order.
pub open spec fn gen_spec(ns: Seq<NodeModel>) -> Seq<char>
    decreases ns.len(),
{
    if ns.len() == 0 {
        Seq::empty()
    } else {
        gen_node(ns[0]) + gen_spec(ns.drop_first())
    }
}

/// Whether the string holds exactly the text `l`.
fn str_eq(a: &String, l: &str) -> (r: bool)
    ensures
        r == (a@ == l@),
{
    let ls = String::from_str(l);
    *a == ls
}

/// Whether `c` is whitespace, as trimming understands it.
fn char_is_ws(c: char) -> (r: bool)
    ensures
        r == is_ws_char(c),
{
    c == ' ' || c == '\t' || c == '\n' || c == '\r'
}

/// Find the first occurrence of `pat` within `s[lo..hi]`; the returned
/// position is absolute in `s`.
fn find_in_range(s: &str, lo: usize, hi: usize, pat: &str) -> (r: Option<usize>)
    requires
        lo <= hi <= s@.len(),
    ensures
        ({
            let seg = s@.subrange(lo as int, hi as int);
            match r {
                Some(k) => lo <= k && k + pat@.len() <= hi && find_sub(seg, pat@) == k - lo,
                None => find_sub(seg, pat@) == -1,
            }
        }),
{
    let ghost seg = s@.subrange(lo as int, hi as int);
    let plen = pat.unicode_len();
    if plen > hi - lo {
        return None;
    }
    if plen == 0 {
        proof {
            assert(seg.subrange(0, 0) =~= pat@);
            assert(occurs_at(seg, pat@, 0));
            lemma_find_sub_is(seg, pat@, 0);
        }
        return Some(lo);
    }
    let mut k = lo;
    while k <= hi - plen
        invariant
            lo <= k <= hi - plen + 1,
            plen == pat@.len(),
            1 <= plen <= hi - lo,
            hi <= s@.len(),
            seg == s@.subrange(lo as int, hi as int),
            forall|j: int| 0 <= j < k - lo ==> !occurs_at(seg, pat@, j),
        decreases hi - plen + 1 - k,
    {
        let mut m: usize = 0;
        let mut is_match = true;
        while m < plen && is_match
            invariant
                m <= plen,
                plen == pat@.len(),
                lo <= k,
                k + plen <= hi <= s@.len(),
                seg == s@.subrange(lo as int, hi as int),
                is_match ==> forall|j: int| 0 <= j < m ==> seg[k - lo + j] == pat@[j],
                !is_match ==> !occurs_at(seg, pat@, k - lo),
            decreases plen - m,
        {
            let a = s.get_char(k + m);
            let b = pat.get_char(m);
            if a != b {
                proof {
                    assert(seg[k - lo + m] == s@[k + m]);
                    if occurs_at(seg, pat@, k - lo) {
                        assert(seg.subrange(k - lo, k - lo + plen) == pat@);
                        assert(seg.subrange(k - lo, k - lo + plen)[m as int] == seg[k - lo + m]);
                    }
                }
                is_match = false;
            }
            m = m + 1;
        }
        if is_match {
            proof {
                assert(seg.subrange(k - lo, k - lo + plen) =~= pat@);
                assert(occurs_at(seg, pat@, k - lo));
                lemma_find_sub_is(seg, pat@, k - lo);
            }
            return Some(k);
        }
        k = k + 1;
    }
    proof {
        assert forall|j: int| !occurs_at(seg, pat@, j) by {
            if 0 <= j && j + pat@.len() <= seg.len() {
                assert(j < k - lo);
            }
        }
        lemma_find_sub_props(seg, pat@);
    }
    None
}

/// Trim whitespace from both ends of `s[lo..hi]`, returning the new
/// bounds.
fn trim_range(s: &str, lo: usize, hi: usize) -> (r: (usize, usize))
    requires
        lo <= hi <= s@.len(),
    ensures
        lo <= r.0 <= r.1 <= hi,
        s@.subrange(r.0 as int, r.1 as int) == trim_spec(
            s@.subrange(lo as int, hi as int),
        ),
{
    let ghost seg = s@.subrange(lo as int, hi as int);
    let mut a = lo;
    while a < hi && char_is_ws(s.get_char(a))
        invariant
            lo <= a <= hi <= s@.len(),
            seg == s@.subrange(lo as int, hi as int),
            forall|j: int| 0 <= j < a - lo ==> is_ws_char(#[trigger] seg[j]),
        decreases hi - a,
    {
        proof {
            assert(seg[a - lo] == s@[a as int]);
        }
        a = a + 1;
    }
    proof {
        if a < hi {
            assert(seg[a - lo] == s@[a as int]);
        }
        lemma_trim_start_skip(seg, a - lo);
        assert(seg.skip(a - lo) =~= s@.subrange(a as int, hi as int));
    }
    let ghost seg2 = s@.subrange(a as int, hi as int);
    let mut b = hi;
    while b > a && char_is_ws(s.get_char(b - 1))
        invariant
            a <= b <= hi <= s@.len(),
            seg2 == s@.subrange(a as int, hi as int),
            forall|j: int| b - a <= j < seg2.len() ==> is_ws_char(#[trigger] seg2[j]),
        decreases b,
    {
        proof {
            assert(seg2[b - 1 - a] == s@[b - 1]);
        }
        b = b - 1;
    }
    proof {
        if b > a {
            assert(seg2[b - 1 - a] == s@[b - 1]);
        }
        lemma_trim_end_take(seg2, b - a);
        assert(seg2.take(b - a) =~= s@.subrange(a as int, b as int));
    }
    (a, b)
}

/// The quote rewrite of a call's raw argument text: text outside double
/// quotes passes through verbatim, each quoted span becomes a
/// quoted-string constructor call.
fn rewrite_args(p: &String) -> (out: String)
    ensures
        out@ == rewrite_spec(p@),
{
    let n = p.as_str().unicode_len();
    let mut out = String::new();
    let mut inside = false;
    let mut start: usize = 0;
    let mut i: usize = 0;
    while i < n
        invariant
            n == p@.len(),
            start <= i <= n,
            rewrite_spec(p@) == out@ + rw_from(p@, i as int, inside, start as int),
        decreases n - i,
    {
        let c = p.as_str().get_char(i);
        let ghost out0 = out@;
        if c == '"' {
            if !inside {
                out.append(p.as_str().substring_char(start, i));
                out.append("String::from(\"");
                proof {
                    assert(out@ + rw_from(p@, i as int + 1, true, i as int + 1) =~= out0
                        + rw_from(p@, i as int, false, start as int));
                }
                inside = true;
                start = i + 1;
            } else {
                out.append(p.as_str().substring_char(start, i));
                out.append("\")");
                proof {
                    assert(out@ + rw_from(p@, i as int + 1, false, i as int + 1) =~= out0
                        + rw_from(p@, i as int, true, start as int));
                }
                inside = false;
                start = i + 1;
            }
        } else {
            proof {
                assert(rw_from(p@, i as int, inside, start as int) == rw_from(
                    p@,
                    i as int + 1,
                    inside,
                    start as int,
                ));
            }
        }
        i = i + 1;
    }
    let ghost out1 = out@;
    if !inside {
        out.append(p.as_str().substring_char(start, n));
        proof {
            assert(out@ =~= out1 + rw_from(p@, n as int, false, start as int));
        }
    } else {
        proof {
            assert(out@ =~= out1 + rw_from(p@, n as int, true, start as int));
        }
    }
    out
}

/// Process one comma-separated parameter element against every type
/// mapping, appending the re-emitted `name: Type` pairs to `out`.
#[verifier::loop_isolation(false)]
fn handle_elem(
    s: &str,
    lo: usize,
    hi: usize,
    content_change: &Vec<(String, String)>,
    out: &mut String,
)
    requires
        lo <= hi <= s@.len(),
    ensures
        final(out)@ == sanitise_one(
            s@.subrange(lo as int, hi as int),
            changes_view(content_change@),
            0,
            old(out)@,
        ),
{
    let ghost elem = s@.subrange(lo as int, hi as int);
    let ghost changes = changes_view(content_change@);
    let (tlo, thi) = trim_range(s, lo, hi);
    let ghost t = trim_spec(elem);
    assert(t == s@.subrange(tlo as int, thi as int));
    let n_changes = content_change.len();
    let mut j: usize = 0;
    while j < n_changes
        invariant
            j <= n_changes,
            sanitise_one(elem, changes, 0, old(out)@) == sanitise_one(elem, changes, j as int, out@),
        decreases n_changes - j,
    {
        proof {
            assert(changes[j as int] == (content_change@[j as int].0@, content_change@[j as int].1@));
        }
        let from = &content_change[j].0;
        let to = &content_change[j].1;
        let ghost pre_out = out@;
        let found = find_in_range(s, tlo, thi, from.as_str());
        match found {
            Some(k1) => {
                let plen = from.as_str().unicode_len();
                let rest_lo = k1 + plen;
                let ghost rest = t.skip(k1 - tlo + plen as int);
                proof {
                    assert(rest =~= s@.subrange(rest_lo as int, thi as int));
                }
                let found2 = find_in_range(s, rest_lo, thi, from.as_str());
                let piece_hi = match found2 {
                    Some(k2) => k2,
                    None => thi,
                };
                proof {
                    assert(find_sub(t, from@) == k1 - tlo);
                    match found2 {
                        Some(k2) => {
                            assert(rest.take(k2 as int - rest_lo as int) =~= s@.subrange(
                                rest_lo as int,
                                k2 as int,
                            ));
                            assert(split_second(t, from@) == s@.subrange(
                                rest_lo as int,
                                piece_hi as int,
                            ));
                        },
                        None => {
                            assert(split_second(t, from@) == rest);
                            assert(split_second(t, from@) == s@.subrange(
                                rest_lo as int,
                                piece_hi as int,
                            ));
                        },
                    }
                }
                if out.as_str().is_empty() {
                    out.append(s.substring_char(rest_lo, piece_hi));
                    out.append(": ");
                    out.append(to.as_str());
                } else {
                    out.append(", ");
                    out.append(s.substring_char(rest_lo, piece_hi));
                    out.append(": ");
                    out.append(to.as_str());
                }
                proof {
                    assert(out@ =~= sanitise_change(elem, from@, to@, pre_out));
                }
            },
            None => {
                proof {
                    assert(out@ == sanitise_change(elem, from@, to@, pre_out));
                }
            },
        }
        j = j + 1;
    }
}

impl FunctionDeclare {
    /// Translate the raw parameter-list text: split on commas and, for
    /// each element whose trimmed text contains a source type keyword of
    /// `content_change`, re-emit `name: TargetType`, joined with `, `.
    #[verifier::loop_isolation(false)]
    pub fn sanitise_params(&self, content_change: Vec<(String, String)>) -> (out: String)
        ensures
            out@ == sanitise_spec(self.parameters@, changes_view(content_change@)),
    {
        let s = self.parameters.as_str();
        let n = s.unicode_len();
        let ghost params = self.parameters@;
        let ghost changes = changes_view(content_change@);
        let mut out = String::new();
        let mut elem_start: usize = 0;
        let mut pos: usize = 0;
        assert(params.skip(0) =~= params);
        while pos < n
            invariant
                elem_start <= pos <= n,
                n == params.len(),
                forall|j: int| elem_start <= j < pos ==> params[j] != ',',
                sanitise_spec(params, changes) == sanitise_elems(
                    comma_split(params.skip(elem_start as int)),
                    changes,
                    out@,
                ),
            decreases n - pos,
        {
            let c = s.get_char(pos);
            if c == ',' {
                let ghost rem = params.skip(elem_start as int);
                let ghost k = pos - elem_start as int;
                proof {
                    assert(forall|j: int| 0 <= j < rem.len() ==> rem[j] == params[j + elem_start]);
                    lemma_first_comma_is(rem, k);
                    assert(comma_split(rem) == seq![rem.take(k)] + comma_split(rem.skip(k + 1)));
                    assert((seq![rem.take(k)] + comma_split(rem.skip(k + 1)))[0] == rem.take(k));
                    assert((seq![rem.take(k)] + comma_split(rem.skip(k + 1))).drop_first()
                        =~= comma_split(rem.skip(k + 1)));
                    assert(rem.take(k) =~= params.subrange(elem_start as int, pos as int));
                    assert(rem.skip(k + 1) =~= params.skip(pos as int + 1));
                }
                handle_elem(s, elem_start, pos, &content_change, &mut out);
                elem_start = pos + 1;
            }
            pos = pos + 1;
        }
        let ghost rem = params.skip(elem_start as int);
        proof {
            assert(forall|j: int| 0 <= j < rem.len() ==> rem[j] == params[j + elem_start]);
            lemma_first_comma_bounds(rem);
            assert(first_comma(rem) == rem.len());
            assert(comma_split(rem) == seq![rem]);
            assert(seq![rem][0] == rem);
            assert(seq![rem].drop_first() =~= Seq::<Seq<char>>::empty());
            assert(rem =~= params.subrange(elem_start as int, n as int));
        }
        let ghost out_b = out@;
        handle_elem(s, elem_start, n, &content_change, &mut out);
        proof {
            assert(out@ == sanitise_one(rem, changes, 0, out_b));
            assert(sanitise_elems(comma_split(rem), changes, out_b) == sanitise_elems(
                Seq::<Seq<char>>::empty(),
                changes,
                sanitise_one(rem, changes, 0, out_b),
            ));
        }
        out
    }
}

/// Code generation: map each syntax node to its target-language text and
/// concatenate in order. Never fails; a node with an unknown declared
/// type generates nothing, as [`gen_spec`] says.
#[verifier::loop_isolation(false)]
pub fn generator(parsed: Vec<Parsed>) -> (out: String)
    ensures
        out@ == gen_spec(nodes_view(parsed@)),
{
    let ghost models = nodes_view(parsed@);
    let n = parsed.len();
    let mut gen = String::new();
    let mut i: usize = 0;
    assert(models.skip(0) =~= models);
    while i < n
        invariant
            i <= n,
            n == parsed@.len(),
            models == nodes_view(parsed@),
            gen_spec(models) == gen@ + gen_spec(models.skip(i as int)),
        decreases n - i,
    {
        proof {
            assert(models[i as int] == parsed@[i as int]@);
            assert(models.skip(i as int)[0] == models[i as int]);
            assert(models.skip(i as int).drop_first() =~= models.skip(i as int + 1));
        }
        let ghost g0 = gen@;
        match &parsed[i] {
            Parsed::VariableDeclare(vd) => {
                if str_eq(&vd.type_class, "String") {
                    gen.append("let ");
                    gen.append(vd.name.as_str());
                    gen.append(": ");
                    gen.append(vd.type_class.as_str());
                    gen.append(" = String::from(\"");
                    gen.append(vd.value.as_str());
                    gen.append("\");\n");
                } else if str_eq(&vd.type_class, "i32") {
                    gen.append("let ");
                    gen.append(vd.name.as_str());
                    gen.append(": ");
                    gen.append(vd.type_class.as_str());
                    gen.append(" = ");
                    gen.append(vd.value.as_str());
                    gen.append(";\n");
                } else if str_eq(&vd.type_class, "bool") {
                    gen.append("let ");
                    gen.append(vd.name.as_str());
                    gen.append(": ");
                    gen.append(vd.type_class.as_str());
                    gen.append(" = ");
                    gen.append(vd.value.as_str());
                    gen.append(";");
                }
            },
            Parsed::FunctionDeclare(fd) => {
                let mut cc: Vec<(String, String)> = Vec::new();
                cc.push((String::from_str("string"), String::from_str("String")));
                cc.push((String::from_str("int"), String::from_str("i32")));
                cc.push((String::from_str("bool"), String::from_str("bool")));
                proof {
                    assert(changes_view(cc@) =~= fixed_changes());
                }
                let re = fd.sanitise_params(cc);
                gen.append("fn ");
                gen.append(fd.name.as_str());
                gen.append("(");
                gen.append(re.as_str());
                gen.append(") {");
            },
            Parsed::FunctionCall(fc) => {
                let args = rewrite_args(&fc.parameters);
                gen.append(fc.name.as_str());
                gen.append("(");
                gen.append(args.as_str());
                gen.append(");");
            },
            Parsed::Print(body) => {
                gen.append("println!(");
                gen.append(body.as_str());
                gen.append(");");
            },
            Parsed::RSquirly(_) => {
                gen.append("}");
            },
            Parsed::If(b) => {
                gen.append("if ");
                gen.append(b.as_str());
                gen.append(" {");
            },
            Parsed::OrIf(b) => {
                gen.append("else if ");
                gen.append(b.as_str());
                gen.append(" {");
            },
            Parsed::Else => {
                gen.append("else {");
            },
        }
        proof {
            assert(gen@ =~= g0 + gen_node(models[i as int]));
            assert(g0 + (gen_node(models[i as int]) + gen_spec(models.skip(i as int + 1))) =~= gen@
                + gen_spec(models.skip(i as int + 1)));
        }
        i = i + 1;
    }
    proof {
        assert(models.skip(n as int) =~= Seq::<NodeModel>::empty());
        assert(gen@ + Seq::<char>::empty() =~= gen@);
    }
    gen
}

} // verus!
