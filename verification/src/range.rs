//! The `Range:` request header: grammar, resolution against the resource
//! length, and the laws the resolver obeys.
//!
//! A header value of the form `bytes=` followed by a comma-separated list of
//! `a-b`, `a-` or `-n` elements resolves to a list of non-empty half-open
//! intervals within `[0, len)`, in client order, without coalescing.

use vstd::prelude::*;

use crate::bytes::{find_byte, find_byte_exec, lemma_find_byte, trim, trim_exec};
use crate::dec::{dec_digits, is_digit, lemma_dec_digits, parse_u64, parse_u64_exec};

verus! {

/// A half-open byte interval `[start, end)` within a resource.
#[derive(Clone, Copy, Debug, PartialEq, Eq, Structural)]
pub struct HttpRange {
    pub start: u64,
    pub end: u64,
}

impl HttpRange {
    /// The number of bytes the interval covers.
    pub fn width(&self) -> (r: u64)
        requires
            self.start <= self.end,
        ensures
            r == self.end - self.start,
    {
        self.end - self.start
    }
}

/// One element of a `Range: bytes=` list: `a-b`, `a-`, or `-n`.
#[derive(Clone, Copy, Debug, PartialEq, Eq, Structural)]
pub enum ByteRangeSpec {
    /// `a-b`: from offset `a` through offset `b`, inclusive.
    FromTo(u64, u64),
    /// `a-`: from offset `a` to the end.
    AllFrom(u64),
    /// `-n`: the final `n` bytes.
    Last(u64),
}

/// Mathematical value of a `ResolvedRanges`.
pub enum RangesView {
    Absent,
    NotSatisfiable,
    Satisfiable(Seq<HttpRange>),
}

/// The outcome of resolving a `Range:` header against a resource length.
#[derive(Debug)]
pub enum ResolvedRanges {
    /// No `Range:` header, or one not of `bytes=` form.
    Absent,
    /// A `bytes=` header was supplied but no interval survives resolution.
    NotSatisfiable,
    /// The non-empty intervals, in client order.
    Satisfiable(Vec<HttpRange>),
}

impl View for ResolvedRanges {
    type V = RangesView;

    open spec fn view(&self) -> RangesView {
        match self {
            ResolvedRanges::Absent => RangesView::Absent,
            ResolvedRanges::NotSatisfiable => RangesView::NotSatisfiable,
            ResolvedRanges::Satisfiable(v) => RangesView::Satisfiable(v@),
        }
    }
}

fn ranges_eq(a: &Vec<HttpRange>, b: &Vec<HttpRange>) -> (r: bool)
    ensures
        r <==> a@ == b@,
{
    if a.len() != b.len() {
        proof {
            assert(a@.len() != b@.len());
        }
        return false;
    }
    let n = a.len();
    let mut i: usize = 0;
    while i < n
        invariant
            0 <= i <= n,
            n == a@.len() && n == b@.len(),
            forall|j: int| 0 <= j < i ==> a@[j] == b@[j],
        decreases n - i,
    {
        if a[i] != b[i] {
            return false;
        }
        i = i + 1;
    }
    proof {
        assert(a@ =~= b@);
    }
    true
}

impl PartialEq for ResolvedRanges {
    fn eq(&self, other: &Self) -> (r: bool) {
        match (self, other) {
            (ResolvedRanges::Absent, ResolvedRanges::Absent) => true,
            (ResolvedRanges::NotSatisfiable, ResolvedRanges::NotSatisfiable) => true,
            (ResolvedRanges::Satisfiable(a), ResolvedRanges::Satisfiable(b)) => ranges_eq(a, b),
            _ => false,
        }
    }
}

impl vstd::std_specs::cmp::PartialEqSpecImpl for ResolvedRanges {
    open spec fn obeys_eq_spec() -> bool {
        true
    }

    open spec fn eq_spec(&self, other: &Self) -> bool {
        self@ == other@
    }
}

/// Resolution of one list element against the resource length: the interval
/// it denotes, or nothing when that interval would be empty or start beyond
/// the end of the resource.
pub open spec fn spec_resolve_one(s: ByteRangeSpec, len: u64) -> Option<HttpRange> {
    match s {
        ByteRangeSpec::FromTo(a, b) => {
            let end: u64 = if b >= len {
                len
            } else {
                (b + 1) as u64
            };
            if a < end {
                Some(HttpRange { start: a, end })
            } else {
                None
            }
        },
        ByteRangeSpec::AllFrom(a) => if a < len {
            Some(HttpRange { start: a, end: len })
        } else {
            None
        },
        ByteRangeSpec::Last(n) => if 0 < n < len {
            Some(HttpRange { start: (len - n) as u64, end: len })
        } else {
            None
        },
    }
}

/// Resolution of a whole list, keeping client order and dropping the
/// elements that resolve to nothing.
pub open spec fn spec_resolve_list(specs: Seq<ByteRangeSpec>, len: u64) -> Seq<HttpRange>
    decreases specs.len(),
{
    if specs.len() == 0 {
        Seq::empty()
    } else {
        spec_resolve_list(specs.drop_last(), len) + (match spec_resolve_one(specs.last(), len) {
            Some(r) => seq![r],
            None => Seq::empty(),
        })
    }
}

/// Resolution of an optional, already-structured `bytes=` list.
pub open spec fn spec_resolve(specs: Option<Seq<ByteRangeSpec>>, len: u64) -> RangesView {
    match specs {
        Option::None => RangesView::Absent,
        Option::Some(ss) => {
            let rs = spec_resolve_list(ss, len);
            if rs.len() == 0 {
                RangesView::NotSatisfiable
            } else {
                RangesView::Satisfiable(rs)
            }
        },
    }
}

pub open spec fn view_opt_specs(range: Option<&Vec<ByteRangeSpec>>) -> Option<
    Seq<ByteRangeSpec>,
> {
    match range {
        Option::Some(v) => Option::Some(v@),
        Option::None => Option::None,
    }
}

/// Resolves an already-parsed `bytes=` list against `resource_len`.
pub fn parse_range_header(range: Option<&Vec<ByteRangeSpec>>, resource_len: u64) -> (r:
    ResolvedRanges)
    ensures
        r@ == spec_resolve(view_opt_specs(range), resource_len),
{
    match range {
        Option::None => ResolvedRanges::Absent,
        Option::Some(specs) => {
            let mut out: Vec<HttpRange> = Vec::new();
            let n = specs.len();
            let mut i: usize = 0;
            proof {
                assert(specs@.subrange(0, 0) =~= Seq::<ByteRangeSpec>::empty());
            }
            while i < n
                invariant
                    0 <= i <= n,
                    n == specs@.len(),
                    out@ == spec_resolve_list(specs@.subrange(0, i as int), resource_len),
                decreases n - i,
            {
                proof {
                    assert(specs@.subrange(0, i as int + 1).drop_last() =~= specs@.subrange(
                        0,
                        i as int,
                    ));
                    assert(specs@.subrange(0, i as int + 1).last() == specs@[i as int]);
                }
                match specs[i] {
                    ByteRangeSpec::FromTo(a, b) => {
                        let end: u64 = if b >= resource_len {
                            resource_len
                        } else {
                            b + 1
                        };
                        if a < end {
                            out.push(HttpRange { start: a, end });
                        }
                    },
                    ByteRangeSpec::AllFrom(a) => {
                        if a < resource_len {
                            out.push(HttpRange { start: a, end: resource_len });
                        }
                    },
                    ByteRangeSpec::Last(last) => {
                        if 0 < last && last < resource_len {
                            out.push(HttpRange { start: resource_len - last, end: resource_len });
                        }
                    },
                }
                proof {
                    assert(out@ =~= spec_resolve_list(
                        specs@.subrange(0, i as int + 1),
                        resource_len,
                    ));
                }
                i = i + 1;
            }
            proof {
                assert(specs@.subrange(0, n as int) =~= specs@);
            }
            if out.len() == 0 {
                ResolvedRanges::NotSatisfiable
            } else {
                ResolvedRanges::Satisfiable(out)
            }
        },
    }
}

/// Every resolved interval is non-empty and lies within `[0, len)`.
pub proof fn lemma_resolve_list_wf(specs: Seq<ByteRangeSpec>, len: u64)
    ensures
        forall|i: int|
            0 <= i < spec_resolve_list(specs, len).len() ==> ((#[trigger] spec_resolve_list(
                specs,
                len,
            )[i]).start < spec_resolve_list(specs, len)[i].end <= len),
    decreases specs.len(),
{
    if specs.len() > 0 {
        lemma_resolve_list_wf(specs.drop_last(), len);
        let prev = spec_resolve_list(specs.drop_last(), len);
        let whole = spec_resolve_list(specs, len);
        assert forall|i: int|
            0 <= i < whole.len() implies ((#[trigger] whole[i]).start < whole[i].end
            <= len) by {
            if i < prev.len() {
                assert(whole[i] == prev[i]);
            }
        }
    }
}

/// Every interval of a satisfiable textual resolution is non-empty and
/// lies within `[0, len)`.
pub proof fn lemma_parse_wf(hdr: Option<Seq<u8>>, len: u64)
    ensures
        spec_parse(hdr, len) matches RangesView::Satisfiable(rs) ==> forall|i: int|
            0 <= i < rs.len() ==> ((#[trigger] rs[i]).start < rs[i].end <= len),
{
    match hdr {
        Option::None => {},
        Option::Some(s) => {
            if spec_has_bytes_prefix(s) {
                match spec_parse_spec_list(s.skip(6)) {
                    Option::Some(specs) => {
                        lemma_resolve_list_wf(specs, len);
                    },
                    Option::None => {},
                }
            }
        },
    }
}

/// Splitting a byte string at commas. The result always has at least one
/// (possibly empty) part; no part contains a comma.
pub open spec fn split_commas(s: Seq<u8>) -> Seq<Seq<u8>>
    decreases s.len(),
{
    if s.len() == 0 {
        seq![Seq::<u8>::empty()]
    } else if s[0] == 44 {
        seq![Seq::<u8>::empty()] + split_commas(s.skip(1))
    } else {
        let r = split_commas(s.skip(1));
        seq![seq![s[0]] + r[0]] + r.skip(1)
    }
}

pub proof fn lemma_split_commas_len(s: Seq<u8>)
    ensures
        split_commas(s).len() >= 1,
    decreases s.len(),
{
    if s.len() > 0 {
        lemma_split_commas_len(s.skip(1));
    }
}

/// If the first `k` bytes are comma-free and byte `k` (when present) is a
/// comma, splitting takes the first `k` bytes as the first part.
pub proof fn lemma_split_commas_chunk(s: Seq<u8>, k: int)
    requires
        0 <= k <= s.len(),
        forall|j: int| 0 <= j < k ==> s[j] != 44,
        k < s.len() ==> s[k] == 44,
    ensures
        k == s.len() ==> split_commas(s) =~~= seq![s],
        k < s.len() ==> split_commas(s) =~~= seq![s.subrange(0, k)] + split_commas(
            s.skip(k + 1),
        ),
    decreases s.len(),
{
    lemma_split_commas_len(s);
    if s.len() == 0 {
        assert(split_commas(s) =~~= seq![s]);
    } else if k == 0 {
        if k < s.len() {
            assert(s[0] == 44);
            assert(s.subrange(0, 0) =~= Seq::<u8>::empty());
        }
    } else {
        assert(s[0] != 44);
        let t = s.skip(1);
        lemma_split_commas_chunk(t, k - 1);
        lemma_split_commas_len(t);
        let r = split_commas(t);
        if k == s.len() {
            assert(r =~~= seq![t]);
            assert(seq![s[0]] + r[0] =~= s);
            assert(split_commas(s) =~~= seq![s]);
        } else {
            assert(t[k - 1] == s[k]);
            assert(r =~~= seq![t.subrange(0, k - 1)] + split_commas(t.skip(k)));
            assert(seq![s[0]] + r[0] =~= s.subrange(0, k));
            assert(t.skip(k) =~= s.skip(k + 1));
            assert(r.skip(1) =~~= split_commas(s.skip(k + 1)));
            assert(split_commas(s) =~~= seq![s.subrange(0, k)] + split_commas(s.skip(k + 1)));
        }
    }
}

/// Parse of one trimmed list element into a structured range spec.
pub open spec fn spec_parse_element(p: Seq<u8>) -> Option<ByteRangeSpec> {
    let t = trim(p);
    if t.len() == 0 {
        Option::None
    } else if t[0] == 45 {
        // "-n": suffix form
        match parse_u64(t.skip(1)) {
            Option::Some(n) => Option::Some(ByteRangeSpec::Last(n)),
            Option::None => Option::None,
        }
    } else {
        let d = find_byte(t, 45);
        if d >= t.len() {
            Option::None
        } else {
            let apart = t.subrange(0, d);
            let bpart = t.subrange(d + 1, t.len() as int);
            match parse_u64(apart) {
                Option::Some(a) => if bpart.len() == 0 {
                    Option::Some(ByteRangeSpec::AllFrom(a))
                } else {
                    match parse_u64(bpart) {
                        Option::Some(b) => Option::Some(ByteRangeSpec::FromTo(a, b)),
                        Option::None => Option::None,
                    }
                },
                Option::None => Option::None,
            }
        }
    }
}

fn parse_element_exec(p: &[u8]) -> (r: Option<ByteRangeSpec>)
    ensures
        r == spec_parse_element(p@),
{
    let t = trim_exec(p);
    if t.len() == 0 {
        return None;
    }
    if *vstd::slice::slice_index_get(t, 0) == 45 {
        let digits = vstd::slice::slice_subrange(t, 1, t.len());
        proof {
            assert(digits@ == t@.skip(1));
        }
        return match parse_u64_exec(digits) {
            Some(n) => Some(ByteRangeSpec::Last(n)),
            None => None,
        };
    }
    let d = find_byte_exec(t, 45);
    proof {
        lemma_find_byte(t@, 45);
    }
    if d >= t.len() {
        return None;
    }
    let apart = vstd::slice::slice_subrange(t, 0, d);
    let bpart = vstd::slice::slice_subrange(t, d + 1, t.len());
    let a = match parse_u64_exec(apart) {
        Some(a) => a,
        None => {
            return None;
        },
    };
    if bpart.len() == 0 {
        return Some(ByteRangeSpec::AllFrom(a));
    }
    match parse_u64_exec(bpart) {
        Some(b) => Some(ByteRangeSpec::FromTo(a, b)),
        None => None,
    }
}

/// Parse of a comma-separated element list (the part after `bytes=`).
/// Any malformed element makes the whole list fail.
pub open spec fn spec_parse_spec_list(s: Seq<u8>) -> Option<Seq<ByteRangeSpec>> {
    let parts = split_commas(s);
    if forall|i: int| 0 <= i < parts.len() ==> spec_parse_element(#[trigger] parts[i]) is Some {
        Option::Some(Seq::new(parts.len(), |i: int| spec_parse_element(parts[i])->Some_0))
    } else {
        Option::None
    }
}

fn parse_spec_list_exec(s: &[u8]) -> (r: Option<Vec<ByteRangeSpec>>)
    ensures
        r is Some <==> spec_parse_spec_list(s@) is Some,
        r is Some ==> r->Some_0@ == spec_parse_spec_list(s@)->Some_0,
    decreases s@.len(),
{
    let k = find_byte_exec(s, 44);
    proof {
        lemma_find_byte(s@, 44);
        lemma_split_commas_chunk(s@, k as int);
        lemma_split_commas_len(s@);
    }
    let first = vstd::slice::slice_subrange(s, 0, k);
    let elem = parse_element_exec(first);
    let ghost parts = split_commas(s@);
    if k == s.len() {
        proof {
            assert(first@ == s@);
            assert(parts =~~= seq![s@]);
        }
        match elem {
            Some(e) => {
                let mut out: Vec<ByteRangeSpec> = Vec::new();
                out.push(e);
                proof {
                    assert(out@ =~= Seq::new(parts.len(), |i: int|
                        spec_parse_element(parts[i])->Some_0));
                }
                Some(out)
            },
            None => {
                proof {
                    assert(spec_parse_element(parts[0]) is None);
                }
                None
            },
        }
    } else {
        let rest = vstd::slice::slice_subrange(s, k + 1, s.len());
        proof {
            assert(rest@ == s@.skip(k as int + 1));
            assert(parts =~~= seq![s@.subrange(0, k as int)] + split_commas(rest@));
        }
        let ghost rparts = split_commas(rest@);
        match elem {
            Some(e) => {
                match parse_spec_list_exec(rest) {
                    Some(mut v) => {
                        v.insert(0, e);
                        proof {
                            let rspecs = spec_parse_spec_list(rest@)->Some_0;
                            assert(forall|i: int|
                                0 <= i < parts.len() ==> spec_parse_element(
                                    #[trigger] parts[i],
                                ) is Some) by {
                                assert(forall|i: int|
                                    1 <= i < parts.len() ==> parts[i] == rparts[i - 1]);
                            }
                            assert(v@ =~= Seq::new(parts.len(), |i: int|
                                spec_parse_element(parts[i])->Some_0)) by {
                                assert(forall|i: int|
                                    1 <= i < parts.len() ==> parts[i] == rparts[i - 1]);
                            }
                        }
                        Some(v)
                    },
                    None => {
                        proof {
                            if spec_parse_spec_list(s@) is Some {
                                assert(forall|i: int|
                                    0 <= i < rparts.len() ==> spec_parse_element(
                                        #[trigger] rparts[i],
                                    ) is Some) by {
                                    assert(forall|i: int|
                                        0 <= i < rparts.len() ==> rparts[i] == parts[i + 1]);
                                }
                                assert(spec_parse_spec_list(rest@) is Some);
                            }
                        }
                        None
                    },
                }
            },
            None => {
                proof {
                    assert(parts[0] == s@.subrange(0, k as int));
                    assert(spec_parse_element(parts[0]) is None);
                }
                None
            },
        }
    }
}

/// True iff `s` starts with the ASCII bytes of `bytes=`.
pub open spec fn spec_has_bytes_prefix(s: Seq<u8>) -> bool {
    s.len() >= 6 && s[0] == 98 && s[1] == 121 && s[2] == 116 && s[3] == 101 && s[4] == 115 && s[5]
        == 61
}

/// Full textual resolution of an optional `Range:` header value: a value
/// not of `bytes=` form (including any malformed element) counts as no
/// range request at all.
pub open spec fn spec_parse(hdr: Option<Seq<u8>>, len: u64) -> RangesView {
    match hdr {
        Option::None => RangesView::Absent,
        Option::Some(s) => if !spec_has_bytes_prefix(s) {
            RangesView::Absent
        } else {
            match spec_parse_spec_list(s.skip(6)) {
                Option::None => RangesView::Absent,
                Option::Some(specs) => spec_resolve(Option::Some(specs), len),
            }
        },
    }
}

pub open spec fn bytes_prefix() -> Seq<u8> {
    seq![98u8, 121u8, 116u8, 101u8, 115u8, 61u8]
}

/// The textual header `bytes={a}-{b}` requesting `[a, b]` inclusive.
pub open spec fn spec_fromto_header(a: u64, b: u64) -> Seq<u8> {
    bytes_prefix() + dec_digits(a) + seq![45u8] + dec_digits(b)
}

/// The textual header `bytes=-{n}` requesting the final `n` bytes.
pub open spec fn spec_suffix_header(n: u64) -> Seq<u8> {
    bytes_prefix() + seq![45u8] + dec_digits(n)
}

/// Parsing `bytes={a}-{b}` textually is resolving the one structured
/// element `FromTo(a, b)`.
pub proof fn lemma_parse_fromto(a: u64, b: u64, len: u64)
    ensures
        spec_parse(Option::Some(spec_fromto_header(a, b)), len) == spec_resolve(
            Option::Some(seq![ByteRangeSpec::FromTo(a, b)]),
            len,
        ),
{
    lemma_dec_digits(a);
    lemma_dec_digits(b);
    let s = spec_fromto_header(a, b);
    let da = dec_digits(a);
    let db = dec_digits(b);
    let t = da + seq![45u8] + db;
    assert(s.len() == 6 + t.len());
    assert(spec_has_bytes_prefix(s));
    assert(s.skip(6) =~= t);
    assert forall|j: int| 0 <= j < t.len() implies t[j] != 44 by {
        if j < da.len() {
            assert(t[j] == da[j] && is_digit(da[j]));
        } else if j == da.len() {
            assert(t[j] == 45);
        } else {
            assert(t[j] == db[j - da.len() - 1] && is_digit(db[j - da.len() - 1]));
        }
    }
    lemma_split_commas_chunk(t, t.len() as int);
    assert(split_commas(t) =~~= seq![t]);
    assert(is_digit(t[0]) && is_digit(t.last()));
    crate::bytes::lemma_trim_noop(t);
    assert(trim(t) == t);
    assert forall|j: int| 0 <= j < da.len() implies t[j] != 45 by {
        assert(t[j] == da[j] && is_digit(da[j]));
    }
    assert(t[da.len() as int] == 45);
    crate::bytes::lemma_find_byte_unique(t, 45, da.len() as int);
    assert(t.subrange(0, da.len() as int) =~= da);
    assert(t.subrange(da.len() as int + 1, t.len() as int) =~= db);
    assert(parse_u64(da) == Option::Some(a));
    assert(parse_u64(db) == Option::Some(b));
    assert(db.len() != 0);
    assert(spec_parse_element(t) == Option::Some(ByteRangeSpec::FromTo(a, b)));
    let parts = split_commas(t);
    assert(parts.len() == 1 && parts[0] == t);
    assert(spec_parse_spec_list(t) is Some);
    assert(spec_parse_spec_list(t)->Some_0 =~= seq![ByteRangeSpec::FromTo(a, b)]);
}

/// Parsing `bytes=-{n}` textually is resolving the one structured element
/// `Last(n)`.
pub proof fn lemma_parse_suffix(n: u64, len: u64)
    ensures
        spec_parse(Option::Some(spec_suffix_header(n)), len) == spec_resolve(
            Option::Some(seq![ByteRangeSpec::Last(n)]),
            len,
        ),
{
    lemma_dec_digits(n);
    let s = spec_suffix_header(n);
    let dn = dec_digits(n);
    let t = seq![45u8] + dn;
    assert(s.len() == 6 + t.len());
    assert(spec_has_bytes_prefix(s));
    assert(s.skip(6) =~= t);
    assert forall|j: int| 0 <= j < t.len() implies t[j] != 44 by {
        if j == 0 {
            assert(t[j] == 45);
        } else {
            assert(t[j] == dn[j - 1] && is_digit(dn[j - 1]));
        }
    }
    lemma_split_commas_chunk(t, t.len() as int);
    assert(split_commas(t) =~~= seq![t]);
    assert(t.last() == dn.last() && is_digit(dn.last()));
    crate::bytes::lemma_trim_noop(t);
    assert(trim(t) == t);
    assert(t[0] == 45);
    assert(t.skip(1) =~= dn);
    assert(parse_u64(dn) == Option::Some(n));
    assert(spec_parse_element(t) == Option::Some(ByteRangeSpec::Last(n)));
    let parts = split_commas(t);
    assert(parts.len() == 1 && parts[0] == t);
    assert(spec_parse_spec_list(t) is Some);
    assert(spec_parse_spec_list(t)->Some_0 =~= seq![ByteRangeSpec::Last(n)]);
}

/// For any positive resource length, the header `bytes=0-{L-1}` resolves
/// to the single interval `[0, L)`: the whole resource.
pub proof fn lemma_parse_whole_range(len: u64)
    requires
        len > 0,
    ensures
        spec_parse(Option::Some(spec_fromto_header(0, (len - 1) as u64)), len)
            == RangesView::Satisfiable(seq![(HttpRange { start: 0, end: len })]),
{
    let b = (len - 1) as u64;
    lemma_parse_fromto(0, b, len);
    let specs = seq![ByteRangeSpec::FromTo(0, b)];
    assert(specs.drop_last() =~= Seq::<ByteRangeSpec>::empty());
    assert(specs.last() == ByteRangeSpec::FromTo(0, b));
    assert(spec_resolve_one(ByteRangeSpec::FromTo(0, b), len) == Option::Some(
        HttpRange { start: 0, end: len },
    ));
    assert(spec_resolve_list(Seq::<ByteRangeSpec>::empty(), len) == Seq::<HttpRange>::empty());
    assert(spec_resolve_list(specs, len) =~= seq![(HttpRange { start: 0, end: len })]);
}

/// The suffix header `bytes=-{n}`: with `0 < n < L` it yields the final
/// `n` bytes, `[L-n, L)`; with `n = 0` or `n >= L` nothing is satisfiable.
pub proof fn lemma_parse_suffix_range(n: u64, len: u64)
    ensures
        0 < n < len ==> spec_parse(Option::Some(spec_suffix_header(n)), len)
            == RangesView::Satisfiable(
            seq![(HttpRange { start: (len - n) as u64, end: len })],
        ),
        !(0 < n < len) ==> spec_parse(Option::Some(spec_suffix_header(n)), len)
            == RangesView::NotSatisfiable,
{
    lemma_parse_suffix(n, len);
    let specs = seq![ByteRangeSpec::Last(n)];
    assert(specs.drop_last() =~= Seq::<ByteRangeSpec>::empty());
    assert(specs.last() == ByteRangeSpec::Last(n));
    if 0 < n < len {
        assert(spec_resolve_one(ByteRangeSpec::Last(n), len) == Option::Some(
            HttpRange { start: (len - n) as u64, end: len },
        ));
        assert(spec_resolve_list(Seq::<ByteRangeSpec>::empty(), len)
            == Seq::<HttpRange>::empty());
        assert(spec_resolve_list(specs, len) =~= seq![
            (HttpRange { start: (len - n) as u64, end: len }),
        ]);
    } else {
        assert(spec_resolve_one(ByteRangeSpec::Last(n), len) is None);
        assert(spec_resolve_list(Seq::<ByteRangeSpec>::empty(), len)
            == Seq::<HttpRange>::empty());
        assert(spec_resolve_list(specs, len) =~= Seq::<HttpRange>::empty());
    }
}

pub open spec fn view_opt_bytes(hdr: Option<&[u8]>) -> Option<Seq<u8>> {
    match hdr {
        Option::Some(s) => Option::Some(s@),
        Option::None => Option::None,
    }
}

/// Resolves a raw `Range:` header value against `resource_len`.
pub fn parse(range_hdr: Option<&[u8]>, resource_len: u64) -> (r: ResolvedRanges)
    ensures
        r@ == spec_parse(view_opt_bytes(range_hdr), resource_len),
{
    let s = match range_hdr {
        None => {
            return ResolvedRanges::Absent;
        },
        Some(s) => s,
    };
    if s.len() < 6 {
        return ResolvedRanges::Absent;
    }
    let prefix_ok = *vstd::slice::slice_index_get(s, 0) == 98 && *vstd::slice::slice_index_get(
        s,
        1,
    ) == 121 && *vstd::slice::slice_index_get(s, 2) == 116 && *vstd::slice::slice_index_get(s, 3)
        == 101 && *vstd::slice::slice_index_get(s, 4) == 115 && *vstd::slice::slice_index_get(s, 5)
        == 61;
    if !prefix_ok {
        return ResolvedRanges::Absent;
    }
    let tail = vstd::slice::slice_subrange(s, 6, s.len());
    proof {
        assert(tail@ == s@.skip(6));
    }
    match parse_spec_list_exec(tail) {
        None => ResolvedRanges::Absent,
        Some(specs) => parse_range_header(Some(&specs), resource_len),
    }
}

} // verus!
