//! `Accept-Encoding` negotiation: whether a gzip representation is
//! preferable over the identity one.
//!
//! The header is a comma-separated list of `coding [ ; q=qvalue ]` elements,
//! each whitespace-trimmed. A `qvalue` is `0`, `0.`, `0.d`, `0.dd`, `0.ddd`,
//! `1`, `1.`, `1.0`, `1.00` or `1.000`, scaled here to thousandths. A header
//! that does not fit this grammar, like an absent header, yields `false`:
//! when in doubt the identity coding is served.

use vstd::prelude::*;

use crate::bytes::{eq_ignore_case, eq_ignore_case_exec, find_byte, find_byte_exec,
    lemma_find_byte, trim, trim_end, trim_exec};
use crate::dec::is_digit;
use crate::range::{split_commas, lemma_split_commas_chunk, lemma_split_commas_len, view_opt_bytes};

verus! {

/// A parsed qvalue in thousandths: 0 to 1000.
pub open spec fn spec_parse_qvalue(q: Seq<u8>) -> Option<u16> {
    if q.len() == 0 || q.len() > 5 {
        Option::None
    } else if q[0] == 48 {
        // "0", "0.", "0.d", "0.dd", "0.ddd"
        if q.len() == 1 {
            Option::Some(0)
        } else if q[1] != 46 {
            Option::None
        } else if q.len() == 2 {
            Option::Some(0)
        } else if !all_digits_from(q, 2) {
            Option::None
        } else if q.len() == 3 {
            Option::Some((100 * (q[2] - 48)) as u16)
        } else if q.len() == 4 {
            Option::Some((100 * (q[2] - 48) + 10 * (q[3] - 48)) as u16)
        } else {
            Option::Some((100 * (q[2] - 48) + 10 * (q[3] - 48) + (q[4] - 48)) as u16)
        }
    } else if q[0] == 49 {
        // "1", "1.", "1.0", "1.00", "1.000"
        if q.len() == 1 {
            Option::Some(1000)
        } else if q[1] != 46 {
            Option::None
        } else if forall|i: int| 2 <= i < q.len() ==> q[i] == 48 {
            Option::Some(1000)
        } else {
            Option::None
        }
    } else {
        Option::None
    }
}

pub open spec fn all_digits_from(q: Seq<u8>, k: int) -> bool {
    forall|i: int| k <= i < q.len() ==> is_digit(#[trigger] q[i])
}

#[verifier::loop_isolation(false)]
fn parse_qvalue_exec(q: &[u8]) -> (r: Option<u16>)
    ensures
        r == spec_parse_qvalue(q@),
{
    let n = q.len();
    if n == 0 || n > 5 {
        return None;
    }
    let c0 = *vstd::slice::slice_index_get(q, 0);
    if c0 == 48 {
        if n == 1 {
            return Some(0);
        }
        if *vstd::slice::slice_index_get(q, 1) != 46 {
            return None;
        }
        if n == 2 {
            return Some(0);
        }
        let mut i: usize = 2;
        while i < n
            invariant
                2 <= i <= n,
                n == q@.len(),
                forall|j: int| 2 <= j < i ==> is_digit(#[trigger] q@[j]),
            decreases n - i,
        {
            let c = *vstd::slice::slice_index_get(q, i);
            if c < 48 || c > 57 {
                proof {
                    assert(!is_digit(q@[i as int]));
                }
                return None;
            }
            i = i + 1;
        }
        let d2 = *vstd::slice::slice_index_get(q, 2) - 48;
        if n == 3 {
            return Some(100 * (d2 as u16));
        }
        let d3 = *vstd::slice::slice_index_get(q, 3) - 48;
        if n == 4 {
            return Some(100 * (d2 as u16) + 10 * (d3 as u16));
        }
        let d4 = *vstd::slice::slice_index_get(q, 4) - 48;
        Some(100 * (d2 as u16) + 10 * (d3 as u16) + (d4 as u16))
    } else if c0 == 49 {
        if n == 1 {
            return Some(1000);
        }
        if *vstd::slice::slice_index_get(q, 1) != 46 {
            return None;
        }
        let mut i: usize = 2;
        while i < n
            invariant
                2 <= i <= n,
                n == q@.len(),
                forall|j: int| 2 <= j < i ==> q@[j] == 48,
            decreases n - i,
        {
            if *vstd::slice::slice_index_get(q, i) != 48 {
                return None;
            }
            i = i + 1;
        }
        Some(1000)
    } else {
        None
    }
}

/// One list element, parsed to the coding token and its weight in
/// thousandths (1000 when no `q=` parameter is given).
pub open spec fn spec_parse_ae_element(p: Seq<u8>) -> Option<(Seq<u8>, u16)> {
    let t = trim(p);
    let semi = find_byte(t, 59);
    if semi == t.len() {
        if t.len() == 0 {
            Option::None
        } else {
            Option::Some((t, 1000))
        }
    } else {
        let coding = trim_end(t.subrange(0, semi));
        let param = trim(t.subrange(semi + 1, t.len() as int));
        if coding.len() == 0 {
            Option::None
        } else if param.len() >= 2 && param[0] == 113 && param[1] == 61 {
            match spec_parse_qvalue(param.skip(2)) {
                Option::Some(m) => Option::Some((coding, m)),
                Option::None => Option::None,
            }
        } else {
            Option::None
        }
    }
}

fn parse_ae_element_exec(p: &[u8]) -> (r: Option<(Vec<u8>, u16)>)
    ensures
        match r {
            Some(cq) => spec_parse_ae_element(p@) == Option::Some((cq.0@, cq.1)),
            None => spec_parse_ae_element(p@) is None,
        },
{
    let t = trim_exec(p);
    let semi = find_byte_exec(t, 59);
    proof {
        lemma_find_byte(t@, 59);
    }
    if semi == t.len() {
        if t.len() == 0 {
            return None;
        }
        return Some((vstd::slice::slice_to_vec(t), 1000));
    }
    let coding_raw = vstd::slice::slice_subrange(t, 0, semi);
    let coding = crate::bytes::trim_exec(coding_raw);
    proof {
        crate::bytes::lemma_trim_head(p@);
        assert(coding_raw@.len() > 0 ==> coding_raw@[0] == t@[0]);
        assert(coding_raw@.len() > 0 ==> !crate::bytes::is_ows(coding_raw@[0]));
        assert(crate::bytes::trim_start(coding_raw@) == coding_raw@);
        assert(trim(coding_raw@) == trim_end(coding_raw@));
    }
    let param_raw = vstd::slice::slice_subrange(t, semi + 1, t.len());
    let param = trim_exec(param_raw);
    if coding.len() == 0 {
        return None;
    }
    if param.len() >= 2 && *vstd::slice::slice_index_get(param, 0) == 113
        && *vstd::slice::slice_index_get(param, 1) == 61 {
        let qv = vstd::slice::slice_subrange(param, 2, param.len());
        proof {
            assert(qv@ == param@.skip(2));
        }
        match parse_qvalue_exec(qv) {
            Some(m) => Some((vstd::slice::slice_to_vec(coding), m)),
            None => None,
        }
    } else {
        None
    }
}

pub open spec fn gzip_token() -> Seq<u8> {
    seq![103u8, 122u8, 105u8, 112u8]
}

pub open spec fn identity_token() -> Seq<u8> {
    seq![105u8, 100u8, 101u8, 110u8, 116u8, 105u8, 116u8, 121u8]
}

/// The q-values recorded while scanning a header: gzip, identity, `*`.
/// A later occurrence of the same coding overrides an earlier one.
pub open spec fn ae_update(
    acc: (Option<u16>, Option<u16>, Option<u16>),
    coding: Seq<u8>,
    q: u16,
) -> (Option<u16>, Option<u16>, Option<u16>) {
    if eq_ignore_case(coding, gzip_token()) {
        (Option::Some(q), acc.1, acc.2)
    } else if eq_ignore_case(coding, identity_token()) {
        (acc.0, Option::Some(q), acc.2)
    } else if coding.len() == 1 && coding[0] == 42 {
        (acc.0, acc.1, Option::Some(q))
    } else {
        acc
    }
}

/// Folds the parsed elements left to right; any malformed element makes the
/// whole header unparseable.
pub open spec fn spec_scan_ae_from(
    acc: (Option<u16>, Option<u16>, Option<u16>),
    parts: Seq<Seq<u8>>,
) -> Option<(Option<u16>, Option<u16>, Option<u16>)>
    decreases parts.len(),
{
    if parts.len() == 0 {
        Option::Some(acc)
    } else {
        match spec_parse_ae_element(parts[0]) {
            Option::None => Option::None,
            Option::Some(cq) => spec_scan_ae_from(ae_update(acc, cq.0, cq.1), parts.skip(1)),
        }
    }
}

fn scan_ae_exec(acc: (Option<u16>, Option<u16>, Option<u16>), s: &[u8]) -> (r: Option<
    (Option<u16>, Option<u16>, Option<u16>),
>)
    ensures
        r == spec_scan_ae_from(acc, split_commas(s@)),
    decreases s@.len(),
{
    let k = find_byte_exec(s, 44);
    proof {
        lemma_find_byte(s@, 44);
        lemma_split_commas_chunk(s@, k as int);
        lemma_split_commas_len(s@);
    }
    let first = vstd::slice::slice_subrange(s, 0, k);
    let ghost parts = split_commas(s@);
    proof {
        if k as int == s@.len() {
            assert(s@.subrange(0, k as int) =~= s@);
        }
        assert(parts[0] == first@);
    }
    let cq = match parse_ae_element_exec(first) {
        None => {
            proof {
                assert(spec_parse_ae_element(parts[0]) is None);
            }
            return None;
        },
        Some(cq) => cq,
    };
    let acc2 = ae_update_exec(acc, &cq.0, cq.1);
    if k == s.len() {
        proof {
            assert(parts =~~= seq![s@]);
            assert(parts.skip(1) =~~= Seq::<Seq<u8>>::empty());
        }
        Some(acc2)
    } else {
        let rest = vstd::slice::slice_subrange(s, k + 1, s.len());
        proof {
            assert(rest@ == s@.skip(k as int + 1));
            assert(parts =~~= seq![s@.subrange(0, k as int)] + split_commas(rest@));
            assert(parts.skip(1) =~~= split_commas(rest@));
        }
        scan_ae_exec(acc2, rest)
    }
}

fn ae_update_exec(acc: (Option<u16>, Option<u16>, Option<u16>), coding: &Vec<u8>, q: u16) -> (r: (
    Option<u16>,
    Option<u16>,
    Option<u16>,
))
    ensures
        r == ae_update(acc, coding@, q),
{
    let mut gz: Vec<u8> = Vec::new();
    gz.push(103);
    gz.push(122);
    gz.push(105);
    gz.push(112);
    proof {
        assert(gz@ =~= gzip_token());
    }
    let mut idt: Vec<u8> = Vec::new();
    idt.push(105);
    idt.push(100);
    idt.push(101);
    idt.push(110);
    idt.push(116);
    idt.push(105);
    idt.push(116);
    idt.push(121);
    proof {
        assert(idt@ =~= identity_token());
    }
    if eq_ignore_case_exec(coding.as_slice(), gz.as_slice()) {
        (Some(q), acc.1, acc.2)
    } else if eq_ignore_case_exec(coding.as_slice(), idt.as_slice()) {
        (acc.0, Some(q), acc.2)
    } else if coding.len() == 1 && coding[0] == 42 {
        (acc.0, acc.1, Some(q))
    } else {
        acc
    }
}

/// The decision rule on recorded q-values: gzip's effective weight falls
/// back to `*` and then to 0; identity's falls back to `*` and then to 1.
/// Gzip is preferred when its weight is positive and at least identity's.
pub open spec fn spec_decide_gzip(
    gzip_q: Option<u16>,
    identity_q: Option<u16>,
    star_q: Option<u16>,
) -> bool {
    let eg: u16 = match gzip_q {
        Option::Some(q) => q,
        Option::None => match star_q {
            Option::Some(q) => q,
            Option::None => 0,
        },
    };
    let ei: u16 = match identity_q {
        Option::Some(q) => q,
        Option::None => match star_q {
            Option::Some(q) => q,
            Option::None => 1000,
        },
    };
    eg > 0 && eg >= ei
}

/// What `should_gzip` returns for a given `Accept-Encoding` value.
pub open spec fn spec_should_gzip(hdr: Option<Seq<u8>>) -> bool {
    match hdr {
        Option::None => false,
        Option::Some(s) => match spec_scan_ae_from(
            (Option::None, Option::None, Option::None),
            split_commas(s),
        ) {
            Option::None => false,
            Option::Some(acc) => spec_decide_gzip(acc.0, acc.1, acc.2),
        },
    }
}

/// Decides from the request's `Accept-Encoding` value whether a gzipped
/// representation should be served rather than the identity one.
pub fn should_gzip(accept_encoding: Option<&[u8]>) -> (r: bool)
    ensures
        r == spec_should_gzip(view_opt_bytes(accept_encoding)),
{
    let s = match accept_encoding {
        None => {
            return false;
        },
        Some(s) => s,
    };
    match scan_ae_exec((None, None, None), s) {
        None => false,
        Some(acc) => {
            let eg: u16 = match acc.0 {
                Some(q) => q,
                None => match acc.2 {
                    Some(q) => q,
                    None => 0,
                },
            };
            let ei: u16 = match acc.1 {
                Some(q) => q,
                None => match acc.2 {
                    Some(q) => q,
                    None => 1000,
                },
            };
            eg > 0 && eg >= ei
        },
    }
}

/// Raising gzip's recorded q-value, all else equal, can only turn the
/// decision on, never off.
pub proof fn lemma_should_gzip_monotone(
    g1: u16,
    g2: u16,
    identity_q: Option<u16>,
    star_q: Option<u16>,
)
    requires
        g1 <= g2,
    ensures
        spec_decide_gzip(Option::Some(g1), identity_q, star_q) ==> spec_decide_gzip(
            Option::Some(g2),
            identity_q,
            star_q,
        ),
{
}

} // verus!
