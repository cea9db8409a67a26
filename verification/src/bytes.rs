//! Small verified helpers on byte strings: comparison, search, trimming,
//! and ASCII case folding. Header grammars elsewhere in the crate are
//! defined over these.

use vstd::prelude::*;

verus! {

/// The deep view of a byte vector is its view.
pub broadcast proof fn lemma_vec_u8_deep_view(v: Vec<u8>)
    ensures
        #[trigger] v.deep_view() == v@,
{
    assert(v.deep_view() =~= v@);
}

/// Space or horizontal tab: the optional whitespace accepted around
/// list elements in header values.
pub open spec fn is_ows(b: u8) -> bool {
    b == 32 || b == 9
}

/// Index of the first occurrence of `b` in `s`, or `s.len()` if absent.
pub open spec fn find_byte(s: Seq<u8>, b: u8) -> int
    decreases s.len(),
{
    if s.len() == 0 {
        0
    } else if s[0] == b {
        0
    } else {
        1 + find_byte(s.skip(1), b)
    }
}

pub proof fn lemma_find_byte(s: Seq<u8>, b: u8)
    ensures
        0 <= find_byte(s, b) <= s.len(),
        find_byte(s, b) < s.len() ==> s[find_byte(s, b)] == b,
        forall|j: int| 0 <= j < find_byte(s, b) ==> s[j] != b,
    decreases s.len(),
{
    if s.len() > 0 && s[0] != b {
        lemma_find_byte(s.skip(1), b);
        assert forall|j: int| 0 <= j < find_byte(s, b) implies s[j] != b by {
            if j > 0 {
                assert(s.skip(1)[j - 1] == s[j]);
            }
        }
    }
}

/// The characterization above pins `find_byte` down completely.
pub proof fn lemma_find_byte_unique(s: Seq<u8>, b: u8, i: int)
    requires
        0 <= i <= s.len(),
        i < s.len() ==> s[i] == b,
        forall|j: int| 0 <= j < i ==> s[j] != b,
    ensures
        find_byte(s, b) == i,
    decreases s.len(),
{
    if s.len() > 0 && s[0] != b {
        assert(s[0] != b);
        assert(i > 0 || i == s.len());
        if i == 0 {
            assert(s.len() > 0 && s[i] == b);
            assert(false);
        }
        lemma_find_byte_unique(s.skip(1), b, i - 1);
    }
}

/// Scans `s` for the first occurrence of `b`, returning `s.len()` if absent.
pub fn find_byte_exec(s: &[u8], b: u8) -> (r: usize)
    ensures
        r == find_byte(s@, b),
{
    let n = s.len();
    let mut i: usize = 0;
    while i < n
        invariant
            0 <= i <= n,
            n == s@.len(),
            forall|j: int| 0 <= j < i ==> s@[j] != b,
        decreases n - i,
    {
        if *vstd::slice::slice_index_get(s, i) == b {
            proof {
                lemma_find_byte_unique(s@, b, i as int);
            }
            return i;
        }
        i = i + 1;
    }
    proof {
        lemma_find_byte_unique(s@, b, s@.len() as int);
    }
    n
}

/// `s` without its leading optional whitespace.
pub open spec fn trim_start(s: Seq<u8>) -> Seq<u8>
    decreases s.len(),
{
    if s.len() > 0 && is_ows(s[0]) {
        trim_start(s.skip(1))
    } else {
        s
    }
}

/// `s` without its trailing optional whitespace.
pub open spec fn trim_end(s: Seq<u8>) -> Seq<u8>
    decreases s.len(),
{
    if s.len() > 0 && is_ows(s.last()) {
        trim_end(s.drop_last())
    } else {
        s
    }
}

/// `s` without leading and trailing optional whitespace.
pub open spec fn trim(s: Seq<u8>) -> Seq<u8> {
    trim_end(trim_start(s))
}

pub proof fn lemma_trim_start_len(s: Seq<u8>)
    ensures
        trim_start(s).len() <= s.len(),
    decreases s.len(),
{
    if s.len() > 0 && is_ows(s[0]) {
        lemma_trim_start_len(s.skip(1));
    }
}

pub proof fn lemma_trim_start_head(s: Seq<u8>)
    ensures
        trim_start(s).len() > 0 ==> !is_ows(trim_start(s)[0]),
    decreases s.len(),
{
    if s.len() > 0 && is_ows(s[0]) {
        lemma_trim_start_head(s.skip(1));
    }
}

/// `trim_end` keeps a prefix of its argument.
pub proof fn lemma_trim_end_prefix(s: Seq<u8>)
    ensures
        trim_end(s).len() <= s.len(),
        forall|i: int| 0 <= i < trim_end(s).len() ==> trim_end(s)[i] == s[i],
    decreases s.len(),
{
    if s.len() > 0 && is_ows(s.last()) {
        lemma_trim_end_prefix(s.drop_last());
        assert forall|i: int| 0 <= i < trim_end(s).len() implies trim_end(s)[i] == s[i] by {
            assert(trim_end(s)[i] == s.drop_last()[i]);
            assert(s.drop_last()[i] == s[i]);
        }
    }
}

/// A trimmed byte string starts with no whitespace.
pub proof fn lemma_trim_head(s: Seq<u8>)
    ensures
        trim(s).len() > 0 ==> !is_ows(trim(s)[0]),
{
    lemma_trim_start_head(s);
    lemma_trim_end_prefix(trim_start(s));
}

/// A sequence with no leading or trailing whitespace trims to itself.
pub proof fn lemma_trim_noop(s: Seq<u8>)
    requires
        s.len() > 0 ==> !is_ows(s[0]) && !is_ows(s.last()),
    ensures
        trim(s) == s,
{
}

/// Returns the subslice of `s` with outer whitespace removed.
pub fn trim_exec<'a>(s: &'a [u8]) -> (r: &'a [u8])
    ensures
        r@ == trim(s@),
{
    let mut lo: usize = 0;
    let n = s.len();
    proof {
        assert(s@.skip(0) =~= s@);
    }
    while lo < n
        invariant_except_break
            0 <= lo <= n,
            n == s@.len(),
            trim_start(s@) == trim_start(s@.skip(lo as int)),
        ensures
            0 <= lo <= n,
            n == s@.len(),
            trim_start(s@) == s@.skip(lo as int),
        decreases n - lo,
    {
        let c = *vstd::slice::slice_index_get(s, lo);
        if !(c == 32 || c == 9) {
            proof {
                assert(trim_start(s@.skip(lo as int)) == s@.skip(lo as int));
            }
            break ;
        }
        proof {
            assert(s@.skip(lo as int).skip(1) =~= s@.skip(lo as int + 1));
        }
        lo = lo + 1;
    }
    let mut hi: usize = n;
    while hi > lo
        invariant_except_break
            lo <= hi <= n,
            n == s@.len(),
            trim_start(s@) == s@.skip(lo as int),
            trim_end(s@.skip(lo as int)) == trim_end(s@.subrange(lo as int, hi as int)),
        ensures
            lo <= hi <= n,
            n == s@.len(),
            trim_start(s@) == s@.skip(lo as int),
            trim_end(s@.skip(lo as int)) == s@.subrange(lo as int, hi as int),
        decreases hi,
    {
        let c = *vstd::slice::slice_index_get(s, hi - 1);
        if !(c == 32 || c == 9) {
            proof {
                assert(trim_end(s@.subrange(lo as int, hi as int)) == s@.subrange(
                    lo as int,
                    hi as int,
                ));
            }
            break ;
        }
        proof {
            assert(s@.subrange(lo as int, hi as int).drop_last() =~= s@.subrange(
                lo as int,
                hi as int - 1,
            ));
        }
        hi = hi - 1;
    }
    vstd::slice::slice_subrange(s, lo, hi)
}

/// Returns the subslice of `s` with leading whitespace removed.
pub fn trim_start_exec<'a>(s: &'a [u8]) -> (r: &'a [u8])
    ensures
        r@ == trim_start(s@),
{
    let mut lo: usize = 0;
    let n = s.len();
    proof {
        assert(s@.skip(0) =~= s@);
    }
    while lo < n
        invariant_except_break
            0 <= lo <= n,
            n == s@.len(),
            trim_start(s@) == trim_start(s@.skip(lo as int)),
        ensures
            0 <= lo <= n,
            n == s@.len(),
            trim_start(s@) == s@.skip(lo as int),
        decreases n - lo,
    {
        let c = *vstd::slice::slice_index_get(s, lo);
        if !(c == 32 || c == 9) {
            proof {
                assert(trim_start(s@.skip(lo as int)) == s@.skip(lo as int));
            }
            break ;
        }
        proof {
            assert(s@.skip(lo as int).skip(1) =~= s@.skip(lo as int + 1));
        }
        lo = lo + 1;
    }
    vstd::slice::slice_subrange(s, lo, n)
}

/// True iff the two byte strings hold the same bytes.
pub fn bytes_eq(a: &[u8], b: &[u8]) -> (r: bool)
    ensures
        r <==> a@ == b@,
{
    if a.len() != b.len() {
        proof {
            assert(a@.len() != b@.len());
        }
        return false;
    }
    let n = a.len();
    let mut i: usize = 0;
    while i < n
        invariant
            0 <= i <= n,
            n == a@.len() && n == b@.len(),
            forall|j: int| 0 <= j < i ==> a@[j] == b@[j],
        decreases n - i,
    {
        if *vstd::slice::slice_index_get(a, i) != *vstd::slice::slice_index_get(b, i) {
            proof {
                assert(a@[i as int] != b@[i as int]);
            }
            return false;
        }
        i = i + 1;
    }
    proof {
        assert(a@ =~= b@);
    }
    true
}

/// Appends all of `s` to `out`.
#[verifier::loop_isolation(false)]
pub fn push_bytes(out: &mut Vec<u8>, s: &[u8])
    ensures
        final(out)@ == old(out)@ + s@,
{
    let n = s.len();
    let mut i: usize = 0;
    proof {
        assert(out@ =~= old(out)@ + s@.subrange(0, 0));
    }
    while i < n
        invariant
            0 <= i <= n,
            out@ == old(out)@ + s@.subrange(0, i as int),
        decreases n - i,
    {
        out.push(*vstd::slice::slice_index_get(s, i));
        proof {
            assert(out@ =~= old(out)@ + s@.subrange(0, i as int + 1));
        }
        i = i + 1;
    }
    proof {
        assert(s@.subrange(0, n as int) =~= s@);
    }
}

/// ASCII lower-casing of one byte.
pub open spec fn lower_byte(b: u8) -> u8 {
    if 65 <= b <= 90 {
        (b + 32) as u8
    } else {
        b
    }
}

/// Case-insensitive ASCII equality of byte strings.
pub open spec fn eq_ignore_case(a: Seq<u8>, b: Seq<u8>) -> bool {
    a.map_values(|x: u8| lower_byte(x)) == b.map_values(|x: u8| lower_byte(x))
}

/// Compares two byte strings ignoring ASCII case.
pub fn eq_ignore_case_exec(a: &[u8], b: &[u8]) -> (r: bool)
    ensures
        r <==> eq_ignore_case(a@, b@),
{
    let ghost la = a@.map_values(|x: u8| lower_byte(x));
    let ghost lb = b@.map_values(|x: u8| lower_byte(x));
    if a.len() != b.len() {
        proof {
            assert(la.len() != lb.len());
        }
        return false;
    }
    let n = a.len();
    let mut i: usize = 0;
    while i < n
        invariant
            0 <= i <= n,
            n == a@.len() && n == b@.len(),
            la == a@.map_values(|x: u8| lower_byte(x)),
            lb == b@.map_values(|x: u8| lower_byte(x)),
            forall|j: int| 0 <= j < i ==> la[j] == lb[j],
        decreases n - i,
    {
        let mut ca = *vstd::slice::slice_index_get(a, i);
        let mut cb = *vstd::slice::slice_index_get(b, i);
        if 65 <= ca && ca <= 90 {
            ca = ca + 32;
        }
        if 65 <= cb && cb <= 90 {
            cb = cb + 32;
        }
        proof {
            assert(la[i as int] == lower_byte(a@[i as int]));
            assert(lb[i as int] == lower_byte(b@[i as int]));
        }
        if ca != cb {
            proof {
                assert(la[i as int] != lb[i as int]);
            }
            return false;
        }
        i = i + 1;
    }
    proof {
        assert(la =~= lb);
    }
    true
}

} // verus!
