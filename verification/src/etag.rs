//! Entity tags: wire-form comparison rules and the `If-Match` /
//! `If-None-Match` header grammars.
//!
//! A tag in wire form is `"opaque"` (strong) or `W/"opaque"` (weak); the
//! opaque part may hold any byte except a double quote. Strong comparison
//! requires both sides strong and the opaque parts byte-identical; weak
//! comparison ignores the `W/` prefix.

use vstd::prelude::*;

use crate::bytes::{bytes_eq, find_byte, find_byte_exec, lemma_find_byte, trim, trim_end,
    trim_exec, trim_start, trim_start_exec};

verus! {

broadcast use crate::bytes::lemma_vec_u8_deep_view;

/// True iff the tag carries the weakness prefix `W/`.
pub open spec fn is_weak_tag(t: Seq<u8>) -> bool {
    t.len() >= 2 && t[0] == 87 && t[1] == 47
}

/// The tag without its weakness prefix (quotes included).
pub open spec fn opaque_of(t: Seq<u8>) -> Seq<u8> {
    if is_weak_tag(t) {
        t.skip(2)
    } else {
        t
    }
}

/// Strong comparison: both tags strong, opaque parts byte-identical.
pub open spec fn spec_strong_eq(a: Seq<u8>, b: Seq<u8>) -> bool {
    !is_weak_tag(a) && !is_weak_tag(b) && opaque_of(a) == opaque_of(b)
}

/// Weak comparison: opaque parts byte-identical, prefixes ignored.
pub open spec fn spec_weak_eq(a: Seq<u8>, b: Seq<u8>) -> bool {
    opaque_of(a) == opaque_of(b)
}

/// Strong entity-tag comparison on wire forms.
pub fn strong_eq(a: &[u8], b: &[u8]) -> (r: bool)
    ensures
        r == spec_strong_eq(a@, b@),
{
    let a_weak = a.len() >= 2 && *vstd::slice::slice_index_get(a, 0) == 87
        && *vstd::slice::slice_index_get(a, 1) == 47;
    let b_weak = b.len() >= 2 && *vstd::slice::slice_index_get(b, 0) == 87
        && *vstd::slice::slice_index_get(b, 1) == 47;
    !a_weak && !b_weak && bytes_eq(a, b)
}

/// Weak entity-tag comparison on wire forms.
pub fn weak_eq(a: &[u8], b: &[u8]) -> (r: bool)
    ensures
        r == spec_weak_eq(a@, b@),
{
    let a_weak = a.len() >= 2 && *vstd::slice::slice_index_get(a, 0) == 87
        && *vstd::slice::slice_index_get(a, 1) == 47;
    let b_weak = b.len() >= 2 && *vstd::slice::slice_index_get(b, 0) == 87
        && *vstd::slice::slice_index_get(b, 1) == 47;
    let a2 = if a_weak {
        vstd::slice::slice_subrange(a, 2, a.len())
    } else {
        a
    };
    let b2 = if b_weak {
        vstd::slice::slice_subrange(b, 2, b.len())
    } else {
        b
    };
    bytes_eq(a2, b2)
}

/// Length of the entity tag standing at the head of `t` (through its closing
/// quote), or nothing when no well-formed tag starts there.
pub open spec fn tag_end(t: Seq<u8>) -> Option<int> {
    if t.len() >= 1 && t[0] == 34 {
        let q = find_byte(t.skip(1), 34);
        if q >= t.len() - 1 {
            Option::None
        } else {
            Option::Some(q + 2)
        }
    } else if t.len() >= 3 && t[0] == 87 && t[1] == 47 && t[2] == 34 {
        let q = find_byte(t.skip(3), 34);
        if q >= t.len() - 3 {
            Option::None
        } else {
            Option::Some(q + 4)
        }
    } else {
        Option::None
    }
}

pub proof fn lemma_tag_end(t: Seq<u8>)
    ensures
        tag_end(t) is Some ==> 2 <= tag_end(t)->Some_0 <= t.len(),
{
    if t.len() >= 1 && t[0] == 34 {
        lemma_find_byte(t.skip(1), 34);
    } else if t.len() >= 3 && t[0] == 87 && t[1] == 47 && t[2] == 34 {
        lemma_find_byte(t.skip(3), 34);
    }
}

fn tag_end_exec(t: &[u8]) -> (r: Option<usize>)
    ensures
        match r {
            Some(e) => tag_end(t@) == Option::Some(e as int),
            None => tag_end(t@) is None,
        },
{
    if t.len() >= 1 && *vstd::slice::slice_index_get(t, 0) == 34 {
        let rest = vstd::slice::slice_subrange(t, 1, t.len());
        proof {
            assert(rest@ == t@.skip(1));
            lemma_find_byte(rest@, 34);
        }
        let q = find_byte_exec(rest, 34);
        if q >= rest.len() {
            None
        } else {
            Some(q + 2)
        }
    } else if t.len() >= 3 && *vstd::slice::slice_index_get(t, 0) == 87
        && *vstd::slice::slice_index_get(t, 1) == 47 && *vstd::slice::slice_index_get(t, 2)
        == 34 {
        let rest = vstd::slice::slice_subrange(t, 3, t.len());
        proof {
            assert(rest@ == t@.skip(3));
            lemma_find_byte(rest@, 34);
        }
        let q = find_byte_exec(rest, 34);
        if q >= rest.len() {
            None
        } else {
            Some(q + 4)
        }
    } else {
        None
    }
}

/// Parse of a comma-separated entity-tag list, each tag kept in wire form.
/// Fails on an empty list, an unterminated tag, or stray bytes.
pub open spec fn spec_parse_tag_list(s: Seq<u8>) -> Option<Seq<Seq<u8>>>
    decreases s.len(),
    via spec_parse_tag_list_decreases
{
    let t = trim_start(s);
    match tag_end(t) {
        Option::None => Option::None,
        Option::Some(e) => {
            let tag = t.subrange(0, e);
            let rest = trim_start(t.skip(e));
            if rest.len() == 0 {
                Option::Some(seq![tag])
            } else if rest[0] == 44 {
                match spec_parse_tag_list(rest.skip(1)) {
                    Option::Some(l) => Option::Some(seq![tag] + l),
                    Option::None => Option::None,
                }
            } else {
                Option::None
            }
        },
    }
}

#[via_fn]
proof fn spec_parse_tag_list_decreases(s: Seq<u8>) {
    crate::bytes::lemma_trim_start_len(s);
    let t = trim_start(s);
    lemma_tag_end(t);
    match tag_end(t) {
        Option::None => {},
        Option::Some(e) => {
            crate::bytes::lemma_trim_start_len(t.skip(e));
        },
    }
}

fn parse_tag_list_exec(s: &[u8]) -> (r: Option<Vec<Vec<u8>>>)
    ensures
        r is Some <==> spec_parse_tag_list(s@) is Some,
        r is Some ==> r->Some_0.deep_view() == spec_parse_tag_list(s@)->Some_0,
    decreases s@.len(),
{
    let t = trim_start_exec(s);
    let e = match tag_end_exec(t) {
        None => {
            return None;
        },
        Some(e) => e,
    };
    proof {
        lemma_tag_end(t@);
        crate::bytes::lemma_trim_start_len(s@);
    }
    let tag = vstd::slice::slice_to_vec(vstd::slice::slice_subrange(t, 0, e));
    let rest = trim_start_exec(vstd::slice::slice_subrange(t, e, t.len()));
    let ghost spec_tag = trim_start(s@).subrange(0, e as int);
    proof {
        assert(rest@ == trim_start(trim_start(s@).skip(e as int)));
        assert(tag@ == spec_tag);
    }
    if rest.len() == 0 {
        let mut out: Vec<Vec<u8>> = Vec::new();
        out.push(tag);
        proof {
            assert(out.deep_view() =~~= seq![spec_tag]);
        }
        Some(out)
    } else if *vstd::slice::slice_index_get(rest, 0) == 44 {
        let tail = vstd::slice::slice_subrange(rest, 1, rest.len());
        proof {
            assert(tail@ == rest@.skip(1));
            crate::bytes::lemma_trim_start_len(trim_start(s@).skip(e as int));
        }
        match parse_tag_list_exec(tail) {
            Some(mut v) => {
                v.insert(0, tag);
                proof {
                    let l = spec_parse_tag_list(tail@)->Some_0;
                    assert(v.deep_view() =~~= seq![spec_tag] + l) by {
                        assert(forall|i: int|
                            1 <= i < v@.len() ==> v@[i] == #[trigger] (seq![tag] + v@.skip(1))[i]);
                    }
                }
                Some(v)
            },
            None => None,
        }
    } else {
        None
    }
}

/// A value that parses as a tag list is not the lone-asterisk form:
/// the two cases of `If-None-Match` never overlap.
pub proof fn lemma_tag_list_not_star(s: Seq<u8>)
    requires
        spec_parse_tag_list(s) is Some,
    ensures
        !(trim(s).len() == 1 && trim(s)[0] == 42),
{
    if trim(s).len() == 1 && trim(s)[0] == 42 {
        let t0 = trim_start(s);
        crate::bytes::lemma_trim_end_prefix(t0);
        assert(trim_end(t0).len() == 1);
        assert(t0[0] == trim_end(t0)[0]);
        assert(t0[0] == 42);
        assert(tag_end(t0) is None);
        assert(false);
    }
}

/// Outcome of `If-Match` evaluation: absent or `*` accepts; a tag list
/// accepts iff the entity has a tag strongly equal to a listed one; a
/// malformed list is an error.
pub open spec fn spec_any_match(etag: Option<Seq<u8>>, if_match: Option<Seq<u8>>) -> Result<
    bool,
    (),
> {
    match if_match {
        Option::None => Result::Ok(true),
        Option::Some(s) => {
            let t = trim(s);
            if t.len() == 1 && t[0] == 42 {
                Result::Ok(true)
            } else {
                match spec_parse_tag_list(s) {
                    Option::None => Result::Err(()),
                    Option::Some(tags) => Result::Ok(
                        etag is Some && exists|i: int|
                            0 <= i < tags.len() && spec_strong_eq(#[trigger] tags[i], etag->Some_0),
                    ),
                }
            }
        },
    }
}

/// Outcome of `If-None-Match` evaluation: absent passes; `*` fails; a tag
/// list fails iff the entity has a tag weakly equal to a listed one; a
/// malformed list is an error.
pub open spec fn spec_none_match(etag: Option<Seq<u8>>, if_none_match: Option<Seq<u8>>) -> Result<
    bool,
    (),
> {
    match if_none_match {
        Option::None => Result::Ok(true),
        Option::Some(s) => {
            let t = trim(s);
            if t.len() == 1 && t[0] == 42 {
                Result::Ok(false)
            } else {
                match spec_parse_tag_list(s) {
                    Option::None => Result::Err(()),
                    Option::Some(tags) => Result::Ok(
                        !(etag is Some && exists|i: int|
                            0 <= i < tags.len() && spec_weak_eq(#[trigger] tags[i], etag->Some_0)),
                    ),
                }
            }
        },
    }
}

/// Evaluates `If-Match` against the entity's tag.
#[verifier::loop_isolation(false)]
pub fn any_match(etag: &Option<Vec<u8>>, if_match: Option<&[u8]>) -> (r: Result<bool, ()>)
    ensures
        r == spec_any_match(etag.deep_view(), crate::range::view_opt_bytes(if_match)),
{
    let s = match if_match {
        None => {
            return Ok(true);
        },
        Some(s) => s,
    };
    let t = trim_exec(s);
    if t.len() == 1 && *vstd::slice::slice_index_get(t, 0) == 42 {
        return Ok(true);
    }
    let tags = match parse_tag_list_exec(s) {
        None => {
            return Err(());
        },
        Some(tags) => tags,
    };
    let et = match etag {
        None => {
            return Ok(false);
        },
        Some(et) => et,
    };
    let ghost stags = spec_parse_tag_list(s@)->Some_0;
    let n = tags.len();
    let mut i: usize = 0;
    while i < n
        invariant
            0 <= i <= n,
            n == tags@.len(),
            stags == tags.deep_view(),
            et@ == etag.deep_view()->Some_0,
            forall|j: int| 0 <= j < i ==> !spec_strong_eq(#[trigger] stags[j], et@),
        decreases n - i,
    {
        proof {
            assert(stags[i as int] =~= tags@[i as int]@);
        }
        if strong_eq(tags[i].as_slice(), et.as_slice()) {
            proof {
                assert(spec_strong_eq(stags[i as int], et@));
            }
            return Ok(true);
        }
        i = i + 1;
    }
    Ok(false)
}

/// Evaluates `If-None-Match` against the entity's tag.
#[verifier::loop_isolation(false)]
pub fn none_match(etag: &Option<Vec<u8>>, if_none_match: Option<&[u8]>) -> (r: Result<bool, ()>)
    ensures
        r == spec_none_match(etag.deep_view(), crate::range::view_opt_bytes(if_none_match)),
{
    let s = match if_none_match {
        None => {
            return Ok(true);
        },
        Some(s) => s,
    };
    let t = trim_exec(s);
    if t.len() == 1 && *vstd::slice::slice_index_get(t, 0) == 42 {
        return Ok(false);
    }
    let tags = match parse_tag_list_exec(s) {
        None => {
            return Err(());
        },
        Some(tags) => tags,
    };
    let et = match etag {
        None => {
            return Ok(true);
        },
        Some(et) => et,
    };
    let ghost stags = spec_parse_tag_list(s@)->Some_0;
    let n = tags.len();
    let mut i: usize = 0;
    while i < n
        invariant
            0 <= i <= n,
            n == tags@.len(),
            stags == tags.deep_view(),
            et@ == etag.deep_view()->Some_0,
            forall|j: int| 0 <= j < i ==> !spec_weak_eq(#[trigger] stags[j], et@),
        decreases n - i,
    {
        proof {
            assert(stags[i as int] =~= tags@[i as int]@);
        }
        if weak_eq(tags[i].as_slice(), et.as_slice()) {
            proof {
                assert(spec_weak_eq(stags[i as int], et@));
            }
            return Ok(false);
        }
        i = i + 1;
    }
    Ok(true)
}

} // verus!
