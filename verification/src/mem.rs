//! An entity held in memory: the simplest [`Entity`] implementation, and
//! the one the test suite serves from.

use vstd::prelude::*;

use crate::serving::{Entity, EntityView};

verus! {

broadcast use crate::bytes::lemma_vec_u8_deep_view;

/// An in-memory entity: its content, optional validators, and the
/// representation headers to attach to responses that carry it.
pub struct MemEntity {
    pub bytes: Vec<u8>,
    pub etag: Option<Vec<u8>>,
    pub last_modified: Option<u64>,
    pub extra_headers: Vec<(Vec<u8>, Vec<u8>)>,
}

impl Entity for MemEntity {
    open spec fn model(&self) -> EntityView {
        EntityView {
            bytes: self.bytes@,
            etag: self.etag.deep_view(),
            last_modified: self.last_modified,
            extra_headers: self.extra_headers.deep_view(),
        }
    }

    fn len(&self) -> (r: u64)
        ensures
            r == self.model().bytes.len(),
    {
        self.bytes.len() as u64
    }

    fn get_range(&self, start: u64, end: u64) -> (r: Vec<u8>)
        ensures
            r@ == self.model().bytes.subrange(start as int, end as int),
    {
        let total: usize = self.bytes.len();
        proof {
            assert(start <= total && end <= total);
        }
        let s = vstd::slice::slice_subrange(
            self.bytes.as_slice(),
            start as usize,
            end as usize,
        );
        vstd::slice::slice_to_vec(s)
    }

    fn etag(&self) -> (r: Option<Vec<u8>>)
        ensures
            r.deep_view() == self.model().etag,
    {
        match &self.etag {
            Some(t) => {
                let v = vstd::slice::slice_to_vec(t.as_slice());
                proof {
                    assert(v.deep_view() =~= t.deep_view());
                }
                Some(v)
            },
            None => None,
        }
    }

    fn last_modified(&self) -> (r: Option<u64>)
        ensures
            r == self.model().last_modified,
    {
        self.last_modified
    }

    #[verifier::loop_isolation(false)]
    fn add_headers(&self, out: &mut Vec<(Vec<u8>, Vec<u8>)>)
        ensures
            final(out).deep_view() == old(out).deep_view() + self.model().extra_headers,
    {
        let ghost extra = self.model().extra_headers;
        let n = self.extra_headers.len();
        let mut i: usize = 0;
        proof {
            assert(out.deep_view() =~~= old(out).deep_view() + extra.subrange(0, 0));
        }
        while i < n
            invariant
                0 <= i <= n,
                out.deep_view() == old(out).deep_view() + extra.subrange(0, i as int),
            decreases n - i,
        {
            let pair = &self.extra_headers[i];
            let k = vstd::slice::slice_to_vec(pair.0.as_slice());
            let v = vstd::slice::slice_to_vec(pair.1.as_slice());
            proof {
                assert(extra[i as int] == (pair.0.deep_view(), pair.1.deep_view()));
                assert(extra[i as int] == (k@, v@));
                assert(extra.subrange(0, i as int + 1) =~= extra.subrange(0, i as int)
                    + seq![extra[i as int]]);
            }
            crate::serving::push_header(out, k, v);
            i = i + 1;
        }
        proof {
            assert(extra.subrange(0, n as int) =~= extra);
        }
    }
}

} // verus!
