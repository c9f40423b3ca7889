//! URLs of the form `scheme://path`: the scheme picks a provider, the path
//! is handed to it opaquely.

use vstd::prelude::*;
use crate::util::bytes_slice;

verus! {

/// Whether `://` begins at position `j` of `s`.
pub open spec fn sep_at(s: Seq<u8>, j: int) -> bool {
    j + 3 <= s.len() && s[j] == 58 && s[j + 1] == 47 && s[j + 2] == 47
}

/// Index where the first `://` begins, or `s.len()` when none occurs.
pub open spec fn find_sep(s: Seq<u8>) -> int
    decreases s.len(),
{
    if s.len() < 3 {
        s.len() as int
    } else if s[0] == 58 && s[1] == 47 && s[2] == 47 {
        0
    } else {
        1 + find_sep(s.drop_first())
    }
}

pub proof fn lemma_find_sep(s: Seq<u8>, k: int)
    requires
        0 <= k <= s.len(),
        forall|j: int| 0 <= j < k ==> !sep_at(s, j),
        sep_at(s, k) || k == s.len(),
    ensures
        find_sep(s) == k || (k == s.len() && find_sep(s) >= s.len() - 2),
        sep_at(s, k) ==> find_sep(s) == k,
    decreases s.len(),
{
    if s.len() < 3 {
    } else if s[0] == 58 && s[1] == 47 && s[2] == 47 {
        assert(sep_at(s, 0));
        assert(k == 0);
    } else {
        assert(!sep_at(s, 0));
        assert(k >= 1 || !sep_at(s, k));
        if k == 0 {
            assert(k < s.len());
            assert(false);
        }
        assert forall|j: int| 0 <= j < k - 1 implies !sep_at(s.drop_first(), j) by {
            assert(!sep_at(s, j + 1));
        }
        if sep_at(s, k) {
            assert(sep_at(s.drop_first(), k - 1));
            lemma_find_sep(s.drop_first(), k - 1);
        } else {
            lemma_find_sep(s.drop_first(), k - 1);
        }
    }
}

/// The ghost shape of a URL.
pub struct UrlView {
    pub scheme: Seq<u8>,
    pub path: Seq<u8>,
}

/// How raw bytes split into a URL: at the first `://` when there is one;
/// otherwise the whole text is the scheme and the path is empty.
pub open spec fn spec_parse_url(s: Seq<u8>) -> UrlView {
    let k = find_sep(s);
    if k + 3 <= s.len() {
        UrlView { scheme: s.take(k), path: s.skip(k + 3) }
    } else {
        UrlView { scheme: s, path: Seq::empty() }
    }
}

/// A split URL: the provider's name and the text handed to it.
pub struct Url {
    pub scheme: Vec<u8>,
    pub path: Vec<u8>,
}

impl View for Url {
    type V = UrlView;

    open spec fn view(&self) -> UrlView {
        UrlView { scheme: self.scheme@, path: self.path@ }
    }
}

impl Url {
    /// Split raw bytes at the first `://`.
    pub fn parse(v: &Vec<u8>) -> (r: Url)
        ensures
            r@ == spec_parse_url(v@),
    {
        let n = v.len();
        let mut i: usize = 0;
        if n >= 3 {
            while i <= n - 3
                invariant
                    n >= 3,
                    i <= n - 2,
                    forall|j: int| 0 <= j < i ==> !sep_at(v@, j),
                decreases n - i,
            {
                if v[i] == 58 && v[i + 1] == 47 && v[i + 2] == 47 {
                    proof {
                        assert(sep_at(v@, i as int));
                        lemma_find_sep(v@, i as int);
                        assert(v@.take(i as int) =~= v@.subrange(0, i as int));
                        assert(v@.skip(i + 3) =~= v@.subrange(i + 3, n as int));
                    }
                    return Url {
                        scheme: bytes_slice(v, 0, i),
                        path: bytes_slice(v, i + 3, n),
                    };
                }
                i += 1;
            }
        }
        proof {
            assert forall|j: int| 0 <= j < v@.len() implies !sep_at(v@, j) by {
                if j >= i {
                    assert(j + 3 > v@.len());
                }
            }
            lemma_find_sep(v@, v@.len() as int);
            assert(find_sep(v@) + 3 > v@.len());
            assert(v@.subrange(0, n as int) =~= v@);
        }
        Url { scheme: bytes_slice(v, 0, n), path: Vec::new() }
    }

    /// The URL written back out: `scheme://path`.
    pub fn to_bytes(&self) -> (r: Vec<u8>)
        ensures
            r@ == self@.scheme + seq![58u8, 47u8, 47u8] + self@.path,
    {
        let mut out = bytes_slice(&self.scheme, 0, self.scheme.len());
        out.push(58);
        out.push(47);
        out.push(47);
        let n = self.path.len();
        let mut i: usize = 0;
        while i < n
            invariant
                i <= n,
                out@ =~= self@.scheme + seq![58u8, 47u8, 47u8] + self@.path.subrange(0, i as int),
            decreases n - i,
        {
            out.push(self.path[i]);
            assert(out@ =~= self@.scheme + seq![58u8, 47u8, 47u8] + self@.path.subrange(0, i + 1));
            i += 1;
        }
        proof {
            assert(out@ =~= self@.scheme + seq![58u8, 47u8, 47u8] + self@.path);
        }
        out
    }
}

} // verus!
