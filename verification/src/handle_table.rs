//! The per-provider table of open handles: a monotonically-increasing id
//! counter that wraps past the signed maximum back to 1, with a probe for a
//! free id so that live handles always stay distinct.

use vstd::prelude::*;
use vstd::set_lib::{lemma_int_range, lemma_len_subset, set_int_range};

verus! {

/// The table holds `id` now.
pub open spec fn has_id<R>(s: Seq<(usize, R)>, id: usize) -> bool {
    exists|i: int| 0 <= i < s.len() && (#[trigger] s[i]).0 == id
}

/// No two live handles share an id.
pub open spec fn distinct_ids<R>(s: Seq<(usize, R)>) -> bool {
    forall|i: int, j: int|
        0 <= i < s.len() && 0 <= j < s.len() && i != j ==> (#[trigger] s[i]).0 != (
        #[trigger] s[j]).0
}

/// Among the ids `1..=n+1` at least one is missing from a table of `n`
/// distinct entries.
proof fn lemma_free_id_exists<R>(s: Seq<(usize, R)>)
    requires
        distinct_ids(s),
        s.len() < usize::MAX,
    ensures
        exists|c: int| 1 <= c <= s.len() + 1 && !(#[trigger] has_id(s, c as usize)),
{
    let n = s.len() as int;
    if forall|c: int| 1 <= c <= n + 1 ==> #[trigger] has_id(s, c as usize) {
        let ids = Seq::new(s.len(), |i: int| s[i].0 as int);
        assert(ids.no_duplicates());
        assert forall|c: int| set_int_range(1, n + 2).contains(c) implies ids.to_set().contains(
            c,
        ) by {
            assert(has_id(s, c as usize));
            let i = choose|i: int| 0 <= i < s.len() && (#[trigger] s[i]).0 == c as usize;
            assert(0 <= c <= usize::MAX);
            assert((c as usize) as int == c);
            assert(ids[i] == c);
            assert(ids.contains(c));
        }
        assert(set_int_range(1, n + 2).subset_of(ids.to_set()));
        lemma_int_range(1, n + 2);
        ids.lemma_cardinality_of_set();
        ids.unique_seq_to_set();
        lemma_len_subset(set_int_range(1, n + 2), ids.to_set());
        assert(false);
    }
}

/// A provider's `handle -> state` mapping together with its id counter.
pub struct HandleTable<R> {
    next_id: usize,
    entries: Vec<(usize, R)>,
}

impl<R> View for HandleTable<R> {
    type V = Seq<(usize, R)>;

    closed spec fn view(&self) -> Seq<(usize, R)> {
        self.entries@
    }
}

impl<R> HandleTable<R> {
    /// The id the counter would hand out next.
    pub closed spec fn spec_next_id(&self) -> usize {
        self.next_id
    }

    /// Live handle ids are distinct and strictly positive, as is the
    /// counter.
    pub closed spec fn wf(&self) -> bool {
        &&& distinct_ids(self@)
        &&& forall|i: int| 0 <= i < self@.len() ==> (#[trigger] self@[i]).0 >= 1
        &&& self.next_id >= 1
    }

    pub fn new() -> (r: Self)
        ensures
            r@ == Seq::<(usize, R)>::empty(),
            r.spec_next_id() == 1,
            r.wf(),
    {
        HandleTable { next_id: 1, entries: Vec::new() }
    }

    pub fn len(&self) -> (r: usize)
        ensures
            r == self@.len(),
    {
        self.entries.len()
    }

    /// Whether `id` names a live handle.
    pub fn contains(&self, id: usize) -> (r: bool)
        ensures
            r == has_id(self@, id),
    {
        let n = self.entries.len();
        let mut i: usize = 0;
        while i < n
            invariant
                i <= n,
                forall|j: int| 0 <= j < i ==> (#[trigger] self@[j]).0 != id,
            decreases n - i,
        {
            if self.entries[i].0 == id {
                return true;
            }
            i += 1;
        }
        false
    }

    /// File `r` under a fresh id and hand the id back: the counter's value
    /// when that is free, else the smallest free id. The counter then moves
    /// past the id handed out, wrapping past the signed maximum back to 1,
    /// so an id never names two live handles.
    pub fn insert(&mut self, r: R) -> (id: usize)
        requires
            old(self).wf(),
            old(self)@.len() < usize::MAX,
        ensures
            final(self).wf(),
            id >= 1,
            !has_id(old(self)@, id),
            final(self)@ == old(self)@.push((id, r)),
            !has_id(old(self)@, old(self).spec_next_id()) ==> id == old(self).spec_next_id(),
            has_id(old(self)@, old(self).spec_next_id()) ==> forall|c: usize|
                1 <= c < id ==> #[trigger] has_id(old(self)@, c),
            final(self).spec_next_id() as int == if id >= isize::MAX as usize {
                1int
            } else {
                id + 1
            },
    {
        let n = self.entries.len();
        let id: usize;
        if !self.contains(self.next_id) {
            id = self.next_id;
        } else {
            let mut c: usize = 1;
            while self.contains(c)
                invariant
                    1 <= c <= n + 1,
                    n == self@.len(),
                    self.wf(),
                    forall|k: int| 1 <= k < c ==> #[trigger] has_id(self@, k as usize),
                decreases n + 1 - c,
            {
                proof {
                    lemma_free_id_exists(self@);
                    if c == n + 1 {
                        let f = choose|f: int| 1 <= f <= n + 1 && !(#[trigger] has_id(self@, f as usize));
                        assert(has_id(self@, f as usize));
                        assert(false);
                    }
                }
                c += 1;
            }
            id = c;
            proof {
                assert forall|k: usize| 1 <= k < id implies #[trigger] has_id(self@, k) by {
                    assert(has_id(self@, (k as int) as usize));
                }
            }
        }
        self.next_id = if id >= (isize::MAX as usize) {
            1
        } else {
            id + 1
        };
        let ghost pre = self@;
        self.entries.push((id, r));
        proof {
            assert forall|i: int, j: int|
                0 <= i < self@.len() && 0 <= j < self@.len() && i != j implies (
            #[trigger] self@[i]).0 != (#[trigger] self@[j]).0 by {
                if i < pre.len() && j < pre.len() {
                    assert(distinct_ids(pre));
                } else if i < pre.len() {
                    assert(pre[i].0 != id) by {
                        if pre[i].0 == id {
                            assert(has_id(pre, id));
                        }
                    }
                } else if j < pre.len() {
                    assert(pre[j].0 != id) by {
                        if pre[j].0 == id {
                            assert(has_id(pre, id));
                        }
                    }
                }
            }
        }
        id
    }

    /// The position of `id` in the table, when it is live.
    pub fn index_of(&self, id: usize) -> (r: Option<usize>)
        ensures
            match r {
                Some(i) => i < self@.len() && self@[i as int].0 == id,
                None => !has_id(self@, id),
            },
    {
        let n = self.entries.len();
        let mut i: usize = 0;
        while i < n
            invariant
                i <= n,
                forall|j: int| 0 <= j < i ==> (#[trigger] self@[j]).0 != id,
            decreases n - i,
        {
            if self.entries[i].0 == id {
                return Some(i);
            }
            i += 1;
        }
        None
    }

    /// Mutable access to the state filed at position `i`.
    pub fn at_mut(&mut self, i: usize) -> (r: &mut R)
        requires
            i < old(self)@.len(),
        ensures
            *r == old(self)@[i as int].1,
            final(self)@ == old(self)@.update(i as int, (old(self)@[i as int].0, *final(r))),
            old(self).wf() ==> final(self).wf(),
    {
        proof {
            assert(forall|j: int|
                0 <= j < self@.len() && j != i ==> self@.update(
                    i as int,
                    (self@[i as int].0, self@[i as int].1),
                )[j] == self@[j]);
        }
        let p = &mut self.entries[i];
        &mut p.1
    }

    /// Shared access to the state filed at position `i`.
    pub fn at(&self, i: usize) -> (r: &R)
        requires
            i < self@.len(),
        ensures
            *r == self@[i as int].1,
    {
        &self.entries[i].1
    }

    /// Close `id`: take its state out of the table.
    pub fn remove(&mut self, id: usize) -> (r: Option<R>)
        requires
            old(self).wf(),
        ensures
            final(self).wf(),
            match r {
                Some(_) => exists|i: int|
                    0 <= i < old(self)@.len() && old(self)@[i].0 == id && final(self)@ == old(
                        self,
                    )@.remove(i) && r == Some(old(self)@[i].1),
                None => !has_id(old(self)@, id) && *final(self) == *old(self),
            },
    {
        match self.index_of(id) {
            Some(i) => {
                let (_, st) = self.entries.remove(i);
                Some(st)
            },
            None => None,
        }
    }
}

/// Within one provider, no two live handles share an id: in a well-formed
/// table every pair of distinct entries carries distinct ids, for the whole
/// lifetime of the open handles.
pub proof fn lemma_handle_ids_unique<R>(t: &HandleTable<R>, i: int, j: int)
    requires
        t.wf(),
        0 <= i < t@.len(),
        0 <= j < t@.len(),
        i != j,
    ensures
        t@[i].0 != t@[j].0,
{
}

} // verus!
