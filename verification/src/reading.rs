//! What a reader gives back: a result and the position where it stopped.

use vstd::prelude::*;

verus! {

/// What reading from a position gave, and the position at which it stopped.
pub struct Reading<T, E> {
    pub result: Result<T, E>,
    pub end: int,
}

impl<A, E> Reading<Seq<A>, E> {
    /// The same reading, with `prefix` put before what was read.
    pub open spec fn after(self, prefix: Seq<A>) -> Reading<Seq<A>, E> {
        Reading {
            result: match self.result {
                Ok(rest) => Ok(prefix + rest),
                Err(e) => Err(e),
            },
            end: self.end,
        }
    }
}

/// A result as a mathematical value: what was read by its deep view, the
/// error by its view.
pub open spec fn result_view<T: DeepView, E: View>(result: Result<T, E>) -> Result<T::V, E::V> {
    match result {
        Ok(value) => Ok(value.deep_view()),
        Err(e) => Err(e@),
    }
}

/// Putting two prefixes before a reading, one after the other, puts their
/// concatenation before it.
pub proof fn lemma_after_after<A, E>(reading: Reading<Seq<A>, E>, first: Seq<A>, second: Seq<A>)
    ensures
        reading.after(second).after(first) == reading.after(first + second),
        reading.after(Seq::empty()) == reading,
{
    match reading.result {
        Ok(rest) => {
            assert(first + (second + rest) =~= (first + second) + rest);
            assert(Seq::<A>::empty() + rest =~= rest);
        },
        Err(_) => {},
    }
}

/// The items `w` stand in `s` from position `i` on.
pub open spec fn stands_at<A>(s: Seq<A>, i: int, w: Seq<A>) -> bool {
    &&& 0 <= i
    &&& i + w.len() <= s.len()
    &&& s.subrange(i, i + w.len()) == w
}

/// Where two runs stand one after the other as a whole, each stands in its place.
pub proof fn lemma_stands_split<A>(s: Seq<A>, i: int, a: Seq<A>, b: Seq<A>)
    requires
        stands_at(s, i, a + b),
    ensures
        stands_at(s, i, a),
        stands_at(s, i + a.len(), b),
{
    let w = a + b;
    assert(s.subrange(i, i + a.len()) =~= w.subrange(0, a.len() as int));
    assert(s.subrange(i + a.len(), i + w.len()) =~= w.subrange(a.len() as int, w.len() as int));
    assert(w.subrange(0, a.len() as int) =~= a);
    assert(w.subrange(a.len() as int, w.len() as int) =~= b);
}

/// Where a run stands, each of its items stands in its place.
pub proof fn lemma_stands_item<A>(s: Seq<A>, i: int, w: Seq<A>, k: int)
    requires
        stands_at(s, i, w),
        0 <= k < w.len(),
    ensures
        s[i + k] == w[k],
{
    assert(s.subrange(i, i + w.len())[k] == w[k]);
}

} // verus!
