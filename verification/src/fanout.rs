//! The two halves of a bounded fan-out: a prefix is taken, and of the
//! outcomes those that are present are kept, in order.

use vstd::prelude::*;

verus! {

/// The first `n` elements of `s`; all of `s` where it has fewer.
pub open spec fn first_n<T>(s: Seq<T>, n: nat) -> Seq<T> {
    if n <= s.len() {
        s.take(n as int)
    } else {
        s
    }
}

/// What follows the first `n` elements of `s`; nothing where it has fewer.
pub open spec fn after_n<T>(s: Seq<T>, n: nat) -> Seq<T> {
    if n <= s.len() {
        s.skip(n as int)
    } else {
        Seq::empty()
    }
}

/// The values that are present in `s`, in the order in which they stand
/// there.
pub open spec fn somes<T>(s: Seq<Option<T>>) -> Seq<T>
    decreases s.len(),
{
    if s.len() == 0 {
        Seq::empty()
    } else {
        match s.last() {
            Some(v) => somes(s.drop_last()).push(v),
            None => somes(s.drop_last()),
        }
    }
}

/// The present values of a sequence that grows by one element.
pub proof fn lemma_somes_push<T>(s: Seq<Option<T>>, v: Option<T>)
    ensures
        somes(s.push(v)) == (match v {
            Some(x) => somes(s).push(x),
            None => somes(s),
        }),
{
    assert(s.push(v).drop_last() =~= s);
}

/// No more values are present than there are elements.
pub proof fn lemma_somes_len<T>(s: Seq<Option<T>>)
    ensures
        somes(s).len() <= s.len(),
    decreases s.len(),
{
    if s.len() > 0 {
        lemma_somes_len(s.drop_last());
    }
}

/// The first `count` of the given ids, in their order.
pub fn take_first(ids: &Vec<i64>, count: usize) -> (out: Vec<i64>)
    ensures
        out@ == first_n(ids@, count as nat),
{
    let n: usize = if count <= ids.len() { count } else { ids.len() };
    let mut out: Vec<i64> = Vec::new();
    let mut i: usize = 0;
    while i < n
        invariant
            i <= n <= ids.len(),
            out@ == ids@.take(i as int),
        decreases n - i,
    {
        out.push(ids[i]);
        assert(ids@.take(i + 1) =~= ids@.take(i as int).push(ids@[i as int]));
        i = i + 1;
    }
    assert(ids@.take(ids@.len() as int) =~= ids@);
    out
}

} // verus!
