//! Sorters reorder the working buffer in place.  Implement the `Sorter`
//! trait to create a custom sorter or use the default one.

use vstd::prelude::*;
use crate::entries::Entry;
use crate::errors::StageError;

verus! {

broadcast use vstd::seq_lib::group_seq_properties;

/// Sorts the working buffer in place.
///
/// A sorter is described by the entries it can sort (those carrying the
/// metadata it needs), the order it establishes, and the exact buffer it
/// produces.  The proof obligation ties the result to the order: the
/// result is a permutation of the input, ordered pairwise.
pub trait Sorter<T> {
    /// Whether an entry carries the metadata this sorter needs.
    spec fn sortable(&self, t: T) -> bool;

    /// Whether `a` may stand before `b` in the sorted buffer.
    spec fn precedes(&self, a: T, b: T) -> bool;

    /// The exact buffer the sorter produces on success.
    spec fn sorted_of(&self, s: Seq<T>) -> Seq<T>;

    /// On sortable entries the result is a permutation of the input and
    /// every element may stand before each element after it.
    proof fn lemma_sorted(&self, s: Seq<T>)
        requires
            forall|i: int| 0 <= i < s.len() ==> self.sortable(#[trigger] s[i]),
        ensures
            self.sorted_of(s).to_multiset() == s.to_multiset(),
            forall|i: int, j: int|
                0 <= i < j < self.sorted_of(s).len() ==> self.precedes(
                    self.sorted_of(s)[i],
                    self.sorted_of(s)[j],
                ),
    ;

    /// Reorder the buffer in place.  Fails exactly when some entry lacks
    /// the metadata the sorter needs, leaving the buffer untouched; on
    /// success the buffer becomes the sorted permutation.
    fn sort(&self, buffer: &mut Vec<T>) -> (r: Result<(), StageError>)
        ensures
            r is Ok <==> (forall|i: int|
                0 <= i < old(buffer)@.len() ==> self.sortable(#[trigger] old(buffer)@[i])),
            r is Ok ==> final(buffer)@ == self.sorted_of(old(buffer)@),
            r is Err ==> final(buffer)@ == old(buffer)@,
    ;
}

/// The creation timestamp the time sorter orders by; meaningful only for
/// entries that carry one.
pub open spec fn time_key(e: Entry) -> u64 {
    e.created->0
}

/// Where `insert_desc` places `e`: after every element whose key is at
/// least as large, before the first strictly smaller one.
pub open spec fn insert_desc(s: Seq<Entry>, e: Entry) -> Seq<Entry>
    decreases s.len(),
{
    if s.len() == 0 {
        seq![e]
    } else if time_key(s.first()) >= time_key(e) {
        seq![s.first()] + insert_desc(s.drop_first(), e)
    } else {
        seq![e] + s
    }
}

/// Sorting by creation time, newest first: each element of `s`, in
/// order, inserted into the sorted buffer built from the ones before it.
pub open spec fn sort_desc(s: Seq<Entry>) -> Seq<Entry>
    decreases s.len(),
{
    if s.len() == 0 {
        Seq::empty()
    } else {
        insert_desc(sort_desc(s.drop_last()), s.last())
    }
}

/// Newest first: every element's key is at least the key of each element
/// after it.
pub open spec fn sorted_desc(s: Seq<Entry>) -> bool {
    forall|i: int, j: int| 0 <= i < j < s.len() ==> time_key(s[i]) >= time_key(s[j])
}

/// Inserting adds exactly one occurrence of the inserted entry.
proof fn lemma_insert_desc_multiset(s: Seq<Entry>, e: Entry)
    ensures
        insert_desc(s, e).to_multiset() == s.to_multiset().insert(e),
    decreases s.len(),
{
    broadcast use vstd::seq_lib::group_to_multiset_ensures;
    broadcast use vstd::multiset::group_multiset_axioms;

    if s.len() == 0 {
        assert(seq![e] =~= Seq::<Entry>::empty().push(e));
        assert(seq![e].to_multiset() =~= Seq::<Entry>::empty().to_multiset().insert(e));
    } else if time_key(s.first()) >= time_key(e) {
        lemma_insert_desc_multiset(s.drop_first(), e);
        assert(seq![s.first()] + insert_desc(s.drop_first(), e) =~= insert_desc(
            s.drop_first(),
            e,
        ).insert(0, s.first()));
        assert(s =~= s.drop_first().insert(0, s.first()));
        assert(insert_desc(s, e).to_multiset() =~= s.to_multiset().insert(e));
    } else {
        assert(seq![e] + s =~= s.insert(0, e));
    }
}

/// Inserting into a sorted buffer keeps it sorted.
proof fn lemma_insert_desc_sorted(s: Seq<Entry>, e: Entry)
    requires
        sorted_desc(s),
    ensures
        sorted_desc(insert_desc(s, e)),
    decreases s.len(),
{
    if s.len() == 0 {
    } else if time_key(s.first()) >= time_key(e) {
        assert(sorted_desc(s.drop_first()));
        lemma_insert_desc_sorted(s.drop_first(), e);
        let r = seq![s.first()] + insert_desc(s.drop_first(), e);
        assert forall|i: int, j: int| 0 <= i < j < r.len() implies time_key(r[i]) >= time_key(
            r[j],
        ) by {
            lemma_insert_desc_members(s.drop_first(), e);
            if i == 0 {
                assert(r[j] == insert_desc(s.drop_first(), e)[j - 1]);
            }
        }
    } else {
    }
}

/// Every element of the inserted buffer is the inserted entry or one of
/// the original elements.
proof fn lemma_insert_desc_members(s: Seq<Entry>, e: Entry)
    ensures
        forall|i: int|
            0 <= i < insert_desc(s, e).len() ==> (#[trigger] insert_desc(s, e)[i] == e
                || s.contains(insert_desc(s, e)[i])),
    decreases s.len(),
{
    if s.len() == 0 {
    } else if time_key(s.first()) >= time_key(e) {
        lemma_insert_desc_members(s.drop_first(), e);
        assert forall|i: int| 0 <= i < insert_desc(s, e).len() implies (#[trigger] insert_desc(
            s,
            e,
        )[i] == e || s.contains(insert_desc(s, e)[i])) by {
            if i > 0 {
                let x = insert_desc(s.drop_first(), e)[i - 1];
                if x != e {
                    let k = choose|k: int|
                        0 <= k < s.drop_first().len() && s.drop_first()[k] == x;
                    assert(s[k + 1] == x);
                }
            }
        }
    } else {
    }
}

/// `sort_desc` yields a sorted permutation.
pub proof fn lemma_sort_desc(s: Seq<Entry>)
    ensures
        sort_desc(s).to_multiset() == s.to_multiset(),
        sorted_desc(sort_desc(s)),
    decreases s.len(),
{
    broadcast use vstd::seq_lib::group_to_multiset_ensures;

    if s.len() == 0 {
    } else {
        lemma_sort_desc(s.drop_last());
        lemma_insert_desc_multiset(sort_desc(s.drop_last()), s.last());
        lemma_insert_desc_sorted(sort_desc(s.drop_last()), s.last());
        assert(s.drop_last().push(s.last()) =~= s);
        assert(s.drop_last().to_multiset().insert(s.last()) == s.to_multiset());
    }
}

/// The `TimeSorter` sorts the entries by their creation time, newest
/// first.  An entry without a creation time is a fatal error for the
/// sort step, surfaced as an error result.
#[non_exhaustive]
#[derive(Clone, Copy, Debug)]
pub struct TimeSorter;

impl TimeSorter {
    /// Create a new `TimeSorter`.
    pub fn new() -> (r: Self)
        ensures
            r == (TimeSorter {}),
    {
        TimeSorter {}
    }
}

impl Sorter<Entry> for TimeSorter {
    open spec fn sortable(&self, t: Entry) -> bool {
        t.created is Some
    }

    open spec fn precedes(&self, a: Entry, b: Entry) -> bool {
        time_key(a) >= time_key(b)
    }

    open spec fn sorted_of(&self, s: Seq<Entry>) -> Seq<Entry> {
        sort_desc(s)
    }

    proof fn lemma_sorted(&self, s: Seq<Entry>) {
        lemma_sort_desc(s);
    }

    #[verifier::loop_isolation(false)]
    fn sort(&self, buffer: &mut Vec<Entry>) -> (r: Result<(), StageError>) {
        let n = buffer.len();
        let mut i: usize = 0;
        while i < n
            invariant
                n == buffer@.len(),
                0 <= i <= n,
                buffer@ == old(buffer)@,
                forall|j: int| 0 <= j < i ==> buffer@[j].created is Some,
            decreases n - i,
        {
            if buffer[i].created.is_none() {
                return Err(StageError);
            }
            i += 1;
        }
        // Reverse the buffer onto a stack, so the elements can then be
        // taken in their original order without cloning them.
        let mut stack: Vec<Entry> = Vec::new();
        while buffer.len() > 0
            invariant
                buffer@ + stack@.reverse() == old(buffer)@,
                forall|j: int| 0 <= j < old(buffer)@.len() ==> old(buffer)@[j].created is Some,
            decreases buffer@.len(),
        {
            proof {
                assert(buffer@.drop_last().push(buffer@.last()) =~= buffer@);
            }
            let e = buffer.pop().unwrap();
            stack.push(e);
            proof {
                assert(buffer@ + stack@.reverse() =~= old(buffer)@);
            }
        }
        proof {
            assert(buffer@ =~= Seq::<Entry>::empty());
            assert(stack@.reverse() =~= old(buffer)@);
            assert(stack@.reverse() =~= old(buffer)@.skip(0));
            assert(old(buffer)@.take(0) =~= Seq::<Entry>::empty());
            assert(buffer@ == sort_desc(old(buffer)@.take(0)));
        }
        while stack.len() > 0
            invariant
                stack@.len() <= old(buffer)@.len(),
                stack@.reverse() == old(buffer)@.skip(old(buffer)@.len() - stack@.len()),
                buffer@ == sort_desc(old(buffer)@.take(old(buffer)@.len() - stack@.len())),
                sorted_desc(buffer@),
                forall|j: int| 0 <= j < old(buffer)@.len() ==> old(buffer)@[j].created is Some,
                forall|j: int| 0 <= j < buffer@.len() ==> buffer@[j].created is Some,
            decreases stack@.len(),
        {
            let ghost done = old(buffer)@.len() - stack@.len();
            let ghost pre = stack@;
            let e = stack.pop().unwrap();
            proof {
                assert(stack@.push(e) =~= pre);
                assert(pre.len() > 0);
                assert(pre.reverse().len() == pre.len());
                assert(pre.reverse()[0] == pre[pre.len() - 1]);
                assert(pre.reverse()[0] == e);
                assert(pre.reverse() == old(buffer)@.skip(done));
                assert(old(buffer)@.skip(done)[0] == old(buffer)@[done]);
                assert(e == old(buffer)@[done]);
                assert(stack@.reverse() =~= pre.reverse().drop_first());
                assert(stack@.reverse() =~= old(buffer)@.skip(done + 1));
            }
            let mut pos: usize = 0;
            while pos < buffer.len() && newer_or_equal(&buffer[pos], &e)
                invariant
                    0 <= pos <= buffer@.len(),
                    e.created is Some,
                    forall|j: int| 0 <= j < buffer@.len() ==> buffer@[j].created is Some,
                    forall|j: int| 0 <= j < pos ==> time_key(#[trigger] buffer@[j]) >= time_key(e),
                    buffer@ == sort_desc(old(buffer)@.take(done)),
                decreases buffer@.len() - pos,
            {
                pos += 1;
            }
            proof {
                lemma_insert_desc_at(buffer@, e, pos as int);
                assert(old(buffer)@.take(done + 1).drop_last() =~= old(buffer)@.take(done));
                assert(old(buffer)@.take(done + 1).last() == old(buffer)@[done]);
                lemma_insert_desc_sorted(buffer@, e);
            }
            buffer.insert(pos, e);
        }
        proof {
            assert(old(buffer)@.take(old(buffer)@.len() as int) =~= old(buffer)@);
        }
        Ok(())
    }
}

/// Whether `a` was created at or after `b`; both must carry a creation
/// time.
fn newer_or_equal(a: &Entry, b: &Entry) -> (r: bool)
    requires
        a.created is Some,
        b.created is Some,
    ensures
        r == (time_key(*a) >= time_key(*b)),
{
    match (a.created, b.created) {
        (Some(x), Some(y)) => x >= y,
        _ => false,
    }
}

/// `insert_desc` places the entry at the first position whose key is
/// strictly smaller.
proof fn lemma_insert_desc_at(s: Seq<Entry>, e: Entry, pos: int)
    requires
        0 <= pos <= s.len(),
        forall|j: int| 0 <= j < pos ==> time_key(#[trigger] s[j]) >= time_key(e),
        pos < s.len() ==> time_key(s[pos]) < time_key(e),
    ensures
        insert_desc(s, e) == s.insert(pos, e),
    decreases s.len(),
{
    if s.len() == 0 {
        assert(insert_desc(s, e) =~= s.insert(0, e));
    } else if time_key(s.first()) >= time_key(e) {
        lemma_insert_desc_at(s.drop_first(), e, pos - 1);
        assert(seq![s.first()] + s.drop_first().insert(pos - 1, e) =~= s.insert(pos, e));
    } else {
        assert(pos == 0);
        assert(seq![e] + s =~= s.insert(0, e));
    }
}

} // verus!
