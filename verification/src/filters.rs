//! Filters remove entries from the working buffer in place.  Implement
//! the `Filter` trait to create a custom filter or use the default one.

use vstd::prelude::*;
use crate::entries::Entry;
use crate::errors::StageError;

verus! {

broadcast use vstd::seq_lib::group_seq_properties;

/// Filters the working buffer in place.
///
/// A filter is described by three spec functions: the predicate saying
/// which entries it removes, the exact buffer it leaves behind, and the
/// buffers it succeeds on.  The proof obligation ties the result to the
/// predicate: what is left is exactly the entries not removed, with their
/// multiplicities, though in no guaranteed order.
pub trait Filter<T> {
    /// Which entries the filter removes.
    spec fn removes(&self, t: T) -> bool;

    /// The exact buffer the filter leaves behind on success.
    spec fn filtered_of(&self, s: Seq<T>) -> Seq<T>;

    /// The buffers the filter succeeds on.
    spec fn filter_ok(&self, s: Seq<T>) -> bool;

    /// The result keeps exactly the entries the predicate does not
    /// remove: none of them is removed, and each entry that is kept
    /// keeps its multiplicity.
    proof fn lemma_filtered(&self, s: Seq<T>)
        ensures
            forall|i: int|
                0 <= i < self.filtered_of(s).len() ==> !self.removes(#[trigger] self.filtered_of(s)[i]),
            forall|t: T|
                !self.removes(t) ==> self.filtered_of(s).to_multiset().count(t)
                    == s.to_multiset().count(t),
    ;

    /// Remove, in place, every entry satisfying the filter's predicate.
    fn filter(&self, buffer: &mut Vec<T>) -> (r: Result<(), StageError>)
        ensures
            r is Ok <==> self.filter_ok(old(buffer)@),
            r is Ok ==> final(buffer)@ == self.filtered_of(old(buffer)@),
            r is Err ==> final(buffer)@ == old(buffer)@,
    ;
}

/// The buffer that remains when, walking from index `i`, every element
/// failing `keep` is swap-removed: it is replaced by the last element and
/// the buffer shrinks by one.  This disturbs the order but costs O(1) per
/// removal, which is fine because the buffer is unsorted at this stage.
pub open spec fn swap_retain<T>(s: Seq<T>, keep: spec_fn(T) -> bool, i: int) -> Seq<T>
    decreases s.len() - i,
{
    if i < 0 || i >= s.len() {
        s
    } else if keep(s[i]) {
        swap_retain(s, keep, i + 1)
    } else {
        swap_retain(s.update(i, s.last()).drop_last(), keep, i)
    }
}

/// Swap-removing index `i` leaves the same elements as removing it,
/// as a multiset.
proof fn lemma_swap_remove_multiset<T>(s: Seq<T>, i: int)
    requires
        0 <= i < s.len(),
    ensures
        s.update(i, s.last()).drop_last().to_multiset() == s.to_multiset().remove(s[i]),
{
    broadcast use vstd::seq_lib::group_to_multiset_ensures;
    broadcast use vstd::multiset::group_multiset_axioms;
    broadcast use vstd::multiset::group_multiset_properties;

    let u = s.update(i, s.last());
    let k = u.len() - 1;
    assert(u.remove(k) =~= u.drop_last());
    assert(u.remove(k).to_multiset() == u.to_multiset().remove(u[k]));
    assert(u[k] == s.last());
    assert(u.to_multiset() == s.to_multiset().insert(s.last()).remove(s[i]));
    assert(s.contains(s[i]));
    assert(s.to_multiset().count(s[i]) > 0);
    assert forall|t: T|
        u.drop_last().to_multiset().count(t) == s.to_multiset().remove(s[i]).count(t) by {
        let ms = s.to_multiset();
        assert(ms.insert(s.last()).count(s.last()) == ms.count(s.last()) + 1);
        if t == s.last() {
            assert(ms.insert(s.last()).count(t) == ms.count(t) + 1);
        } else {
            assert(ms.insert(s.last()).count(t) == ms.count(t));
        }
    }
    assert(u.drop_last().to_multiset() =~= s.to_multiset().remove(s[i]));
}

/// What `swap_retain` yields: everything it keeps satisfies `keep`
/// (provided the part already walked does), and every element satisfying
/// `keep` keeps its multiplicity.
pub proof fn lemma_swap_retain<T>(s: Seq<T>, keep: spec_fn(T) -> bool, i: int)
    requires
        0 <= i <= s.len(),
        forall|j: int| 0 <= j < i ==> keep(#[trigger] s[j]),
    ensures
        forall|j: int|
            0 <= j < swap_retain(s, keep, i).len() ==> keep(#[trigger] swap_retain(s, keep, i)[j]),
        forall|t: T|
            keep(t) ==> swap_retain(s, keep, i).to_multiset().count(t) == s.to_multiset().count(t),
    decreases s.len() - i,
{
    broadcast use vstd::seq_lib::group_to_multiset_ensures;

    broadcast use vstd::multiset::group_multiset_axioms;

    if i >= s.len() {
    } else if keep(s[i]) {
        lemma_swap_retain(s, keep, i + 1);
        assert(swap_retain(s, keep, i) == swap_retain(s, keep, i + 1));
    } else {
        let u = s.update(i, s.last()).drop_last();
        lemma_swap_remove_multiset(s, i);
        assert(forall|j: int| 0 <= j < i ==> u[j] == s[j]);
        lemma_swap_retain(u, keep, i);
        assert(swap_retain(s, keep, i) == swap_retain(u, keep, i));
        assert(s.to_multiset().count(s[i]) > 0);
        assert(forall|t: T|
            keep(t) ==> u.to_multiset().count(t) == s.to_multiset().count(t)) by {
            assert(forall|t: T|
                keep(t) ==> s.to_multiset().remove(s[i]).count(t) == s.to_multiset().count(t));
        }
    }
}

/// Whether an entry's display name begins with a dot.
pub open spec fn dot_removed(e: Entry) -> bool {
    e.name@.len() > 0 && e.name@.first() == '.'
}

/// The `DotFilesFilter` filters out the entries whose display name begins
/// with a dot.
#[non_exhaustive]
#[derive(Clone, Copy, Debug)]
pub struct DotFilesFilter;

impl DotFilesFilter {
    /// Create a new `DotFilesFilter`.
    pub fn new() -> (r: Self)
        ensures
            r == (DotFilesFilter {}),
    {
        DotFilesFilter {}
    }
}

impl Filter<Entry> for DotFilesFilter {
    open spec fn removes(&self, t: Entry) -> bool {
        dot_removed(t)
    }

    open spec fn filtered_of(&self, s: Seq<Entry>) -> Seq<Entry> {
        swap_retain(s, |t: Entry| !dot_removed(t), 0)
    }

    open spec fn filter_ok(&self, s: Seq<Entry>) -> bool {
        true
    }

    proof fn lemma_filtered(&self, s: Seq<Entry>) {
        lemma_swap_retain(s, |t: Entry| !dot_removed(t), 0);
    }

    #[verifier::loop_isolation(false)]
    fn filter(&self, buffer: &mut Vec<Entry>) -> (r: Result<(), StageError>) {
        let ghost keep = |t: Entry| !dot_removed(t);
        let mut index: usize = 0;
        while index < buffer.len()
            invariant
                keep == (|t: Entry| !dot_removed(t)),
                0 <= index <= buffer@.len(),
                swap_retain(buffer@, keep, index as int) == swap_retain(old(buffer)@, keep, 0),
            decreases buffer@.len() - index,
        {
            let removed = {
                let name: &str = buffer[index].name.as_str();
                !name.is_empty() && name.get_char(0) == '.'
            };
            if removed {
                proof {
                    assert(!keep(buffer@[index as int]));
                }
                buffer.swap_remove(index);
            } else {
                proof {
                    assert(keep(buffer@[index as int]));
                }
                index += 1;
            }
        }
        Ok(())
    }
}

} // verus!
