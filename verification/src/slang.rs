//! Extensions of the standard types that the other modules share.

use vstd::prelude::*;
use vstd::string::*;

use crate::text;

verus! {

/// For results whose two sides hold the same type.
pub trait ResultExt<T> {
    /// Returns the inner value, whichever side holds it.
    fn into_inner(self) -> T;
}

impl<T> ResultExt<T> for Result<T, T> {
    fn into_inner(self) -> (inner: T)
        ensures
            inner == match self {
                Ok(v) => v,
                Err(v) => v,
            },
    {
        match self {
            Ok(v) => v,
            Err(v) => v,
        }
    }
}

/// `s`, made to end with `suffix`.
pub open spec fn ending_with(s: Seq<char>, suffix: Seq<char>) -> Seq<char> {
    if text::occurs_at(s, suffix, s.len() - suffix.len()) {
        s
    } else {
        s + suffix
    }
}

/// A string that was made to end with a suffix does so, and making it end so again changes
/// nothing.
pub proof fn ending_with_is_idempotent(s: Seq<char>, suffix: Seq<char>)
    ensures
        text::occurs_at(
            ending_with(s, suffix),
            suffix,
            ending_with(s, suffix).len() - suffix.len(),
        ),
        ending_with(ending_with(s, suffix), suffix) == ending_with(s, suffix),
{
    let t = ending_with(s, suffix);
    if !text::occurs_at(s, suffix, s.len() - suffix.len()) {
        assert(t.subrange(t.len() - suffix.len(), t.len() as int) =~= suffix);
    }
}

/// For strings that have to end in a certain way.
pub trait StringExt {
    /// Makes the string end with the provided suffix.
    fn now_ends_with(&mut self, suf: &str);
}

impl StringExt for String {
    fn now_ends_with(&mut self, suf: &str)
        ensures
            final(self)@ == ending_with(old(self)@, suf@),
    {
        let chars = text::chars_of(self.as_str());
        let suffix = text::chars_of(suf);
        if suffix.len() > chars.len() || !text::literal_at(
            &chars,
            chars.len() - suffix.len(),
            suf,
        ) {
            self.append(suf);
        }
    }
}

/// The values whose flag is set, in their order.
pub open spec fn kept<T>(values: Seq<T>, keep: Seq<bool>) -> Seq<T>
    recommends
        values.len() == keep.len(),
    decreases values.len(),
{
    if values.len() == 0 || keep.len() == 0 {
        Seq::empty()
    } else if keep.last() {
        kept(values.drop_last(), keep.drop_last()).push(values.last())
    } else {
        kept(values.drop_last(), keep.drop_last())
    }
}

/// `s` has an element `i`.
pub open spec fn within<T>(s: Seq<T>, i: int) -> bool {
    0 <= i < s.len()
}

/// For vectors that are filtered in place.
pub trait VecExt<T> {
    /// The values that the vector holds.
    spec fn values(&self) -> Seq<T>;

    /// Calls the function for each element and returns the number of elements removed.
    /// The function returns true to keep the element, and false to remove it from the vec.
    fn map_retain<F: Fn(&mut T) -> bool>(&mut self, f: F) -> (del: usize)
        requires
            forall|x: &mut T| old(self).values().contains(*x) ==> #[trigger] f.requires((x,)),
    ;
}

impl<T> VecExt<T> for Vec<T> {
    open spec fn values(&self) -> Seq<T> {
        self@
    }

    fn map_retain<F: Fn(&mut T) -> bool>(&mut self, f: F) -> (del: usize)
        ensures
            exists|after: Seq<T>, keep: Seq<bool>|
                {
                    &&& after.len() == old(self)@.len()
                    &&& keep.len() == old(self)@.len()
                    &&& forall|i: int|
                        #[trigger] within(after, i) ==> exists|x: &mut T|
                            *x == old(self)@[i] && *final(x) == after[i]
                                && #[trigger] f.ensures((x,), keep[i])
                    &&& final(self)@ == #[trigger] kept(after, keep)
                },
            del + final(self)@.len() == old(self)@.len(),
    {
        let ghost all = self@;
        let len: usize = self.len();
        let mut elements: Vec<T> = Vec::new();
        std::mem::swap(self, &mut elements);
        let mut del: usize = 0;
        let ghost mut after: Seq<T> = Seq::empty();
        let ghost mut keep: Seq<bool> = Seq::empty();
        for element in iter: elements
            invariant
                iter.seq() == all,
                all.len() == len,
                all == old(self)@,
                del + self@.len() == iter.index(),
                after.len() == iter.index(),
                keep.len() == iter.index(),
                forall|x: &mut T| all.contains(*x) ==> #[trigger] f.requires((x,)),
                forall|j: int|
                    #[trigger] within(after, j) ==> exists|x: &mut T|
                        *x == all[j] && *final(x) == after[j] && #[trigger] f.ensures(
                            (x,),
                            keep[j],
                        ),
                self@ == kept(after, keep),
        {
            let mut element = element;
            assert(all[iter.index() as int] == element);
            let ghost before = element;
            let keep_it = f(&mut element);
            assert(exists|x: &mut T|
                *x == before && *final(x) == element && #[trigger] f.ensures((x,), keep_it));
            proof {
                let done = after.len() as int;
                let before_after = after;
                let before_keep = keep;
                after = after.push(element);
                keep = keep.push(keep_it);
                assert(after.drop_last() =~= before_after);
                assert(keep.drop_last() =~= before_keep);
                assert forall|j: int| #[trigger] within(after, j) implies exists|x: &mut T|
                    *x == all[j] && *final(x) == after[j] && #[trigger] f.ensures(
                        (x,),
                        keep[j],
                    ) by {
                    if j < done {
                        assert(within(before_after, j));
                        assert(after[j] == before_after[j] && keep[j] == before_keep[j]);
                    } else {
                        assert(after[j] == element && keep[j] == keep_it && all[j] == before);
                    }
                }
            }
            if keep_it {
                self.push(element);
            } else {
                del = del + 1;
            }
        }
        assert(self@ =~= kept(after, keep));
        del
    }
}

/// Making a text end with a suffix changes nothing of the text: at most the suffix is added, and
/// only if the text does not end with it yet.
pub proof fn at_most_the_suffix_is_added(s: Seq<char>, suffix: Seq<char>)
    ensures
        s.is_prefix_of(ending_with(s, suffix)),
        ending_with(s, suffix) == s || ending_with(s, suffix) == s + suffix,
        (s.len() >= suffix.len() && forall|i: int|
            0 <= i < suffix.len() ==> s[s.len() - suffix.len() + i] == #[trigger] suffix[i]) ==>
            ending_with(s, suffix) == s,
        !(s.len() >= suffix.len() && forall|i: int|
            0 <= i < suffix.len() ==> s[s.len() - suffix.len() + i] == #[trigger] suffix[i]) ==>
            ending_with(s, suffix) == s + suffix,
{
    text::a_part_stands_where_its_characters_do(s, suffix, s.len() - suffix.len());
    assert(s.subrange(0, s.len() as int) =~= s);
    assert((s + suffix).subrange(0, s.len() as int) =~= s);
}

/// Of a single value, what is kept is the value if its flag is set, and nothing otherwise.
pub proof fn one_value_is_kept_or_not<T>(value: T, keep: bool)
    ensures
        kept(seq![value], seq![keep]) == if keep {
            seq![value]
        } else {
            Seq::empty()
        },
{
    reveal_with_fuel(kept, 2);
    assert(seq![value].drop_last() =~= Seq::<T>::empty());
    assert(kept(seq![value].drop_last(), seq![keep].drop_last()) =~= Seq::<T>::empty());
    assert(Seq::<T>::empty().push(value) =~= seq![value]);
}

/// What is kept of two lists, one after the other, is what is kept of the first and then what is
/// kept of the second.
pub proof fn values_are_kept_part_by_part<T>(
    a: Seq<T>,
    keep_a: Seq<bool>,
    b: Seq<T>,
    keep_b: Seq<bool>,
)
    requires
        a.len() == keep_a.len(),
        b.len() == keep_b.len(),
    ensures
        kept(a + b, keep_a + keep_b) == kept(a, keep_a) + kept(b, keep_b),
    decreases b.len(),
{
    if b.len() == 0 {
        assert(a + b =~= a);
        assert(keep_a + keep_b =~= keep_a);
        assert(kept(a, keep_a) + kept(b, keep_b) =~= kept(a, keep_a));
    } else {
        values_are_kept_part_by_part(a, keep_a, b.drop_last(), keep_b.drop_last());
        assert((a + b).drop_last() =~= a + b.drop_last());
        assert((keep_a + keep_b).drop_last() =~= keep_a + keep_b.drop_last());
        assert(kept(a + b, keep_a + keep_b) =~= kept(a, keep_a) + kept(b, keep_b));
    }
}

/// Where the values that are kept come from: their places, in the same order, and no other value is
/// kept.
pub proof fn kept_values_come_from<T>(values: Seq<T>, keep: Seq<bool>) -> (from: Seq<int>)
    requires
        values.len() == keep.len(),
    ensures
        from.len() == kept(values, keep).len(),
        forall|k: int|
            0 <= k < from.len() ==> {
                &&& 0 <= #[trigger] from[k] < values.len()
                &&& keep[from[k]]
                &&& kept(values, keep)[k] == values[from[k]]
            },
        forall|j: int, k: int| 0 <= j < k < from.len() ==> #[trigger] from[j] < #[trigger] from[k],
        forall|i: int| 0 <= i < keep.len() && #[trigger] keep[i] ==> from.contains(i),
    decreases values.len(),
{
    if values.len() == 0 {
        Seq::empty()
    } else {
        let last = values.len() - 1;
        let earlier = kept_values_come_from(values.drop_last(), keep.drop_last());
        let from = if keep.last() {
            earlier.push(last)
        } else {
            earlier
        };
        assert forall|i: int| 0 <= i < keep.len() && #[trigger] keep[i] implies from.contains(i) by {
            if i < last {
                assert(keep.drop_last()[i]);
                let k = earlier.index_of(i);
                assert(from[k] == i);
            } else {
                assert(from[earlier.len() as int] == i);
            }
        }
        assert forall|k: int| 0 <= k < from.len() implies {
            &&& 0 <= #[trigger] from[k] < values.len()
            &&& keep[from[k]]
            &&& kept(values, keep)[k] == values[from[k]]
        } by {
            if k < earlier.len() {
                assert(from[k] == earlier[k]);
            }
        }
        from
    }
}

/// An element stands at every place of a list.
pub proof fn every_place_is_within<T>(s: Seq<T>, i: int)
    ensures
        within(s, i) <==> 0 <= i && i < s.len(),
{
}

} // verus!
