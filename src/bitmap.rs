//! The compressed bitmap sets of the `roaring` crate, as the library sees
//! them: a set of `u32` values, reached through a few trusted operations.
use roaring::RoaringBitmap;
use vstd::prelude::*;

verus! {

#[verifier::external_type_specification]
#[verifier::external_body]
pub struct ExRoaringBitmap(RoaringBitmap);

/// The values that a bitmap holds: those of every container, each with the
/// container's key as its high half.
pub uninterp spec fn bitmap_ids(b: RoaringBitmap) -> Set<u32>;

/// Whether a bitmap keeps the crate's internal invariants: containers in
/// strictly increasing key order, none empty, each in the store its size
/// calls for. Every bitmap built by `new`, `insert` and the set operations
/// keeps them; one read by `deserialize_from` need not.
pub uninterp spec fn bitmap_wf(b: RoaringBitmap) -> bool;

/// The values of `s` below `n`, in ascending order.
pub open spec fn ascending_below(s: Set<u32>, n: nat) -> Seq<u32>
    decreases n,
{
    if n == 0 {
        Seq::empty()
    } else {
        let prev = ascending_below(s, (n - 1) as nat);
        if s.contains((n - 1) as u32) {
            prev.push((n - 1) as u32)
        } else {
            prev
        }
    }
}

/// All values of `s`, in ascending order.
pub open spec fn ascending(s: Set<u32>) -> Seq<u32> {
    ascending_below(s, 0x1_0000_0000)
}

/// Relies on `RoaringBitmap::new`: the bitmap it makes is empty.
#[verifier::external_body]
pub(crate) fn empty_bitmap() -> (r: RoaringBitmap)
    ensures
        bitmap_wf(r),
        bitmap_ids(r) == Set::<u32>::empty(),
{
    RoaringBitmap::new()
}

/// Relies on `RoaringBitmap::insert`: adds one value.
#[verifier::external_body]
pub(crate) fn insert_id(b: &mut RoaringBitmap, x: u32)
    requires
        bitmap_wf(*old(b)),
    ensures
        bitmap_wf(*final(b)),
        bitmap_ids(*final(b)) == bitmap_ids(*old(b)).insert(x),
{
    b.insert(x);
}

/// Relies on `RoaringBitmap::insert_range`: adds every value from zero up to
/// `last`, inclusive.
#[verifier::external_body]
pub(crate) fn insert_up_to(b: &mut RoaringBitmap, last: u32)
    requires
        bitmap_wf(*old(b)),
    ensures
        bitmap_wf(*final(b)),
        bitmap_ids(*final(b)) == bitmap_ids(*old(b)).union(Set::new(|x: u32| x <= last)),
{
    b.insert_range(0..=last);
}

/// Relies on `RoaringBitmap::contains`: membership of one value.
#[verifier::external_body]
pub(crate) fn contains_id(b: &RoaringBitmap, x: u32) -> (r: bool)
    requires
        bitmap_wf(*b),
    ensures
        r == bitmap_ids(*b).contains(x),
{
    b.contains(x)
}

/// Relies on `RoaringBitmap |= &RoaringBitmap`: set union.
#[verifier::external_body]
pub(crate) fn union_with(b: &mut RoaringBitmap, other: &RoaringBitmap)
    requires
        bitmap_wf(*old(b)),
        bitmap_wf(*other),
    ensures
        bitmap_wf(*final(b)),
        bitmap_ids(*final(b)) == bitmap_ids(*old(b)).union(bitmap_ids(*other)),
{
    *b |= other;
}

/// Relies on `RoaringBitmap &= &RoaringBitmap`: set intersection.
#[verifier::external_body]
pub(crate) fn intersect_with(b: &mut RoaringBitmap, other: &RoaringBitmap)
    requires
        bitmap_wf(*old(b)),
        bitmap_wf(*other),
    ensures
        bitmap_wf(*final(b)),
        bitmap_ids(*final(b)) == bitmap_ids(*old(b)).intersect(bitmap_ids(*other)),
{
    *b &= other;
}

/// Relies on `RoaringBitmap::remove_range` over `..=x`: drops every value
/// up to `x`, inclusive.
#[verifier::external_body]
pub(crate) fn remove_up_to(b: &mut RoaringBitmap, x: u32)
    requires
        bitmap_wf(*old(b)),
    ensures
        bitmap_wf(*final(b)),
        bitmap_ids(*final(b)) == bitmap_ids(*old(b)).filter(|y: u32| y > x),
{
    b.remove_range(..=x);
}

/// Relies on `RoaringBitmap::remove_range` over `x..`: drops every value
/// from `x` on.
#[verifier::external_body]
pub(crate) fn remove_from(b: &mut RoaringBitmap, x: u32)
    requires
        bitmap_wf(*old(b)),
    ensures
        bitmap_wf(*final(b)),
        bitmap_ids(*final(b)) == bitmap_ids(*old(b)).filter(|y: u32| y < x),
{
    b.remove_range(x..);
}

/// Relies on `RoaringBitmap::iter`, which yields the values of each
/// container in turn, containers in their stored order: every value, and in
/// ascending order where the containers are in key order.
#[verifier::external_body]
pub(crate) fn to_vec(b: &RoaringBitmap) -> (r: Vec<u32>)
    ensures
        r@.to_set() == bitmap_ids(*b),
        bitmap_wf(*b) ==> r@ == ascending(bitmap_ids(*b)),
{
    b.iter().collect()
}

/// A bitmap holding exactly the given values.
pub fn bitmap_of(ids: &Vec<u32>) -> (r: RoaringBitmap)
    ensures
        bitmap_wf(r),
        bitmap_ids(r) == ids@.to_set(),
{
    let mut r = empty_bitmap();
    let mut i: usize = 0;
    while i < ids.len()
        invariant
            i <= ids@.len(),
            bitmap_wf(r),
            bitmap_ids(r) == ids@.subrange(0, i as int).to_set(),
        decreases ids@.len() - i,
    {
        insert_id(&mut r, ids[i]);
        proof {
            assert(ids@.subrange(0, i + 1) =~= ids@.subrange(0, i as int).push(ids@[i as int]));
            ids@.subrange(0, i as int).lemma_push_to_set_commute(ids@[i as int]);
        }
        i = i + 1;
    }
    proof {
        assert(ids@.subrange(0, ids@.len() as int) =~= ids@);
    }
    r
}

/// The same set rebuilt value by value, so that it keeps the crate's
/// invariants whatever the containers of `b` look like.
pub fn normalized(b: &RoaringBitmap) -> (r: RoaringBitmap)
    ensures
        bitmap_wf(r),
        bitmap_ids(r) == bitmap_ids(*b),
{
    bitmap_of(&to_vec(b))
}

/// The union of the bitmaps of `index` at the positions `picks`.
pub fn union_of(index: &Vec<RoaringBitmap>, picks: &Vec<usize>) -> (r: RoaringBitmap)
    requires
        forall|i: int| 0 <= i < index@.len() ==> bitmap_wf(#[trigger] index@[i]),
        forall|j: int| 0 <= j < picks@.len() ==> #[trigger] picks@[j] < index@.len(),
    ensures
        bitmap_wf(r),
        forall|x: u32| #[trigger] bitmap_ids(r).contains(x) <==> exists|j: int|
            0 <= j < picks@.len() && #[trigger] bitmap_ids(index@[picks@[j] as int]).contains(x),
{
    let mut acc = empty_bitmap();
    let mut i: usize = 0;
    while i < picks.len()
        invariant
            i <= picks@.len(),
            bitmap_wf(acc),
            forall|k: int| 0 <= k < index@.len() ==> bitmap_wf(#[trigger] index@[k]),
            forall|j: int| 0 <= j < picks@.len() ==> #[trigger] picks@[j] < index@.len(),
            forall|x: u32| #[trigger] bitmap_ids(acc).contains(x) <==> exists|j: int|
                0 <= j < i && #[trigger] bitmap_ids(index@[picks@[j] as int]).contains(x),
        decreases picks@.len() - i,
    {
        let ghost before = bitmap_ids(acc);
        union_with(&mut acc, &index[picks[i]]);
        proof {
            assert forall|x: u32| #[trigger] bitmap_ids(acc).contains(x) <==> exists|j: int|
                0 <= j < i + 1 && #[trigger] bitmap_ids(index@[picks@[j] as int]).contains(x) by {
                if bitmap_ids(index@[picks@[i as int] as int]).contains(x) {
                    assert(0 <= i < i + 1);
                }
                if before.contains(x) {
                }
            }
        }
        i = i + 1;
    }
    acc
}

} // verus!
