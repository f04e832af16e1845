//! Rectangles with integer sides, and their ordering by width.

use vstd::prelude::*;

verus! {

/// Holds parameters of a rectangle in integer representation.
#[derive(Clone, Copy, Debug, PartialEq, Eq, Structural)]
pub struct Rectangle {
    pub width: u32,
    pub height: u32,
}

/// The widths in `s` do not decrease.
pub open spec fn sorted_by_width(s: Seq<Rectangle>) -> bool {
    forall|a: int, b: int| 0 <= a < b < s.len() ==> (#[trigger] s[a]).width <= (#[trigger] s[b]).width
}

proof fn lemma_swap_keeps_multiset(s: Seq<Rectangle>, i: int)
    requires
        0 < i < s.len(),
    ensures
        s.update(i, s[i - 1]).update(i - 1, s[i]).to_multiset() == s.to_multiset(),
{
    broadcast use vstd::seq_lib::to_multiset_update;
    broadcast use vstd::seq_lib::to_multiset_contains;
    broadcast use vstd::multiset::group_multiset_axioms;

    let x = s[i - 1];
    let y = s[i];
    let m = s.to_multiset();
    let s1 = s.update(i, x);
    assert(s1[i - 1] == x);
    assert(s.contains(y));
    assert(s1.contains(x));
    let m1 = s1.to_multiset();
    assert(m1 == m.insert(x).remove(y));
    let m2 = s1.update(i - 1, y).to_multiset();
    assert(m2 == m1.insert(y).remove(x));
    assert(m.count(y) > 0);
    assert forall|v: Rectangle| m2.count(v) == m.count(v) by {}
    assert(m2 =~= m);
}

/// Sorts `list` by width, smallest first, keeping the same rectangles.
pub fn sort_by_width(list: &mut Vec<Rectangle>)
    ensures
        final(list)@.len() == old(list)@.len(),
        final(list)@.to_multiset() == old(list)@.to_multiset(),
        sorted_by_width(final(list)@),
{
    let n = list.len();
    if n < 2 {
        return;
    }
    let ghost orig = list@;
    let mut i: usize = 1;
    while i < n
        invariant
            1 <= i <= n,
            n == list@.len(),
            list@.to_multiset() == orig.to_multiset(),
            forall|a: int, b: int|
                0 <= a < b < i ==> (#[trigger] list@[a]).width <= (#[trigger] list@[b]).width,
        decreases n - i,
    {
        let mut j: usize = i;
        while j > 0 && list[j - 1].width > list[j].width
            invariant
                0 <= j <= i < n,
                n == list@.len(),
                list@.to_multiset() == orig.to_multiset(),
                forall|a: int, b: int|
                    0 <= a < b <= i && b != j ==> (#[trigger] list@[a]).width <= (
                    #[trigger] list@[b]).width,
                forall|b: int| j < b <= i ==> list@[j as int].width < (#[trigger] list@[b]).width,
            decreases j,
        {
            let left = list[j - 1];
            let right = list[j];
            proof {
                lemma_swap_keeps_multiset(list@, j as int);
            }
            list.set(j, left);
            list.set(j - 1, right);
            j = j - 1;
        }
        i = i + 1;
    }
}

} // verus!
