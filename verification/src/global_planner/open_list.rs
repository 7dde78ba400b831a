//! The open list of the search: a binary heap that hands out entries in the
//! order of their cost.
use crate::ieee::double::Double;
use vstd::multiset::Multiset;
use vstd::prelude::*;
use vstd::seq_lib::{group_to_multiset_ensures, to_multiset_remove};

verus! {

/// A node waiting for expansion.
#[derive(Clone, Copy, Debug)]
pub struct Entry {
    pub f_cost: Double,
    pub idx: usize,
}

pub struct OpenList {
    pub data: Vec<Entry>,
}

pub open spec fn parent(i: int) -> int {
    (i - 1) / 2
}

/// The entry at `i` does not cost less than its parent.
pub open spec fn in_order(s: Seq<Entry>, i: int) -> bool {
    !s[i].f_cost.lt(s[parent(i)].f_cost)
}

proof fn lemma_update_multiset(s: Seq<Entry>, i: int, v: Entry)
    requires
        0 <= i < s.len(),
    ensures
        s.update(i, v).to_multiset() == s.to_multiset().remove(s[i]).insert(v),
{
    let t = s.update(i, v);
    assert(t.remove(i) =~= s.remove(i));
    to_multiset_remove(s, i);
    to_multiset_remove(t, i);
    broadcast use group_to_multiset_ensures;

    assert(t.contains(t[i]));
    assert(t.to_multiset().remove(v).insert(v) =~= t.to_multiset());
}

proof fn lemma_swap_multiset(s: Seq<Entry>, i: int, j: int)
    requires
        0 <= i < s.len(),
        0 <= j < s.len(),
    ensures
        s.update(i, s[j]).update(j, s[i]).to_multiset() == s.to_multiset(),
{
    let t = s.update(i, s[j]);
    lemma_update_multiset(s, i, s[j]);
    lemma_update_multiset(t, j, s[i]);
    broadcast use group_to_multiset_ensures;

    assert(s.contains(s[i]));
    if i == j {
        assert(t =~= s);
        assert(t.update(j, s[i]) =~= s);
    } else {
        let m = s.to_multiset();
        assert(m.remove(s[i]).insert(s[j]).remove(s[j]).insert(s[i]) =~= m);
    }
}

impl OpenList {
    /// No entry costs less than its parent.
    pub open spec fn wf(self) -> bool {
        forall|i: int| 0 < i < self.data@.len() ==> #[trigger] in_order(self.data@, i)
    }

    /// The entries, in no order.
    pub open spec fn entries(self) -> Multiset<Entry> {
        self.data@.to_multiset()
    }

    pub fn new() -> (r: OpenList)
        ensures
            r.wf(),
            r.entries() == Multiset::<Entry>::empty(),
    {
        let r = OpenList { data: Vec::new() };
        proof {
            broadcast use group_to_multiset_ensures;

            assert(r.data@.to_multiset().len() == 0);
            assert(r.data@.to_multiset() =~= Multiset::<Entry>::empty());
        }
        r
    }

    fn swap(&mut self, i: usize, j: usize)
        requires
            i < old(self).data@.len(),
            j < old(self).data@.len(),
        ensures
            final(self).data@ == old(self).data@.update(i as int, old(self).data@[j as int]).update(
                j as int,
                old(self).data@[i as int],
            ),
            final(self).entries() == old(self).entries(),
    {
        proof {
            lemma_swap_multiset(self.data@, i as int, j as int);
        }
        let a = self.data[i];
        let b = self.data[j];
        self.data.set(i, b);
        self.data.set(j, a);
    }

    /// Moves the entry at `start` up to its place.
    fn sift_up(&mut self, start: usize)
        requires
            start < old(self).data@.len(),
            forall|i: int|
                0 < i < old(self).data@.len() && i != start ==> #[trigger] in_order(
                    old(self).data@,
                    i,
                ),
            start > 0 ==> forall|i: int|
                0 < i < old(self).data@.len() && parent(i) == start ==> !(
                #[trigger] old(self).data@[i]).f_cost.lt(
                    old(self).data@[parent(start as int)].f_cost,
                ),
        ensures
            final(self).wf(),
            final(self).entries() == old(self).entries(),
    {
        let mut pos = start;
        let ghost before = self.entries();
        while pos > 0
            invariant
                pos < self.data@.len(),
                self.entries() == before,
                forall|i: int|
                    0 < i < self.data@.len() && i != pos ==> #[trigger] in_order(self.data@, i),
                pos > 0 ==> forall|i: int|
                    0 < i < self.data@.len() && parent(i) == pos ==> !(
                    #[trigger] self.data@[i]).f_cost.lt(self.data@[parent(pos as int)].f_cost),
            ensures
                self.entries() == before,
                self.wf(),
            decreases pos,
        {
            let up = (pos - 1) / 2;
            if !self.data[pos].f_cost.lt(self.data[up].f_cost) {
                assert(in_order(self.data@, pos as int));
                break;
            }
            let ghost s = self.data@;
            self.swap(pos, up);
            proof {
                let t = self.data@;
                assert forall|i: int| 0 < i < t.len() && i != up implies #[trigger] in_order(
                    t,
                    i,
                ) by {
                    assert(i != pos ==> in_order(s, i));
                    if parent(i) == pos {
                        assert(t[i] == s[i]);
                    }
                }
                if up > 0 {
                    assert(in_order(s, up as int));
                    assert forall|i: int| 0 < i < t.len() && parent(i) == up implies !(
                    #[trigger] t[i]).f_cost.lt(t[parent(up as int)].f_cost) by {
                        if i != pos {
                            assert(in_order(s, i));
                        }
                    }
                }
            }
            pos = up;
        }
    }

    /// Adds an entry.
    pub fn push(&mut self, e: Entry)
        requires
            old(self).wf(),
        ensures
            final(self).wf(),
            final(self).entries() == old(self).entries().insert(e),
    {
        let n = self.data.len();
        proof {
            broadcast use group_to_multiset_ensures;

            assert(self.data@.push(e).to_multiset() == self.data@.to_multiset().insert(e));
        }
        let ghost s = self.data@;
        self.data.push(e);
        proof {
            let t = self.data@;
            assert forall|i: int| 0 < i < t.len() && i != n implies #[trigger] in_order(t, i) by {
                assert(in_order(s, i));
            }
        }
        self.sift_up(n);
    }

    /// Takes an entry out. As long as every cost is a number, none that stays
    /// costs less.
    pub fn pop(&mut self) -> (r: Option<Entry>)
        requires
            old(self).wf(),
        ensures
            final(self).wf(),
            match r {
                None => old(self).entries().len() == 0 && final(self).entries() == old(
                    self,
                ).entries(),
                Some(e) => {
                    &&& old(self).entries().contains(e)
                    &&& final(self).entries() == old(self).entries().remove(e)
                    &&& (forall|x: Entry| #[trigger]
                        old(self).entries().contains(x) ==> !x.f_cost.nan()) ==> (forall|x: Entry|
                        #[trigger]
                        old(self).entries().contains(x) ==> !x.f_cost.lt(e.f_cost))
                },
            },
    {
        let n = self.data.len();
        proof {
            broadcast use group_to_multiset_ensures;

        }
        if n == 0 {
            return None;
        }
        let ghost s = self.data@;
        let top = self.data[0];
        proof {
            if forall|x: Entry| #[trigger] self.entries().contains(x) ==> !x.f_cost.nan() {
                assert forall|x: Entry| #[trigger] self.entries().contains(x) implies !x.f_cost.lt(
                    top.f_cost,
                ) by {
                    broadcast use group_to_multiset_ensures;

                    assert(s.contains(x));
                    let i = choose|i: int| 0 <= i < s.len() && s[i] == x;
                    assert forall|j: int| 0 <= j < s.len() implies !(#[trigger] s[j]).f_cost.nan() by {
                        assert(s.contains(s[j]));
                        assert(self.entries().contains(s[j]));
                    }
                    lemma_root_is_least(s, i);
                }
            }
            assert(s.contains(s[0]));
        }
        self.swap(0, n - 1);
        proof {
            to_multiset_remove(self.data@, n - 1);
            assert(self.data@.remove(n - 1) =~= self.data@.drop_last());
        }
        let _ = self.data.pop();
        if self.data.len() > 0 {
            proof {
                let t = self.data@;
                assert forall|i: int| 0 < i < t.len() && parent(i) != 0 implies #[trigger] in_order(
                    t,
                    i,
                ) by {
                    assert(in_order(s, i));
                }
            }
            self.sift_down();
        }
        Some(top)
    }

    /// Moves the entry at the root down to the bottom along the cheaper
    /// children, then up to its place.
    fn sift_down(&mut self)
        requires
            old(self).data@.len() > 0,
            forall|i: int|
                0 < i < old(self).data@.len() && parent(i) != 0 ==> #[trigger] in_order(
                    old(self).data@,
                    i,
                ),
        ensures
            final(self).wf(),
            final(self).entries() == old(self).entries(),
    {
        let end = self.data.len();
        let ghost before = self.entries();
        let mut pos: usize = 0;
        while pos < end / 2
            invariant
                end == self.data@.len(),
                pos < end,
                self.entries() == before,
                forall|i: int|
                    0 < i < end && i != pos && parent(i) != pos ==> #[trigger] in_order(
                        self.data@,
                        i,
                    ),
                pos > 0 ==> forall|i: int|
                    0 < i < end && parent(i) == pos ==> !(#[trigger] self.data@[i]).f_cost.lt(
                        self.data@[parent(pos as int)].f_cost,
                    ),
            decreases end - pos,
        {
            let left = 2 * pos + 1;
            let mut child = left;
            if left + 1 < end && !self.data[left].f_cost.lt(self.data[left + 1].f_cost) {
                child = left + 1;
            }
            let ghost s = self.data@;
            self.swap(pos, child);
            proof {
                let t = self.data@;
                assert forall|i: int|
                    0 < i < end && i != child && parent(i) != child implies #[trigger] in_order(
                    t,
                    i,
                ) by {
                    if i != pos && parent(i) != pos {
                        assert(in_order(s, i));
                    }
                }
                assert forall|i: int| 0 < i < end && parent(i) == child implies !(
                #[trigger] t[i]).f_cost.lt(t[parent(child as int)].f_cost) by {
                    assert(in_order(s, i));
                }
            }
            pos = child;
        }
        assert forall|i: int| 0 < i < end && i != pos implies #[trigger] in_order(
            self.data@,
            i,
        ) by {
            assert(parent(i) != pos);
        }
        self.sift_up(pos);
    }
}

/// In a heap of numbers the root is the least.
proof fn lemma_root_is_least(s: Seq<Entry>, i: int)
    requires
        0 <= i < s.len(),
        forall|j: int| 0 < j < s.len() ==> #[trigger] in_order(s, j),
        forall|j: int| 0 <= j < s.len() ==> !(#[trigger] s[j]).f_cost.nan(),
    ensures
        !s[i].f_cost.lt(s[0].f_cost),
    decreases i,
{
    if i > 0 {
        lemma_root_is_least(s, parent(i));
        assert(in_order(s, i));
        assert(!s[parent(i)].f_cost.nan());
    }
}

} // verus!
