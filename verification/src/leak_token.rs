//! Leak accounting: how many objects of each tag are alive. Creating a
//! token counts one up for its tag, dropping it counts one down; a tag whose
//! count is not zero at the end leaks.

use vstd::prelude::*;

verus! {

/// The live count of each tag seen so far, in the order the tags were
/// first seen; no tag occurs twice.
pub struct LeakRegistry {
    pub entries: Vec<(u64, usize)>,
}

/// `m` after one more object of `tag` came alive.
pub open spec fn remembered(m: Map<u64, usize>, tag: u64) -> Map<u64, usize> {
    m.insert(tag, if m.contains_key(tag) { (m[tag] + 1) as usize } else { 1 })
}

/// `m` after one object of `tag` went away.
pub open spec fn forgotten(m: Map<u64, usize>, tag: u64) -> Map<u64, usize> {
    m.insert(tag, (m[tag] - 1) as usize)
}

/// How many objects of `tag` are alive: zero for a tag never seen.
pub open spec fn live_count(m: Map<u64, usize>, tag: u64) -> int {
    if m.contains_key(tag) { m[tag] as int } else { 0 }
}

impl LeakRegistry {
    pub open spec fn wf(self) -> bool {
        forall|i: int, j: int| 0 <= i < j < self.entries@.len() ==> (#[trigger] self.entries@[i]).0 != (#[trigger] self.entries@[j]).0
    }

    /// The count of each tag seen so far.
    pub open spec fn view(self) -> Map<u64, usize> {
        Map::new(
            |t: u64| exists|i: int| 0 <= i < self.entries@.len() && (#[trigger] self.entries@[i]).0 == t,
            |t: u64| self.entries@[choose|i: int| 0 <= i < self.entries@.len() && (#[trigger] self.entries@[i]).0 == t].1,
        )
    }

    proof fn lemma_view_at(self, i: int)
        requires
            self.wf(),
            0 <= i < self.entries@.len(),
        ensures
            self.view().contains_key(self.entries@[i].0),
            self.view()[self.entries@[i].0] == self.entries@[i].1,
    {
        let t = self.entries@[i].0;
        assert(0 <= i < self.entries@.len() && self.entries@[i].0 == t);
        let k = choose|k: int| 0 <= k < self.entries@.len() && (#[trigger] self.entries@[k]).0 == t;
        if k != i {
            if k < i {
                assert(self.entries@[k].0 != self.entries@[i].0);
            } else {
                assert(self.entries@[i].0 != self.entries@[k].0);
            }
        }
    }

    /// A registry that has seen no tag.
    pub fn new() -> (r: LeakRegistry)
        ensures
            r.wf(),
            r.view() == Map::<u64, usize>::empty(),
    {
        let r = LeakRegistry { entries: Vec::new() };
        proof {
            assert(r.view() =~= Map::<u64, usize>::empty());
        }
        r
    }

    /// Counts one more live object of `tag`.
    pub fn remember(&mut self, tag: u64)
        requires
            old(self).wf(),
            old(self).view().contains_key(tag) ==> old(self).view()[tag] < usize::MAX,
        ensures
            final(self).wf(),
            final(self).view() == remembered(old(self).view(), tag),
    {
        let mut i: usize = 0;
        while i < self.entries.len()
            invariant
                self.wf(),
                *self == *old(self),
                old(self).view().contains_key(tag) ==> old(self).view()[tag] < usize::MAX,
                0 <= i <= self.entries@.len(),
                forall|j: int| 0 <= j < i ==> (#[trigger] self.entries@[j]).0 != tag,
            decreases self.entries@.len() - i,
        {
            let (t, c) = self.entries[i];
            if t == tag {
                proof {
                    old(self).lemma_view_at(i as int);
                }
                self.entries.set(i, (t, c + 1));
                proof {
                    assert forall|k: u64| #[trigger] self.view().contains_key(k) == remembered(old(self).view(), tag).contains_key(k) by {
                        assert(self.entries@[i as int].0 == tag);
                        if remembered(old(self).view(), tag).contains_key(k) && k != tag {
                            let j = choose|j: int| 0 <= j < old(self).entries@.len() && (#[trigger] old(self).entries@[j]).0 == k;
                            assert(self.entries@[j].0 == k);
                        }
                        if self.view().contains_key(k) {
                            let j = choose|j: int| 0 <= j < self.entries@.len() && (#[trigger] self.entries@[j]).0 == k;
                            assert(old(self).entries@[j].0 == k);
                        }
                    }
                    assert forall|k: u64| #[trigger] self.view().contains_key(k) implies self.view()[k] == remembered(old(self).view(), tag)[k] by {
                        let j = choose|j: int| 0 <= j < self.entries@.len() && (#[trigger] self.entries@[j]).0 == k;
                        self.lemma_view_at(j);
                        old(self).lemma_view_at(j);
                    }
                    assert(self.view() =~= remembered(old(self).view(), tag));
                }
                return;
            }
            i = i + 1;
        }
        proof {
            assert(!old(self).view().contains_key(tag));
        }
        self.entries.push((tag, 1));
        proof {
            let n = old(self).entries@.len() as int;
            assert forall|a: int, b: int| 0 <= a < b < self.entries@.len() implies (#[trigger] self.entries@[a]).0 != (#[trigger] self.entries@[b]).0 by {
                if b < n {
                    assert(old(self).entries@[a] == self.entries@[a] && old(self).entries@[b] == self.entries@[b]);
                }
            }
            assert forall|k: u64| #[trigger] self.view().contains_key(k) == remembered(old(self).view(), tag).contains_key(k) by {
                if remembered(old(self).view(), tag).contains_key(k) {
                    if k == tag {
                        assert(self.entries@[n].0 == k);
                    } else {
                        let j = choose|j: int| 0 <= j < old(self).entries@.len() && (#[trigger] old(self).entries@[j]).0 == k;
                        assert(self.entries@[j].0 == k);
                    }
                }
                if self.view().contains_key(k) && k != tag {
                    let j = choose|j: int| 0 <= j < self.entries@.len() && (#[trigger] self.entries@[j]).0 == k;
                    assert(old(self).entries@[j].0 == k);
                }
            }
            assert forall|k: u64| #[trigger] self.view().contains_key(k) implies self.view()[k] == remembered(old(self).view(), tag)[k] by {
                let j = choose|j: int| 0 <= j < self.entries@.len() && (#[trigger] self.entries@[j]).0 == k;
                self.lemma_view_at(j);
                if j < n {
                    old(self).lemma_view_at(j);
                }
            }
            assert(self.view() =~= remembered(old(self).view(), tag));
        }
    }

    /// Counts one live object of `tag` less; the tag must have been seen
    /// and have a live object.
    pub fn forget(&mut self, tag: u64)
        requires
            old(self).wf(),
            old(self).view().contains_key(tag),
            old(self).view()[tag] > 0,
        ensures
            final(self).wf(),
            final(self).view() == forgotten(old(self).view(), tag),
    {
        let ghost j0 = choose|j: int| 0 <= j < old(self).entries@.len() && (#[trigger] old(self).entries@[j]).0 == tag;
        let mut i: usize = 0;
        while i < self.entries.len()
            invariant
                self.wf(),
                *self == *old(self),
                old(self).view().contains_key(tag),
                old(self).view()[tag] > 0,
                0 <= i <= self.entries@.len(),
                0 <= j0 < self.entries@.len(),
                self.entries@[j0].0 == tag,
                forall|j: int| 0 <= j < i ==> (#[trigger] self.entries@[j]).0 != tag,
            decreases self.entries@.len() - i,
        {
            let (t, c) = self.entries[i];
            if t == tag {
                proof {
                    old(self).lemma_view_at(i as int);
                }
                self.entries.set(i, (t, c - 1));
                proof {
                    assert forall|k: u64| #[trigger] self.view().contains_key(k) == forgotten(old(self).view(), tag).contains_key(k) by {
                        assert(self.entries@[i as int].0 == tag);
                        if forgotten(old(self).view(), tag).contains_key(k) && k != tag {
                            let j = choose|j: int| 0 <= j < old(self).entries@.len() && (#[trigger] old(self).entries@[j]).0 == k;
                            assert(self.entries@[j].0 == k);
                        }
                        if self.view().contains_key(k) {
                            let j = choose|j: int| 0 <= j < self.entries@.len() && (#[trigger] self.entries@[j]).0 == k;
                            assert(old(self).entries@[j].0 == k);
                        }
                    }
                    assert forall|k: u64| #[trigger] self.view().contains_key(k) implies self.view()[k] == forgotten(old(self).view(), tag)[k] by {
                        let j = choose|j: int| 0 <= j < self.entries@.len() && (#[trigger] self.entries@[j]).0 == k;
                        self.lemma_view_at(j);
                        old(self).lemma_view_at(j);
                    }
                    assert(self.view() =~= forgotten(old(self).view(), tag));
                }
                return;
            }
            i = i + 1;
        }
        proof {
            assert(self.entries@[j0].0 != tag);
        }
    }
}

/// The tags that leak, each with its live count, in the order the tags
/// were first seen: every tag whose count is not zero, and no other.
pub fn validate_leak(registry: &LeakRegistry) -> (leaks: Vec<(u64, usize)>)
    ensures
        leaks@ == registry.entries@.filter(|e: (u64, usize)| e.1 != 0),
{
    let mut leaks: Vec<(u64, usize)> = Vec::new();
    let mut i: usize = 0;
    while i < registry.entries.len()
        invariant
            0 <= i <= registry.entries@.len(),
            leaks@ == registry.entries@.subrange(0, i as int).filter(|e: (u64, usize)| e.1 != 0),
        decreases registry.entries@.len() - i,
    {
        let entry = registry.entries[i];
        proof {
            let s = registry.entries@.subrange(0, i + 1);
            assert(s.drop_last() =~= registry.entries@.subrange(0, i as int));
            assert(s.last() == entry);
            reveal_with_fuel(Seq::filter, 1);
        }
        if entry.1 != 0 {
            leaks.push(entry);
        }
        i = i + 1;
    }
    proof {
        assert(registry.entries@.subrange(0, i as int) =~= registry.entries@);
    }
    leaks
}

/// A token dropped after one was created leaves the live count of every
/// tag as it was.
pub proof fn lemma_remember_then_forget(before: Map<u64, usize>, tag: u64)
    requires
        before.contains_key(tag) ==> before[tag] < usize::MAX,
    ensures
        remembered(before, tag).contains_key(tag),
        remembered(before, tag)[tag] > 0,
        forall|t: u64| #[trigger] live_count(forgotten(remembered(before, tag), tag), t) == live_count(before, t),
{
}

} // verus!
