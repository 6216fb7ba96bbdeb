//! The layout engine: a fixed number of visual slots, each holding one
//! content identifier, with slot 0 distinguished as "main". The only
//! mutation is `promote`, which swaps an identifier into the main slot.

use vstd::prelude::*;

verus! {

/// The fixed set of content panels that can occupy a slot.
#[derive(Clone, Copy, Debug, PartialEq, Eq, Structural)]
pub enum ContentId {
    Profile,
    Github,
    Contact,
    Future,
}

/// The panel that a numeric slot identifier denotes; unknown identifiers
/// fall back to the profile panel.
pub open spec fn content_of(id: usize) -> ContentId {
    if id == 1 {
        ContentId::Profile
    } else if id == 2 {
        ContentId::Github
    } else if id == 3 {
        ContentId::Contact
    } else if id == 4 {
        ContentId::Future
    } else {
        ContentId::Profile
    }
}

impl From<usize> for ContentId {
    /// Maps a numeric identifier to its panel.
    fn from(id: usize) -> (r: ContentId) {
        match id {
            1 => ContentId::Profile,
            2 => ContentId::Github,
            3 => ContentId::Contact,
            4 => ContentId::Future,
            _ => ContentId::Profile,
        }
    }
}

impl vstd::std_specs::convert::FromSpecImpl<usize> for ContentId {
    open spec fn obeys_from_spec() -> bool {
        true
    }

    open spec fn from_spec(id: usize) -> ContentId {
        content_of(id)
    }
}

/// How many visual slots the layout has, and so how many identifiers exist.
pub const SLOT_COUNT: usize = 4;

/// What promoting `target` does to an arrangement: nothing when `target` is
/// absent, otherwise a straight two-element swap of slot 0 and the slot that
/// holds `target`.
pub open spec fn spec_promote(s: Seq<usize>, target: usize) -> Seq<usize> {
    if s.contains(target) {
        s.update(0, target).update(s.index_of(target), s[0])
    } else {
        s
    }
}

/// The layout state: which content sits in which visual slot, plus a cache
/// of the main slot's identifier for O(1) comparison by the status bar.
pub struct LayoutState {
    /// `slots[k]` is the content identifier shown in visual slot `k`;
    /// slot 0 is the main (largest) slot.
    pub slots: Vec<usize>,
    /// Always equal to `slots[0]`.
    pub active_main_id: usize,
}

impl LayoutState {
    /// A layout is well formed when it is a permutation of the full
    /// identifier set `1 ..= SLOT_COUNT` (every identifier exactly once)
    /// and the cached main identifier matches slot 0.
    pub open spec fn wf(self) -> bool {
        &&& self.slots@.len() == SLOT_COUNT
        &&& forall|k: int|
            0 <= k < self.slots@.len() ==> 1 <= #[trigger] self.slots@[k] <= SLOT_COUNT
        &&& self.slots@.no_duplicates()
        &&& self.active_main_id == self.slots@[0]
    }

    /// The startup arrangement: profile in main, then the github feed, the
    /// contact card and the placeholder.
    pub fn new() -> (r: LayoutState)
        ensures
            r.wf(),
            r.slots@ == seq![1usize, 2, 3, 4],
            r.active_main_id == 1,
    {
        let mut slots: Vec<usize> = Vec::new();
        slots.push(1);
        slots.push(2);
        slots.push(3);
        slots.push(4);
        proof {
            assert(slots@ =~= seq![1usize, 2, 3, 4]);
        }
        LayoutState { slots, active_main_id: 1 }
    }

    /// Promotes `target_id` into the main slot by swapping it with the
    /// current main content. Promoting the current main, or an identifier
    /// not present in the layout, leaves the state unchanged.
    pub fn promote(&mut self, target_id: usize)
        requires
            old(self).wf(),
        ensures
            final(self).wf(),
            final(self).slots@ == spec_promote(old(self).slots@, target_id),
            final(self).slots@.to_multiset() == old(self).slots@.to_multiset(),
            old(self).slots@.contains(target_id) ==> final(self).slots@[0] == target_id
                && final(self).active_main_id == target_id,
            !old(self).slots@.contains(target_id) || target_id == old(self).slots@[0]
                ==> *final(self) == *old(self),
    {
        let ghost s = old(self).slots@;
        let n = self.slots.len();
        let mut pos: usize = 0;
        let mut found: bool = false;
        let mut k: usize = 0;
        while k < n
            invariant
                n == s.len(),
                self.slots@ == s,
                self.active_main_id == old(self).active_main_id,
                k <= n,
                !found ==> forall|j: int| 0 <= j < k ==> s[j] != target_id,
                found ==> pos < n && s[pos as int] == target_id,
            decreases n - k,
        {
            if self.slots[k] == target_id {
                pos = k;
                found = true;
            }
            k = k + 1;
        }
        if !found {
            proof {
                assert(!s.contains(target_id));
            }
            return ;
        }
        proof {
            assert(s.contains(target_id));
            lemma_index_of_unique(s, target_id, pos as int);
        }
        if pos == 0 {
            proof {
                assert(spec_promote(s, target_id) =~= s);
            }
            return ;
        }
        let main_id = self.slots[0];
        self.slots[0] = target_id;
        self.slots[pos] = main_id;
        self.active_main_id = target_id;
        proof {
            lemma_swap_with_front(s, pos as int);
            assert(final(self).slots@ == spec_promote(s, target_id));
            lemma_same_values_same_multiset(final(self).slots@, s);
        }
    }
}

/// In a duplicate-free sequence the index found by a linear scan is the
/// index that `index_of` names.
pub proof fn lemma_index_of_unique(s: Seq<usize>, target: usize, i: int)
    requires
        s.no_duplicates(),
        0 <= i < s.len(),
        s[i] == target,
    ensures
        s.index_of(target) == i,
{
    assert(s.contains(target));
    let j = s.index_of(target);
    assert(0 <= j < s.len() && s[j] == target);
}

/// Swapping slot 0 with slot `i` keeps the length, keeps the values, and
/// keeps the sequence duplicate-free.
pub proof fn lemma_swap_with_front(s: Seq<usize>, i: int)
    requires
        0 <= i < s.len(),
        s.no_duplicates(),
    ensures
        ({
            let t = s.update(0, s[i]).update(i, s[0]);
            &&& t.len() == s.len()
            &&& t.no_duplicates()
            &&& forall|x: usize| t.contains(x) <==> s.contains(x)
        }),
{
    let t = s.update(0, s[i]).update(i, s[0]);
    assert forall|x: usize| t.contains(x) implies s.contains(x) by {
        let k = choose|k: int| 0 <= k < t.len() && t[k] == x;
        if k == i {
            assert(s[0] == x);
        } else if k == 0 {
            assert(s[i] == x);
        } else {
            assert(s[k] == x);
        }
    }
    assert forall|x: usize| s.contains(x) implies t.contains(x) by {
        let k = choose|k: int| 0 <= k < s.len() && s[k] == x;
        if k == i {
            assert(t[0] == x);
        } else if k == 0 {
            assert(t[i] == x);
        } else {
            assert(t[k] == x);
        }
    }
}

/// Two duplicate-free sequences holding exactly the same values have the
/// same multiset of entries: each is a permutation of the other.
pub proof fn lemma_same_values_same_multiset(a: Seq<usize>, b: Seq<usize>)
    requires
        a.no_duplicates(),
        b.no_duplicates(),
        forall|x: usize| a.contains(x) <==> b.contains(x),
    ensures
        a.to_multiset() == b.to_multiset(),
{
    broadcast use vstd::seq_lib::group_to_multiset_ensures;

    a.lemma_multiset_has_no_duplicates();
    b.lemma_multiset_has_no_duplicates();
    assert forall|x: usize| a.to_multiset().count(x) == b.to_multiset().count(x) by {
        if a.contains(x) {
            assert(a.to_multiset().count(x) == 1);
            assert(b.to_multiset().count(x) == 1);
        } else {
            assert(a.to_multiset().count(x) == 0);
            assert(b.to_multiset().count(x) == 0);
        }
    }
    assert(a.to_multiset() =~= b.to_multiset());
}

/// Promoting a target and then promoting the content it displaced from the
/// main slot restores the original arrangement: the swap is self-inverse.
pub proof fn lemma_promote_self_inverse(s: Seq<usize>, target: usize)
    requires
        s.no_duplicates(),
        s.contains(target),
    ensures
        spec_promote(spec_promote(s, target), s[0]) == s,
{
    let i = s.index_of(target);
    assert(0 <= i < s.len() && s[i] == target);
    if i == 0 {
        assert(spec_promote(s, target) =~= s);
        lemma_index_of_unique(s, s[0], 0);
        assert(spec_promote(s, s[0]) =~= s);
    } else {
        let t = s.update(0, target).update(i, s[0]);
        lemma_swap_with_front(s, i);
        assert(t.contains(s[0])) by {
            assert(t[i] == s[0]);
        }
        lemma_index_of_unique(t, s[0], i);
        assert(spec_promote(t, s[0]) == t.update(0, s[0]).update(i, t[0]));
        assert(t.update(0, s[0]).update(i, t[0]) =~= s);
    }
}

} // verus!
