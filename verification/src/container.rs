//! A set of identifiers that an object carries, with ancestry queries.

use vstd::prelude::*;
use std::collections::HashSet;
use crate::layout::{gid_is_descendant_of, spec_is_descendant, GID};

verus! {

broadcast use vstd::std_specs::hash::group_hash_axioms;

/// The tags of one object: a set of identifiers.
#[derive(Debug, PartialEq, Eq)]
pub struct TagContainer {
    tags: HashSet<GID>,
}

impl View for TagContainer {
    type V = Set<u128>;

    closed spec fn view(&self) -> Set<u128> {
        self.tags@
    }
}

/// The tags among `tags` that lie in the subtree of `ancestor`.
pub open spec fn tags_under(tags: Set<u128>, ancestor: u128) -> Set<u128> {
    tags.filter(|g: u128| spec_is_descendant(g, ancestor))
}

impl TagContainer {
    /// A container without tags.
    pub fn new() -> (container: Self)
        ensures
            container@ == Set::<u128>::empty(),
    {
        TagContainer { tags: HashSet::new() }
    }

    /// A container with one tag.
    pub fn single(gid: GID) -> (container: Self)
        ensures
            container@ == Set::<u128>::empty().insert(gid),
    {
        let mut tags: HashSet<GID> = HashSet::new();
        tags.insert(gid);
        TagContainer { tags }
    }

    /// The container with `gid` added.
    pub fn with(self, gid: GID) -> (container: Self)
        ensures
            container@ == self@.insert(gid),
    {
        let mut tags: HashSet<GID> = self.tags;
        tags.insert(gid);
        TagContainer { tags }
    }

    /// Adds a tag; tells whether it was new.
    pub fn insert(&mut self, gid: GID) -> (added: bool)
        ensures
            final(self)@ == old(self)@.insert(gid),
            added == !old(self)@.contains(gid),
    {
        self.tags.insert(gid)
    }

    /// Removes a tag; tells whether it was there.
    pub fn remove(&mut self, gid: GID) -> (removed: bool)
        ensures
            final(self)@ == old(self)@.remove(gid),
            removed == old(self)@.contains(gid),
    {
        self.tags.remove(&gid)
    }

    /// Whether the container holds `gid`.
    pub fn has(&self, gid: GID) -> (found: bool)
        ensures
            found == self@.contains(gid),
    {
        self.tags.contains(&gid)
    }

    /// All tags, each once, in no particular order.
    pub fn iter(&self) -> (all: Vec<GID>)
        ensures
            all@.no_duplicates(),
            all@.to_set() == self@,
    {
        let mut all: Vec<GID> = Vec::new();
        for g in it: self.tags.iter()
            invariant
                all@ == it.seq().unref().take(it.index()),
                it.seq().unref().to_set() == self.tags@,
                it.seq().unref().no_duplicates(),
                all@.no_duplicates(),
                all@.to_set().subset_of(self.tags@),
                it.index() == it.seq().len() ==> all@.to_set() == self.tags@,
        {
            all.push(*g);
            proof {
                let whole = it.seq().unref();
                let n = it.index() + 1;
                assert(whole.take(n) =~= whole.take(n - 1).push(*g));
                assert(all@ =~= whole.take(n));
                if n == whole.len() {
                    assert(whole.take(n) =~= whole);
                }
                assert(all@.to_set().subset_of(self.tags@)) by {
                    assert forall|x: u128| all@.to_set().contains(x) implies self.tags@.contains(
                        x,
                    ) by {
                        let i = choose|i: int| 0 <= i < all@.len() && all@[i] == x;
                        assert(whole[i] == x);
                        assert(whole.to_set().contains(x));
                    }
                }
            }
        }
        all
    }

    /// The tags that lie in the subtree of `ancestor`, each once, in no
    /// particular order.
    pub fn descendants_of(&self, ancestor: GID) -> (found: Vec<GID>)
        ensures
            found@.no_duplicates(),
            found@.to_set() == tags_under(self@, ancestor),
    {
        let all: Vec<GID> = self.iter();
        let mut found: Vec<GID> = Vec::new();
        let mut i: usize = 0;
        while i < all.len()
            invariant
                i <= all@.len(),
                all@.no_duplicates(),
                found@.no_duplicates(),
                forall|x: u128|
                    found@.contains(x) <==> (exists|j: int|
                        0 <= j < i && all@[j] == x && spec_is_descendant(x, ancestor)),
            decreases all@.len() - i,
        {
            let gid: GID = all[i];
            let ghost before = found@;
            if gid_is_descendant_of(gid, ancestor) {
                found.push(gid);
                proof {
                    assert(!before.contains(gid)) by {
                        if before.contains(gid) {
                            let j = choose|j: int|
                                0 <= j < i && all@[j] == gid && spec_is_descendant(gid, ancestor);
                            assert(all@[j] == all@[i as int]);
                        }
                    }
                    assert forall|a: int, b: int|
                        0 <= a < found@.len() && 0 <= b < found@.len() && a != b implies found@[a]
                        != found@[b] by {
                        if a < before.len() {
                            assert(before.contains(found@[a]));
                        }
                        if b < before.len() {
                            assert(before.contains(found@[b]));
                        }
                    }
                    assert forall|x: u128| found@.contains(x) <==> (exists|j: int|
                        0 <= j < i + 1 && all@[j] == x && spec_is_descendant(x, ancestor)) by {
                        if found@.contains(x) {
                            let a = choose|a: int| 0 <= a < found@.len() && found@[a] == x;
                            if a < before.len() {
                                assert(before.contains(x));
                                let j = choose|j: int|
                                    0 <= j < i && all@[j] == x && spec_is_descendant(x, ancestor);
                                assert(0 <= j < i + 1 && all@[j] == x);
                            } else {
                                assert(all@[i as int] == x);
                            }
                        }
                        if exists|j: int|
                            0 <= j < i + 1 && all@[j] == x && spec_is_descendant(x, ancestor) {
                            let j = choose|j: int|
                                0 <= j < i + 1 && all@[j] == x && spec_is_descendant(x, ancestor);
                            if j < i {
                                assert(before.contains(x));
                                let a = choose|a: int| 0 <= a < before.len() && before[a] == x;
                                assert(found@[a] == x);
                            } else {
                                assert(found@[before.len() as int] == x);
                            }
                        }
                    }
                }
            } else {
                proof {
                    assert forall|x: u128| found@.contains(x) <==> (exists|j: int|
                        0 <= j < i + 1 && all@[j] == x && spec_is_descendant(x, ancestor)) by {
                        if found@.contains(x) {
                            let j = choose|j: int|
                                0 <= j < i && all@[j] == x && spec_is_descendant(x, ancestor);
                            assert(0 <= j < i + 1 && all@[j] == x);
                        }
                        if exists|j: int|
                            0 <= j < i + 1 && all@[j] == x && spec_is_descendant(x, ancestor) {
                            let j = choose|j: int|
                                0 <= j < i + 1 && all@[j] == x && spec_is_descendant(x, ancestor);
                            assert(j < i);
                        }
                    }
                }
            }
            i += 1;
        }
        proof {
            assert forall|x: u128| found@.to_set().contains(x) <==> tags_under(
                self@,
                ancestor,
            ).contains(x) by {
                if found@.contains(x) {
                    let j = choose|j: int|
                        0 <= j < i && all@[j] == x && spec_is_descendant(x, ancestor);
                    assert(all@.to_set().contains(x));
                }
                if tags_under(self@, ancestor).contains(x) {
                    assert(all@.to_set().contains(x));
                    let j = choose|j: int| 0 <= j < all@.len() && all@[j] == x;
                    assert(0 <= j < i && all@[j] == x && spec_is_descendant(x, ancestor));
                }
            }
            assert(found@.to_set() =~= tags_under(self@, ancestor));
        }
        found
    }

    /// Whether some tag lies in the subtree of `ancestor`.
    pub fn has_descendant_of(&self, ancestor: GID) -> (found: bool)
        ensures
            found == exists|g: u128| self@.contains(g) && spec_is_descendant(g, ancestor),
    {
        let under: Vec<GID> = self.descendants_of(ancestor);
        proof {
            if under@.len() > 0 {
                assert(under@.to_set().contains(under@[0]));
                assert(tags_under(self@, ancestor).contains(under@[0]));
            }
            if exists|g: u128| self@.contains(g) && spec_is_descendant(g, ancestor) {
                let g = choose|g: u128| self@.contains(g) && spec_is_descendant(g, ancestor);
                assert(tags_under(self@, ancestor).contains(g));
                assert(under@.to_set().contains(g));
            }
        }
        under.len() > 0
    }

    /// The number of tags.
    pub fn len(&self) -> (n: usize)
        ensures
            n == self@.len(),
    {
        self.tags.len()
    }

    /// Whether the container holds no tag.
    pub fn is_empty(&self) -> (empty: bool)
        ensures
            empty == self@.is_empty(),
    {
        self.tags.is_empty()
    }

    /// Removes all tags.
    pub fn clear(&mut self)
        ensures
            final(self)@ == Set::<u128>::empty(),
    {
        self.tags.clear();
    }

    /// A container with the given tags.
    pub fn from_iter(gids: Vec<GID>) -> (container: Self)
        ensures
            container@ == gids@.to_set(),
    {
        let mut container = TagContainer::new();
        container.extend(gids);
        proof {
            assert(container@ =~= gids@.to_set());
        }
        container
    }

    /// Adds the given tags.
    pub fn extend(&mut self, gids: Vec<GID>)
        ensures
            final(self)@ == old(self)@.union(gids@.to_set()),
    {
        let mut i: usize = 0;
        while i < gids.len()
            invariant
                i <= gids@.len(),
                self@ == old(self)@.union(gids@.take(i as int).to_set()),
            decreases gids@.len() - i,
        {
            self.tags.insert(gids[i]);
            proof {
                assert(gids@.take(i + 1) =~= gids@.take(i as int).push(gids@[i as int]));
                assert(gids@.take(i + 1).to_set() =~= gids@.take(i as int).to_set().insert(
                    gids@[i as int],
                )) by {
                    let a = gids@.take(i as int);
                    let x = gids@[i as int];
                    assert forall|y: u128| a.push(x).to_set().contains(y) <==> a.to_set().insert(
                        x,
                    ).contains(y) by {
                        if a.push(x).contains(y) {
                            let j = choose|j: int| 0 <= j < a.push(x).len() && a.push(x)[j] == y;
                            if j < a.len() {
                                assert(a[j] == y);
                            }
                        }
                        if a.contains(y) {
                            let j = choose|j: int| 0 <= j < a.len() && a[j] == y;
                            assert(a.push(x)[j] == y);
                        }
                        if y == x {
                            assert(a.push(x)[a.len() as int] == y);
                        }
                    }
                }
                assert(self@ =~= old(self)@.union(gids@.take(i + 1).to_set()));
            }
            i += 1;
        }
        proof {
            assert(gids@.take(i as int) =~= gids@);
        }
    }
}

impl Clone for TagContainer {
    fn clone(&self) -> (copy: Self)
        ensures
            copy@ == self@,
    {
        TagContainer::from_iter(self.iter())
    }
}

impl Default for TagContainer {
    fn default() -> (container: Self)
        ensures
            container@ == Set::<u128>::empty(),
    {
        TagContainer::new()
    }
}

} // verus!
