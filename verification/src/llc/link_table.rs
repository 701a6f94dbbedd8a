//! The advanced links that the LLC knows.

use crate::llc::al_link::{AlLink, AlLinkKey, AlLinkView};
use vstd::prelude::*;

verus! {

/// The links of a table, each by what it holds.
pub open spec fn link_views(s: Seq<AlLink>) -> Seq<AlLinkView> {
    Seq::new(s.len(), |i: int| s[i]@)
}

/// Link `i` has the given key.
pub open spec fn has_key(links: Seq<AlLinkView>, key: AlLinkKey, i: int) -> bool {
    0 <= i < links.len() && links[i].key == key
}

/// No two links share a key.
pub open spec fn keys_unique(links: Seq<AlLinkView>) -> bool {
    forall|i: int, j: int|
        0 <= i < j < links.len() ==> (#[trigger] links[i]).key != (#[trigger] links[j]).key
}

/// Every link is well formed and no two share a key.
pub open spec fn links_wf(links: Seq<AlLinkView>) -> bool {
    &&& keys_unique(links)
    &&& forall|i: int| 0 <= i < links.len() ==> (#[trigger] links[i]).wf()
}

/// The place of the link with the given key, if there is one.
pub open spec fn link_pos(links: Seq<AlLinkView>, key: AlLinkKey) -> Option<int> {
    if exists|i: int| has_key(links, key, i) {
        Some(choose|i: int| has_key(links, key, i))
    } else {
        None
    }
}

/// The link with the given key, if there is one.
pub open spec fn find_link(links: Seq<AlLinkView>, key: AlLinkKey) -> Option<AlLinkView> {
    match link_pos(links, key) {
        Some(i) => Some(links[i]),
        None => None,
    }
}

/// The table with `link` in place of the link that has its key, or added to it.
pub open spec fn put_link(links: Seq<AlLinkView>, link: AlLinkView) -> Seq<AlLinkView> {
    match link_pos(links, link.key) {
        Some(i) => links.update(i, link),
        None => links.push(link),
    }
}

/// The table without the link that has the given key.
pub open spec fn drop_link(links: Seq<AlLinkView>, key: AlLinkKey) -> Seq<AlLinkView> {
    match link_pos(links, key) {
        Some(i) => links.remove(i),
        None => links,
    }
}

/// With unique keys, the place of a link is the only one with its key.
pub proof fn lemma_link_pos(links: Seq<AlLinkView>, key: AlLinkKey, i: int)
    requires
        keys_unique(links),
        has_key(links, key, i),
    ensures
        link_pos(links, key) == Some(i),
        find_link(links, key) == Some(links[i]),
{
    let c = choose|j: int| has_key(links, key, j);
    assert(has_key(links, key, c));
    if c < i {
        assert(links[c].key != links[i].key);
    }
    if i < c {
        assert(links[i].key != links[c].key);
    }
}

/// Storing a well-formed link keeps the table well formed, and the link is found
/// again.
pub proof fn lemma_put_link(links: Seq<AlLinkView>, link: AlLinkView)
    requires
        links_wf(links),
        link.wf(),
    ensures
        links_wf(put_link(links, link)),
        find_link(put_link(links, link), link.key) == Some(link),
{
    let after = put_link(links, link);
    match link_pos(links, link.key) {
        Some(i) => {
            assert(has_key(links, link.key, i));
            assert forall|a: int, b: int| 0 <= a < b < after.len() implies (
            #[trigger] after[a]).key != (#[trigger] after[b]).key by {
                assert(links[a].key != links[b].key);
            }
            assert(has_key(after, link.key, i));
            lemma_link_pos(after, link.key, i);
        },
        None => {
            assert forall|a: int, b: int| 0 <= a < b < after.len() implies (
            #[trigger] after[a]).key != (#[trigger] after[b]).key by {
                if b < links.len() {
                    assert(links[a].key != links[b].key);
                } else {
                    assert(!has_key(links, link.key, a));
                }
            }
            assert(has_key(after, link.key, links.len() as int));
            lemma_link_pos(after, link.key, links.len() as int);
        },
    }
}

/// Dropping a link keeps the table well formed, and the key is free.
pub proof fn lemma_drop_link(links: Seq<AlLinkView>, key: AlLinkKey)
    requires
        links_wf(links),
    ensures
        links_wf(drop_link(links, key)),
        find_link(drop_link(links, key), key) is None,
{
    let after = drop_link(links, key);
    match link_pos(links, key) {
        Some(i) => {
            assert(has_key(links, key, i));
            assert forall|a: int, b: int| 0 <= a < b < after.len() implies (
            #[trigger] after[a]).key != (#[trigger] after[b]).key by {
                let a0 = if a < i {
                    a
                } else {
                    a + 1
                };
                let b0 = if b < i {
                    b
                } else {
                    b + 1
                };
                assert(links[a0].key != links[b0].key);
            }
            assert forall|a: int| 0 <= a < after.len() implies (#[trigger] after[a]).wf() by {
                let a0 = if a < i {
                    a
                } else {
                    a + 1
                };
                assert(links[a0].wf());
            }
            assert forall|a: int| !has_key(after, key, a) by {
                if has_key(after, key, a) {
                    if a < i {
                        assert(links[a].key != links[i].key);
                    } else {
                        assert(links[i].key != links[a + 1].key);
                    }
                }
            }
        },
        None => {},
    }
}

/// Table of advanced links, at most one for each key.
pub struct AlLinkTable {
    pub links: Vec<AlLink>,
}

impl View for AlLinkTable {
    type V = Seq<AlLinkView>;

    open spec fn view(&self) -> Seq<AlLinkView> {
        link_views(self.links@)
    }
}

impl AlLinkTable {
    /// An empty table.
    pub fn new() -> (r: AlLinkTable)
        ensures
            r@ == Seq::<AlLinkView>::empty(),
    {
        let r = AlLinkTable { links: Vec::new() };
        assert(r@ =~= Seq::<AlLinkView>::empty());
        r
    }

    /// Number of links.
    pub fn len(&self) -> (r: usize)
        ensures
            r == self@.len(),
    {
        self.links.len()
    }

    /// True when there is no link.
    pub fn is_empty(&self) -> (r: bool)
        ensures
            r == (self@.len() == 0),
    {
        self.links.len() == 0
    }

    /// The place of the link with the given key.
    pub fn find(&self, key: &AlLinkKey) -> (r: Option<usize>)
        requires
            keys_unique(self@),
        ensures
            match r {
                Some(i) => link_pos(self@, *key) == Some(i as int) && has_key(
                    self@,
                    *key,
                    i as int,
                ) && i < self.links@.len() && find_link(self@, *key) == Some(self.links@[i as int]@),
                None => link_pos(self@, *key) is None,
            },
    {
        let mut i: usize = 0;
        while i < self.links.len()
            invariant
                i <= self.links@.len(),
                keys_unique(self@),
                forall|j: int| 0 <= j < i ==> !has_key(self@, *key, j),
            decreases self.links@.len() - i,
        {
            if self.links[i].key == *key {
                assert(has_key(self@, *key, i as int));
                proof {
                    lemma_link_pos(self@, *key, i as int);
                }
                return Some(i);
            }
            assert(self@[i as int].key != *key);
            i = i + 1;
        }
        None
    }

    /// True when a link has the given key.
    pub fn contains_key(&self, key: &AlLinkKey) -> (r: bool)
        requires
            keys_unique(self@),
        ensures
            r == (find_link(self@, *key) is Some),
    {
        self.find(key).is_some()
    }

    /// The link with the given key.
    pub fn get(&self, key: &AlLinkKey) -> (r: Option<&AlLink>)
        requires
            keys_unique(self@),
        ensures
            match r {
                Some(l) => find_link(self@, *key) == Some(l@),
                None => find_link(self@, *key) is None,
            },
    {
        match self.find(key) {
            Some(i) => Some(&self.links[i]),
            None => None,
        }
    }

    /// The link with the given key, to be changed in place.
    pub fn get_mut(&mut self, key: &AlLinkKey) -> (r: Option<&mut AlLink>)
        requires
            keys_unique(old(self)@),
        ensures
            match r {
                Some(l) => find_link(old(self)@, *key) == Some(l@) && final(self)@ == old(
                    self,
                )@.update(link_pos(old(self)@, *key)->0, final(l)@),
                None => find_link(old(self)@, *key) is None && final(self)@ == old(self)@,
            },
    {
        match self.find(key) {
            Some(i) => {
                let l: &mut AlLink = &mut self.links[i];
                Some(l)
            },
            None => None,
        }
    }

    /// Stores a link under its key.
    pub fn insert(&mut self, link: AlLink)
        requires
            links_wf(old(self)@),
            link@.wf(),
        ensures
            final(self)@ == put_link(old(self)@, link@),
            links_wf(final(self)@),
    {
        proof {
            lemma_put_link(self@, link@);
        }
        match self.find(&link.key) {
            Some(i) => {
                self.links.set(i, link);
                assert(self@ =~= put_link(old(self)@, link@));
            },
            None => {
                self.links.push(link);
                assert(self@ =~= put_link(old(self)@, link@));
            },
        }
    }

    /// Removes the link with the given key.
    pub fn remove(&mut self, key: &AlLinkKey)
        requires
            links_wf(old(self)@),
        ensures
            final(self)@ == drop_link(old(self)@, *key),
            links_wf(final(self)@),
            find_link(final(self)@, *key) is None,
    {
        proof {
            lemma_drop_link(self@, *key);
        }
        if let Some(i) = self.find(key) {
            self.links.remove(i);
            assert(self@ =~= drop_link(old(self)@, *key));
        }
    }
}

} // verus!
