//! The list of info hashes that the tracker serves, or refuses to serve.

use vstd::prelude::*;

use crate::common::InfoHash;
use crate::config::AccessListMode;

verus! {

/// A set of info hashes. Whether a listed hash is served or refused depends
/// on the mode the list is read in.
#[derive(Clone, Debug)]
pub struct AccessList {
    pub entries: Vec<InfoHash>,
}

impl View for AccessList {
    type V = Set<InfoHash>;

    open spec fn view(&self) -> Set<InfoHash> {
        self.entries@.to_set()
    }
}

/// Whether a list holding `listed` serves `info_hash` in `mode`.
pub open spec fn allowed(listed: Set<InfoHash>, mode: AccessListMode, info_hash: InfoHash) -> bool {
    match mode {
        AccessListMode::Off => true,
        AccessListMode::Allow => listed.contains(info_hash),
        AccessListMode::Deny => !listed.contains(info_hash),
    }
}

impl AccessList {
    pub fn new() -> (list: AccessList)
        ensures
            list@ == Set::<InfoHash>::empty(),
    {
        let list = AccessList { entries: Vec::new() };
        assert(list@ =~= Set::<InfoHash>::empty());
        list
    }

    /// Adds an info hash to the list.
    pub fn insert(&mut self, info_hash: InfoHash)
        ensures
            final(self)@ == old(self)@.insert(info_hash),
    {
        self.entries.push(info_hash);
        proof {
            let before = old(self).entries@;
            assert forall|h: InfoHash| self@.contains(h) == old(self)@.insert(info_hash).contains(
                h,
            ) by {
                if before.push(info_hash).contains(h) {
                    let i = choose|i: int|
                        0 <= i < before.push(info_hash).len() && before.push(info_hash)[i] == h;
                    if i < before.len() {
                        assert(before[i] == h);
                    }
                }
                if before.contains(h) {
                    let i = choose|i: int| 0 <= i < before.len() && before[i] == h;
                    assert(before.push(info_hash)[i] == h);
                }
                if h == info_hash {
                    assert(before.push(info_hash)[before.len() as int] == h);
                }
            }
            assert(self@ =~= old(self)@.insert(info_hash));
        }
    }

    /// Whether the list holds `info_hash`.
    pub fn contains(&self, info_hash: &InfoHash) -> (r: bool)
        ensures
            r == self@.contains(*info_hash),
    {
        let mut i: usize = 0;
        while i < self.entries.len()
            invariant
                i <= self.entries.len(),
                forall|j: int| 0 <= j < i ==> self.entries@[j] != *info_hash,
            decreases self.entries.len() - i,
        {
            if self.entries[i].same(info_hash) {
                assert(self.entries@.contains(*info_hash));
                return true;
            }
            i += 1;
        }
        false
    }

    /// Whether the tracker serves `info_hash` when the list is read in
    /// `mode`.
    pub fn allows(&self, mode: AccessListMode, info_hash: &InfoHash) -> (r: bool)
        ensures
            r == allowed(self@, mode, *info_hash),
    {
        match mode {
            AccessListMode::Off => true,
            AccessListMode::Allow => self.contains(info_hash),
            AccessListMode::Deny => !self.contains(info_hash),
        }
    }
}

} // verus!
