//! A small interface monitor: it compares the host's addresses with those it saw
//! last and counts the changes.
use crate::net::IpAddr;
use vstd::prelude::*;

verus! {

/// The interface monitor: the addresses seen last and how often they changed.
#[derive(Debug)]
pub struct NetMonitor {
    last: Vec<IpAddr>,
    generation: u64,
}

/// Whether each address of one list is in the other.
fn within(list: &Vec<IpAddr>, other: &Vec<IpAddr>) -> (r: bool)
    ensures
        r == list@.to_set().subset_of(other@.to_set()),
{
    let mut i: usize = 0;
    while i < list.len()
        invariant
            i <= list.len(),
            forall|k: int| 0 <= k < i ==> other@.contains(#[trigger] list@[k]),
        decreases list.len() - i,
    {
        let mut found = false;
        let mut j: usize = 0;
        while j < other.len()
            invariant
                i < list.len(),
                j <= other.len(),
                found == other@.take(j as int).contains(list@[i as int]),
            decreases other.len() - j,
        {
            if other[j].same(&list[i]) {
                found = true;
            }
            proof {
                let before = other@.take(j as int);
                let after = other@.take(j + 1);
                assert(after =~= before.push(other@[j as int]));
                assert(after[j as int] == other@[j as int]);
                if before.contains(list@[i as int]) {
                    let k = choose|k: int| 0 <= k < before.len() && before[k] == list@[i as int];
                    assert(after[k] == list@[i as int]);
                }
                if after.contains(list@[i as int]) && other@[j as int] != list@[i as int] {
                    let k = choose|k: int| 0 <= k < after.len() && after[k] == list@[i as int];
                    assert(before[k] == list@[i as int]);
                }
            }
            j += 1;
        }
        assert(other@.take(other@.len() as int) =~= other@);
        if !found {
            assert(list@.to_set().contains(list@[i as int]));
            assert(!other@.to_set().contains(list@[i as int]));
            return false;
        }
        i += 1;
    }
    assert forall|ip: IpAddr| list@.to_set().contains(ip) implies other@.to_set().contains(ip) by {
        let k = choose|k: int| 0 <= k < list@.len() && list@[k] == ip;
        assert(other@.contains(list@[k]));
    }
    true
}

impl NetMonitor {
    /// The addresses seen last.
    pub closed spec fn seen(self) -> Set<IpAddr> {
        self.last@.to_set()
    }

    /// How often they changed.
    pub closed spec fn count(self) -> u64 {
        self.generation
    }

    /// A monitor that has just seen `snapshot`.
    pub fn new(snapshot: Vec<IpAddr>) -> (r: Self)
        ensures
            r.seen() == snapshot@.to_set(),
            r.count() == 0,
    {
        NetMonitor { last: snapshot, generation: 0 }
    }

    /// How often the addresses changed.
    pub fn generation(&self) -> (r: u64)
        ensures
            r == self.count(),
    {
        self.generation
    }

    /// Look again, and say whether the addresses changed.  Order and duplicates are
    /// not a change.
    pub fn look(&mut self, snapshot: Vec<IpAddr>) -> (changed: bool)
        ensures
            changed == (snapshot@.to_set() != old(self).seen()),
            final(self).seen() == snapshot@.to_set(),
            final(self).count() == if !changed {
                old(self).count()
            } else if old(self).count() == u64::MAX {
                0
            } else {
                (old(self).count() + 1) as u64
            },
    {
        let same = within(&snapshot, &self.last) && within(&self.last, &snapshot);
        proof {
            if same {
                assert(snapshot@.to_set() =~= self.last@.to_set());
            }
        }
        self.last = snapshot;
        if !same {
            self.generation = self.generation.wrapping_add(1);
        }
        !same
    }
}

} // verus!
