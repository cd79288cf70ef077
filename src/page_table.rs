use vstd::prelude::*;
use crate::abi::Asid;
use crate::frame::PAGE_SIZE;

verus! {

/// End of the user part of every address space.
pub const USER_LIMIT: usize = 0x8000_0000;

/// Attribute bits of a leaf, in the order of their bit positions.
#[derive(Clone, Copy, Debug, PartialEq, Eq, Structural)]
pub struct Attr {
    pub readable: bool,
    pub writable: bool,
    pub executable: bool,
    pub user: bool,
    pub shared: bool,
    pub copy_on_write: bool,
    pub device: bool,
}

/// Number of attribute bits; a larger value is malformed.
pub const ATTR_BITS_LIMIT: usize = 128;

pub open spec fn bit(b: bool, weight: int) -> int {
    if b {
        weight
    } else {
        0
    }
}

/// The integer encoding of an attribute set.
pub open spec fn attr_bits(a: Attr) -> int {
    bit(a.readable, 1) + bit(a.writable, 2) + bit(a.executable, 4) + bit(a.user, 8) + bit(
        a.shared,
        16,
    ) + bit(a.copy_on_write, 32) + bit(a.device, 64)
}

impl Attr {
    /// Readable, writable user memory.
    pub fn user_default() -> (r: Attr)
        ensures
            r == (Attr {
                readable: true,
                writable: true,
                executable: false,
                user: true,
                shared: false,
                copy_on_write: false,
                device: false,
            }),
    {
        Attr {
            readable: true,
            writable: true,
            executable: false,
            user: true,
            shared: false,
            copy_on_write: false,
            device: false,
        }
    }

    /// Decodes an attribute word; `None` when bits above the known ones are set.
    pub fn from_bits(bits: usize) -> (r: Option<Attr>)
        ensures
            bits < ATTR_BITS_LIMIT <==> r is Some,
            r matches Some(a) ==> attr_bits(a) == bits,
    {
        if bits >= ATTR_BITS_LIMIT {
            return None;
        }
        let b0 = bits;
        let b1 = b0 / 2;
        let b2 = b1 / 2;
        let b3 = b2 / 2;
        let b4 = b3 / 2;
        let b5 = b4 / 2;
        let b6 = b5 / 2;
        assert(b6 / 2 == 0);
        let a = Attr {
            readable: b0 % 2 == 1,
            writable: b1 % 2 == 1,
            executable: b2 % 2 == 1,
            user: b3 % 2 == 1,
            shared: b4 % 2 == 1,
            copy_on_write: b5 % 2 == 1,
            device: b6 % 2 == 1,
        };
        Some(a)
    }

    /// Encodes the attribute set as a word.
    pub fn to_bits(&self) -> (r: usize)
        ensures
            r == attr_bits(*self),
            r < ATTR_BITS_LIMIT,
    {
        (if self.readable { 1usize } else { 0 }) + (if self.writable { 2usize } else { 0 }) + (
        if self.executable { 4usize } else { 0 }) + (if self.user { 8usize } else { 0 }) + (
        if self.shared { 16usize } else { 0 }) + (if self.copy_on_write { 32usize } else { 0 })
            + (if self.device { 64usize } else { 0 })
    }
}

/// A leaf: the frame a page maps to, with its attributes.
#[derive(Clone, Copy, Debug, PartialEq, Eq, Structural)]
pub struct Pte {
    pub pa: usize,
    pub attr: Attr,
}

/// One installed leaf of one address space.
#[derive(Clone, Copy, Debug)]
pub struct Mapping {
    pub asid: Asid,
    pub va: usize,
    pub pte: Pte,
}

/// Why an insertion was refused.
#[derive(Clone, Copy, Debug, PartialEq, Eq, Structural)]
pub enum MapError {
    AlreadyMapped,
}

/// `va` is the start of a user page.
pub open spec fn user_page(va: int) -> bool {
    0 <= va < USER_LIMIT && va % PAGE_SIZE as int == 0
}

/// The leaves of every address space, keyed by (address space, page address).
pub struct PageMap {
    entries: Vec<Mapping>,
    ghost_map: Ghost<Map<(Asid, usize), Pte>>,
}

impl PageMap {
    pub closed spec fn view(&self) -> Map<(Asid, usize), Pte> {
        self.ghost_map@
    }

    pub closed spec fn wf(&self) -> bool {
        &&& forall|i: int|
            #![trigger self.entries@[i]]
            0 <= i < self.entries@.len() ==> {
                let e = self.entries@[i];
                &&& self.ghost_map@.contains_key((e.asid, e.va))
                &&& self.ghost_map@[(e.asid, e.va)] == e.pte
            }
        &&& forall|i: int, j: int|
            #![trigger self.entries@[i], self.entries@[j]]
            0 <= i < j < self.entries@.len() ==> (self.entries@[i].asid, self.entries@[i].va) != (
            self.entries@[j].asid, self.entries@[j].va)
        &&& forall|k: (Asid, usize)|
            #![trigger self.ghost_map@.contains_key(k)]
            self.ghost_map@.contains_key(k) ==> exists|i: int|
                0 <= i < self.entries@.len() && (self.entries@[i].asid, self.entries@[i].va) == k
    }

    /// Number of leaves installed, over all address spaces.
    pub closed spec fn len_spec(&self) -> nat {
        self.entries@.len()
    }

    pub fn new() -> (r: PageMap)
        ensures
            r.wf(),
            r@ == Map::<(Asid, usize), Pte>::empty(),
    {
        PageMap { entries: Vec::new(), ghost_map: Ghost(Map::empty()) }
    }

    fn find(&self, asid: Asid, va: usize) -> (r: Option<usize>)
        requires
            self.wf(),
        ensures
            match r {
                Some(i) => i < self.entries@.len() && self.entries@[i as int].asid == asid
                    && self.entries@[i as int].va == va,
                None => !self@.contains_key((asid, va)),
            },
    {
        let mut i: usize = 0;
        while i < self.entries.len()
            invariant
                self.wf(),
                i <= self.entries@.len(),
                forall|j: int|
                    0 <= j < i ==> (self.entries@[j].asid, self.entries@[j].va) != (asid, va),
            decreases self.entries@.len() - i,
        {
            let e = self.entries[i];
            if e.asid == asid && e.va == va {
                return Some(i);
            }
            i = i + 1;
        }
        proof {
            if self@.contains_key((asid, va)) {
                let k = (asid, va);
                assert(self.ghost_map@.contains_key(k));
            }
        }
        None
    }

    /// The leaf that maps `va` in `asid`, if any.
    pub fn lookup(&self, asid: Asid, va: usize) -> (r: Option<Pte>)
        requires
            self.wf(),
        ensures
            match r {
                Some(p) => self@.contains_key((asid, va)) && self@[(asid, va)] == p,
                None => !self@.contains_key((asid, va)),
            },
    {
        match self.find(asid, va) {
            Some(i) => Some(self.entries[i].pte),
            None => None,
        }
    }

    /// Installs a leaf. Refused when another leaf is there, unless it is
    /// the same one, which is then kept as it is.
    pub fn insert(&mut self, asid: Asid, va: usize, pte: Pte) -> (r: Result<(), MapError>)
        requires
            old(self).wf(),
        ensures
            final(self).wf(),
            match r {
                Ok(()) => final(self)@ == old(self)@.insert((asid, va), pte),
                Err(_) => final(self)@ == old(self)@,
            },
            r is Ok <==> (!old(self)@.contains_key((asid, va)) || old(self)@[(asid, va)] == pte),
            final(self).len_spec() <= old(self).len_spec() + 1,
    {
        match self.find(asid, va) {
            Some(i) => {
                if self.entries[i].pte == pte {
                    proof {
                        assert(old(self)@.insert((asid, va), pte) =~= old(self)@);
                    }
                    Ok(())
                } else {
                    Err(MapError::AlreadyMapped)
                }
            },
            None => {
                let ghost old_map = self.ghost_map@;
                let ghost old_entries = self.entries@;
                self.entries.push(Mapping { asid, va, pte });
                self.ghost_map = Ghost(self.ghost_map@.insert((asid, va), pte));
                proof {
                    assert forall|k: (Asid, usize)| #[trigger]
                        self.ghost_map@.contains_key(k) implies exists|i: int|
                        0 <= i < self.entries@.len() && (self.entries@[i].asid, self.entries@[i].va)
                            == k by {
                        if k != (asid, va) {
                            assert(old_map.contains_key(k));
                            let j = choose|j: int|
                                0 <= j < old_entries.len() && (old_entries[j].asid, old_entries[j].va)
                                    == k;
                            assert(self.entries@[j] == old_entries[j]);
                        } else {
                            assert(self.entries@[old_entries.len() as int].va == va);
                        }
                    }
                    assert forall|i: int, j: int|
                        #![trigger self.entries@[i], self.entries@[j]]
                        0 <= i < j < self.entries@.len() implies (self.entries@[i].asid,
                    self.entries@[i].va) != (self.entries@[j].asid, self.entries@[j].va) by {
                        if j == old_entries.len() {
                            assert(old_map.contains_key((old_entries[i].asid, old_entries[i].va)));
                        }
                    }
                }
                Ok(())
            },
        }
    }

    /// Every leaf of `asid`, each page once.
    pub fn mappings_of(&self, asid: Asid) -> (r: Vec<(usize, Pte)>)
        requires
            self.wf(),
        ensures
            forall|i: int|
                0 <= i < r@.len() ==> #[trigger] self@.contains_key((asid, r@[i].0)) && self@[(
                asid,
                r@[i].0,
            )] == r@[i].1,
            forall|va: usize|
                #[trigger] self@.contains_key((asid, va)) ==> exists|i: int|
                    0 <= i < r@.len() && r@[i].0 == va,
            forall|i: int, j: int| 0 <= i < j < r@.len() ==> #[trigger] r@[i].0 != #[trigger] r@[j].0,
    {
        let ghost entries = self.entries@;
        let mut out: Vec<(usize, Pte)> = Vec::new();
        let ghost mut idx: Seq<int> = Seq::empty();
        let ghost mut pos: Seq<int> = Seq::empty();
        let mut i: usize = 0;
        while i < self.entries.len()
            invariant
                entries == self.entries@,
                i <= entries.len(),
                idx.len() == out@.len(),
                pos.len() == i,
                forall|k: int|
                    #![trigger idx[k]]
                    0 <= k < idx.len() ==> 0 <= idx[k] < i && entries[idx[k]].asid == asid && out@[k]
                        == (entries[idx[k]].va, entries[idx[k]].pte),
                forall|a: int, b: int| #![trigger idx[a], idx[b]] 0 <= a < b < idx.len() ==> idx[a] < idx[b],
                forall|j: int|
                    #![trigger pos[j]]
                    0 <= j < i && entries[j].asid == asid ==> 0 <= pos[j] < idx.len() && idx[pos[j]] == j,
            decreases entries.len() - i,
        {
            let e = self.entries[i];
            if e.asid == asid {
                proof {
                    pos = pos.push(idx.len() as int);
                    idx = idx.push(i as int);
                }
                out.push((e.va, e.pte));
            } else {
                proof {
                    pos = pos.push(0);
                }
            }
            i = i + 1;
        }
        proof {
            assert forall|k: int|
                0 <= k < out@.len() implies #[trigger] self@.contains_key((asid, out@[k].0)) && self@[(
                asid,
                out@[k].0,
            )] == out@[k].1 by {
                let e = entries[idx[k]];
                assert(self.entries@[idx[k]] == e);
            }
            assert forall|va: usize|
                #[trigger] self@.contains_key((asid, va)) implies exists|k: int|
                    0 <= k < out@.len() && out@[k].0 == va by {
                let key = (asid, va);
                assert(self.ghost_map@.contains_key(key));
                let j = choose|j: int|
                    0 <= j < self.entries@.len() && (self.entries@[j].asid, self.entries@[j].va) == key;
                assert(entries[j].asid == asid);
                let k = pos[j];
                assert(out@[k].0 == va);
            }
            assert forall|a: int, b: int| 0 <= a < b < out@.len() implies #[trigger] out@[a].0
                != #[trigger] out@[b].0 by {
                assert(idx[a] < idx[b]);
                assert(self.entries@[idx[a]] == entries[idx[a]]);
                assert(self.entries@[idx[b]] == entries[idx[b]]);
            }
        }
        out
    }

    /// Removes the leaf that maps `va` in `asid` and returns it.
    pub fn remove(&mut self, asid: Asid, va: usize) -> (r: Option<Pte>)
        requires
            old(self).wf(),
        ensures
            final(self).wf(),
            match r {
                Some(p) => old(self)@.contains_key((asid, va)) && old(self)@[(asid, va)] == p,
                None => !old(self)@.contains_key((asid, va)),
            },
            final(self)@ == old(self)@.remove((asid, va)),
            final(self).len_spec() <= old(self).len_spec(),
    {
        match self.find(asid, va) {
            None => {
                proof {
                    assert(old(self)@.remove((asid, va)) =~= old(self)@);
                }
                None
            },
            Some(i) => {
                let ghost old_map = self.ghost_map@;
                let ghost old_entries = self.entries@;
                let e = self.entries.swap_remove(i);
                self.ghost_map = Ghost(self.ghost_map@.remove((asid, va)));
                proof {
                    let last = old_entries.len() - 1;
                    assert forall|k: (Asid, usize)| #[trigger]
                        self.ghost_map@.contains_key(k) implies exists|n: int|
                        0 <= n < self.entries@.len() && (self.entries@[n].asid, self.entries@[n].va)
                            == k by {
                        assert(old_map.contains_key(k));
                        let j = choose|j: int|
                            0 <= j < old_entries.len() && (old_entries[j].asid, old_entries[j].va)
                                == k;
                        if j == last {
                            assert(self.entries@[i as int] == old_entries[j]);
                        } else {
                            assert(j != i);
                            assert(self.entries@[j] == old_entries[j]);
                        }
                    }
                    assert forall|n: int|
                        0 <= n < self.entries@.len() implies {
                        let e = #[trigger] self.entries@[n];
                        &&& self.ghost_map@.contains_key((e.asid, e.va))
                        &&& self.ghost_map@[(e.asid, e.va)] == e.pte
                    } by {
                        if n == i {
                            assert(self.entries@[n] == old_entries[last]);
                        } else {
                            assert(self.entries@[n] == old_entries[n]);
                        }
                    }
                    assert forall|a: int, b: int|
                        #![trigger self.entries@[a], self.entries@[b]]
                        0 <= a < b < self.entries@.len() implies (self.entries@[a].asid,
                    self.entries@[a].va) != (self.entries@[b].asid, self.entries@[b].va) by {
                        let oa = if a == i { last } else { a };
                        let ob = if b == i { last } else { b };
                        assert(self.entries@[a] == old_entries[oa]);
                        assert(self.entries@[b] == old_entries[ob]);
                    }
                }
                Some(e.pte)
            },
        }
    }
}

} // verus!
