use vstd::prelude::*;

use crate::codec::copy_bytes;
use crate::error::CertError;

verus! {

/// One allocated region: its address and its bytes.
struct StoreEntry {
    addr: Vec<u8>,
    data: Vec<u8>,
}

/// The storage substrate: a content-addressed table of regions with atomic
/// create-if-absent semantics. Its mathematical value is the map from
/// addresses to region contents.
pub struct Store {
    entries: Vec<StoreEntry>,
}

/// A fresh region: `size` zeroed bytes.
pub open spec fn zero_region(size: nat) -> Seq<u8> {
    Seq::new(size, |i: int| 0u8)
}

spec fn distinct_addrs(s: Seq<StoreEntry>) -> bool {
    forall|i: int, j: int| 0 <= i < j < s.len() ==> s[i].addr@ != s[j].addr@
}

spec fn map_of(s: Seq<StoreEntry>) -> Map<Seq<u8>, Seq<u8>>
    decreases s.len(),
{
    if s.len() == 0 {
        Map::empty()
    } else {
        map_of(s.drop_last()).insert(s.last().addr@, s.last().data@)
    }
}

proof fn lemma_map_of_contains(s: Seq<StoreEntry>, k: Seq<u8>)
    ensures
        map_of(s).contains_key(k) <==> exists|j: int| 0 <= j < s.len() && s[j].addr@ == k,
    decreases s.len(),
{
    if s.len() == 0 {
    } else {
        lemma_map_of_contains(s.drop_last(), k);
        if s.last().addr@ == k {
            assert(s[s.len() - 1].addr@ == k);
        } else {
            if map_of(s).contains_key(k) {
                let j = choose|j: int| 0 <= j < s.drop_last().len() && s.drop_last()[j].addr@ == k;
                assert(s[j].addr@ == k);
            }
            if exists|j: int| 0 <= j < s.len() && s[j].addr@ == k {
                let j = choose|j: int| 0 <= j < s.len() && s[j].addr@ == k;
                assert(j < s.len() - 1);
                assert(s.drop_last()[j].addr@ == k);
            }
        }
    }
}

proof fn lemma_map_of_get(s: Seq<StoreEntry>, i: int)
    requires
        0 <= i < s.len(),
        distinct_addrs(s),
    ensures
        map_of(s).contains_key(s[i].addr@),
        map_of(s)[s[i].addr@] == s[i].data@,
    decreases s.len(),
{
    if i == s.len() - 1 {
    } else {
        assert(distinct_addrs(s.drop_last())) by {
            assert(forall|x: int, y: int|
                0 <= x < y < s.drop_last().len() ==> s.drop_last()[x] == s[x]
                    && s.drop_last()[y] == s[y]);
        }
        lemma_map_of_get(s.drop_last(), i);
        assert(s.drop_last()[i] == s[i]);
        assert(s.last().addr@ != s[i].addr@);
    }
}

proof fn lemma_map_of_update(s: Seq<StoreEntry>, i: int, e: StoreEntry)
    requires
        0 <= i < s.len(),
        distinct_addrs(s),
        e.addr@ == s[i].addr@,
    ensures
        map_of(s.update(i, e)) == map_of(s).insert(e.addr@, e.data@),
    decreases s.len(),
{
    let t = s.update(i, e);
    if i == s.len() - 1 {
        assert(t.drop_last() =~= s.drop_last());
        assert(t.last() == e);
        assert(map_of(t) == map_of(s.drop_last()).insert(e.addr@, e.data@));
        assert(map_of(s.drop_last()).insert(e.addr@, e.data@) =~= map_of(s).insert(
            e.addr@,
            e.data@,
        ));
    } else {
        assert(distinct_addrs(s.drop_last())) by {
            assert(forall|x: int, y: int|
                0 <= x < y < s.drop_last().len() ==> s.drop_last()[x] == s[x]
                    && s.drop_last()[y] == s[y]);
        }
        assert(t.drop_last() =~= s.drop_last().update(i, e));
        assert(t.last() == s.last());
        lemma_map_of_update(s.drop_last(), i, e);
        assert(s.last().addr@ != e.addr@);
        assert(map_of(s.drop_last()).insert(e.addr@, e.data@).insert(s.last().addr@, s.last().data@)
            =~= map_of(s.drop_last()).insert(s.last().addr@, s.last().data@).insert(
            e.addr@,
            e.data@,
        ));
    }
}

impl View for Store {
    type V = Map<Seq<u8>, Seq<u8>>;

    closed spec fn view(&self) -> Map<Seq<u8>, Seq<u8>> {
        map_of(self.entries@)
    }
}

fn bytes_eq(a: &Vec<u8>, b: &Vec<u8>) -> (r: bool)
    ensures
        r == (a@ == b@),
{
    if a.len() != b.len() {
        return false;
    }
    let mut i: usize = 0;
    while i < a.len()
        invariant
            i <= a@.len(),
            a@.len() == b@.len(),
            forall|k: int| 0 <= k < i ==> a@[k] == b@[k],
        decreases a@.len() - i,
    {
        if a[i] != b[i] {
            return false;
        }
        i += 1;
    }
    proof {
        assert(a@ =~= b@);
    }
    true
}

impl Store {
    #[verifier::type_invariant]
    spec fn wf(self) -> bool {
        distinct_addrs(self.entries@)
    }

    /// An empty substrate: no region exists at any address.
    pub fn new() -> (r: Store)
        ensures
            r@ == Map::<Seq<u8>, Seq<u8>>::empty(),
    {
        Store { entries: Vec::new() }
    }

    fn find_entry(&self, addr: &Vec<u8>) -> (r: Option<usize>)
        ensures
            match r {
                Some(i) => i < self.entries@.len() && self.entries@[i as int].addr@ == addr@,
                None => forall|j: int|
                    0 <= j < self.entries@.len() ==> self.entries@[j].addr@ != addr@,
            },
    {
        let mut i: usize = 0;
        while i < self.entries.len()
            invariant
                i <= self.entries@.len(),
                forall|j: int| 0 <= j < i ==> self.entries@[j].addr@ != addr@,
            decreases self.entries@.len() - i,
        {
            if bytes_eq(&self.entries[i].addr, addr) {
                return Some(i);
            }
            i += 1;
        }
        None
    }

    /// Whether a region exists at `addr`.
    pub fn contains(&self, addr: &Vec<u8>) -> (r: bool)
        ensures
            r == self@.contains_key(addr@),
    {
        proof {
            lemma_map_of_contains(self.entries@, addr@);
        }
        match self.find_entry(addr) {
            Some(_) => true,
            None => false,
        }
    }

    /// Create a new zeroed region of exactly `size` bytes at `addr`.
    /// Fails, changing nothing, exactly when a region already exists there:
    /// the create-if-absent check that makes allocation exactly-once.
    pub fn create(&mut self, addr: &Vec<u8>, size: usize) -> (r: Result<(), CertError>)
        ensures
            old(self)@.contains_key(addr@) ==> (r matches Err(e) && e == CertError::AlreadyExists
                && final(self)@ == old(self)@),
            !old(self)@.contains_key(addr@) ==> r is Ok && final(self)@ == old(self)@.insert(
                addr@,
                zero_region(size as nat),
            ),
    {
        proof {
            use_type_invariant(&*self);
            lemma_map_of_contains(self.entries@, addr@);
        }
        if self.contains(addr) {
            return Err(CertError::AlreadyExists);
        }
        let mut data: Vec<u8> = Vec::new();
        let mut i: usize = 0;
        while i < size
            invariant
                i <= size,
                data@ == zero_region(i as nat),
            decreases size - i,
        {
            data.push(0u8);
            proof {
                assert(data@ =~= zero_region((i + 1) as nat));
            }
            i += 1;
        }
        let a = copy_bytes(addr);
        let mut es: Vec<StoreEntry> = Vec::new();
        std::mem::swap(&mut es, &mut self.entries);
        es.push(StoreEntry { addr: a, data });
        proof {
            assert(es@.drop_last() =~= old(self).entries@);
            assert forall|x: int, y: int| 0 <= x < y < es@.len() implies es@[x].addr@
                != es@[y].addr@ by {
                if y == es@.len() - 1 {
                    assert(es@[x] == old(self).entries@[x]);
                }
            }
        }
        self.entries = es;
        Ok(())
    }

    /// Persist `bytes` at the front of the region at `addr`; the rest of
    /// the region keeps its previous contents.
    pub fn write(&mut self, addr: &Vec<u8>, bytes: &Vec<u8>)
        requires
            old(self)@.contains_key(addr@),
            bytes@.len() <= old(self)@[addr@].len(),
        ensures
            final(self)@ == old(self)@.insert(
                addr@,
                bytes@ + old(self)@[addr@].skip(bytes@.len() as int),
            ),
    {
        proof {
            use_type_invariant(&*self);
            lemma_map_of_contains(self.entries@, addr@);
        }
        let i = match self.find_entry(addr) {
            Some(i) => i,
            None => {
                proof {
                    assert(false);
                }
                0
            },
        };
        proof {
            lemma_map_of_get(self.entries@, i as int);
        }
        let mut es: Vec<StoreEntry> = Vec::new();
        std::mem::swap(&mut es, &mut self.entries);
        let mut nd = copy_bytes(bytes);
        let mut k = bytes.len();
        while k < es[i].data.len()
            invariant
                i < es@.len(),
                es@ == old(self).entries@,
                bytes@.len() <= k <= es@[i as int].data@.len(),
                nd@ == bytes@ + es@[i as int].data@.subrange(bytes@.len() as int, k as int),
            decreases es@[i as int].data@.len() - k,
        {
            nd.push(es[i].data[k]);
            proof {
                assert(nd@ =~= bytes@ + es@[i as int].data@.subrange(bytes@.len() as int, k + 1));
            }
            k += 1;
        }
        let old_entry = es.remove(i);
        es.insert(i, StoreEntry { addr: old_entry.addr, data: nd });
        proof {
            assert(es@ =~= old(self).entries@.update(i as int, es@[i as int]));
            lemma_map_of_update(old(self).entries@, i as int, es@[i as int]);
            assert(distinct_addrs(es@)) by {
                assert(forall|x: int|
                    0 <= x < es@.len() ==> es@[x].addr@ == old(self).entries@[x].addr@);
            }
            assert(nd@ == bytes@ + old(self)@[addr@].skip(bytes@.len() as int));
        }
        self.entries = es;
    }

    /// The bytes of the region at `addr`, when one exists.
    pub fn read(&self, addr: &Vec<u8>) -> (r: Option<Vec<u8>>)
        ensures
            match r {
                Some(v) => self@.contains_key(addr@) && v@ == self@[addr@],
                None => !self@.contains_key(addr@),
            },
    {
        proof {
            use_type_invariant(&*self);
            lemma_map_of_contains(self.entries@, addr@);
        }
        match self.find_entry(addr) {
            Some(i) => {
                proof {
                    lemma_map_of_get(self.entries@, i as int);
                }
                Some(copy_bytes(&self.entries[i].data))
            },
            None => None,
        }
    }
}

} // verus!
