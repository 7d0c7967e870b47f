use vstd::prelude::*;
use crate::address::Address;
use crate::snapshot::copy_bytes;

verus! {

/// One storage write: `value` stored under `key` in the account `address`.
pub struct StorageWrite {
    pub address: Address,
    pub key: Vec<u8>,
    pub value: Vec<u8>,
}

/// The authenticated account storage that the contracts commit to: the writes
/// made so far, in order; a later write to a slot replaces an earlier one.
pub struct LedgerState {
    writes: Vec<StorageWrite>,
}

/// The storage that the writes `s` leave, slot by slot: (account, key) to value.
pub open spec fn storage_of(s: Seq<StorageWrite>) -> Map<(Seq<u8>, Seq<u8>), Seq<u8>>
    decreases s.len(),
{
    if s.len() == 0 {
        Map::empty()
    } else {
        let w = s.last();
        storage_of(s.drop_last()).insert((w.address@, w.key@), w.value@)
    }
}

/// Where the writes from `i` on never touch `k`, the storage at `k` is what the
/// first `i` writes left.
proof fn lemma_untouched_tail(s: Seq<StorageWrite>, i: int, k: (Seq<u8>, Seq<u8>))
    requires
        0 <= i <= s.len(),
        forall|j: int| i <= j < s.len() ==> (s[j].address@, s[j].key@) != k,
    ensures
        storage_of(s).contains_key(k) == storage_of(s.subrange(0, i)).contains_key(k),
        storage_of(s)[k] == storage_of(s.subrange(0, i))[k],
    decreases s.len(),
{
    if s.len() > i {
        assert(s.drop_last().subrange(0, i) =~= s.subrange(0, i));
        lemma_untouched_tail(s.drop_last(), i, k);
    } else {
        assert(s.subrange(0, i) =~= s);
    }
}

impl View for LedgerState {
    type V = Map<(Seq<u8>, Seq<u8>), Seq<u8>>;

    closed spec fn view(&self) -> Map<(Seq<u8>, Seq<u8>), Seq<u8>> {
        storage_of(self.writes@)
    }
}

fn same_bytes(a: &Vec<u8>, b: &Vec<u8>) -> (r: bool)
    ensures
        r == (a@ == b@),
{
    if a.len() != b.len() {
        return false;
    }
    let mut i: usize = 0;
    while i < a.len()
        invariant
            a@.len() == b@.len(),
            i <= a@.len(),
            forall|j: int| 0 <= j < i ==> a@[j] == b@[j],
        decreases a@.len() - i,
    {
        if a[i] != b[i] {
            return false;
        }
        i = i + 1;
    }
    assert(a@ =~= b@);
    true
}

impl LedgerState {
    /// Storage with nothing written.
    pub fn new() -> (r: LedgerState)
        ensures
            r@ == Map::<(Seq<u8>, Seq<u8>), Seq<u8>>::empty(),
    {
        LedgerState { writes: Vec::new() }
    }

    /// Stores `value` under `key` in the account `address`.
    pub fn set_storage(&mut self, address: &Address, key: Vec<u8>, value: Vec<u8>)
        ensures
            final(self)@ == old(self)@.insert((address@, key@), value@),
    {
        let ghost s0 = self.writes@;
        self.writes.push(StorageWrite { address: *address, key, value });
        assert(self.writes@.drop_last() =~= s0);
    }

    /// The value under `key` in the account `address`, if one was written.
    pub fn get_storage(&self, address: &Address, key: &Vec<u8>) -> (r: Option<Vec<u8>>)
        ensures
            match r {
                Some(v) => self@.contains_key((address@, key@)) && self@[(address@, key@)] == v@,
                None => !self@.contains_key((address@, key@)),
            },
    {
        let ghost s = self.writes@;
        let ghost k = (address@, key@);
        let mut i: usize = self.writes.len();
        while i > 0
            invariant
                self.writes@ == s,
                k == (address@, key@),
                i <= s.len(),
                forall|j: int| i <= j < s.len() ==> (s[j].address@, s[j].key@) != k,
            decreases i,
        {
            let w = &self.writes[i - 1];
            let address_eq = w.address.same(address);
            let key_eq = same_bytes(&w.key, key);
            if address_eq && key_eq {
                proof {
                    lemma_untouched_tail(s, i as int, k);
                    let t = s.subrange(0, i as int);
                    assert(t.drop_last() =~= s.subrange(0, i - 1));
                    assert(t.last() == s[i - 1]);
                    assert((t.last().address@, t.last().key@) == k);
                    assert(storage_of(t) == storage_of(t.drop_last()).insert(k, t.last().value@));
                }
                return Some(copy_bytes(&w.value));
            }
            i = i - 1;
        }
        proof {
            lemma_untouched_tail(s, 0, k);
            assert(s.subrange(0, 0) =~= Seq::<StorageWrite>::empty());
        }
        None
    }
}

} // verus!
