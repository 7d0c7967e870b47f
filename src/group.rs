use vstd::prelude::*;
use crate::address::Address;
use crate::snapshot::SnapshotStore;

verus! {

/// The byte views of a list of addresses.
pub open spec fn addrs(v: Seq<Address>) -> Seq<Seq<u8>> {
    v.map_values(|a: Address| a@)
}

/// `s` with each element of `xs` appended, in order, unless it is already there.
pub open spec fn add_all(s: Seq<Seq<u8>>, xs: Seq<Seq<u8>>) -> Seq<Seq<u8>>
    decreases xs.len(),
{
    if xs.len() == 0 {
        s
    } else {
        let s2 = add_all(s, xs.drop_last());
        if s2.contains(xs.last()) {
            s2
        } else {
            s2.push(xs.last())
        }
    }
}

/// `s` without the elements that occur in `xs`, in the order of `s`.
pub open spec fn remove_all(s: Seq<Seq<u8>>, xs: Seq<Seq<u8>>) -> Seq<Seq<u8>>
    decreases s.len(),
{
    if s.len() == 0 {
        s
    } else {
        let r = remove_all(s.drop_last(), xs);
        if xs.contains(s.last()) {
            r
        } else {
            r.push(s.last())
        }
    }
}

/// Whether `a` occurs in `v`.
pub fn contains_address(v: &Vec<Address>, a: &Address) -> (r: bool)
    ensures
        r == addrs(v@).contains(a@),
{
    let mut i: usize = 0;
    while i < v.len()
        invariant
            i <= v@.len(),
            forall|j: int| 0 <= j < i ==> v@[j]@ != a@,
        decreases v@.len() - i,
    {
        if v[i].same(a) {
            assert(addrs(v@)[i as int] == a@);
            return true;
        }
        i = i + 1;
    }
    assert forall|j: int| 0 <= j < addrs(v@).len() implies addrs(v@)[j] != a@ by {
        assert(addrs(v@)[j] == v@[j]@);
    }
    false
}

/// A group of accounts within a hierarchy of groups.
pub struct Group {
    pub name: String,
    pub parent: Address,
    pub accounts: Vec<Address>,
    pub children: Vec<Address>,
}

impl Group {
    pub fn new(name: String, parent: Address, accounts: Vec<Address>) -> (r: Group)
        ensures
            r.name@ == name@,
            r.parent@ == parent@,
            addrs(r.accounts@) == addrs(accounts@),
            r.children@.len() == 0,
    {
        Group { name, parent, accounts, children: Vec::new() }
    }

    /// Adds each of `accounts` that is not yet a member, in order.
    pub fn add_account(&mut self, accounts: Vec<Address>)
        ensures
            addrs(final(self).accounts@) == add_all(addrs(old(self).accounts@), addrs(accounts@)),
            final(self).name@ == old(self).name@,
            final(self).parent@ == old(self).parent@,
            addrs(final(self).children@) == addrs(old(self).children@),
    {
        let ghost start = addrs(self.accounts@);
        let ghost xs = addrs(accounts@);
        let mut i: usize = 0;
        while i < accounts.len()
            invariant
                xs == addrs(accounts@),
                i <= accounts@.len(),
                addrs(self.accounts@) == add_all(start, xs.subrange(0, i as int)),
                self.name@ == old(self).name@,
                self.parent@ == old(self).parent@,
                addrs(self.children@) == addrs(old(self).children@),
            decreases accounts@.len() - i,
        {
            let a = accounts[i];
            proof {
                assert(xs.subrange(0, i + 1).drop_last() =~= xs.subrange(0, i as int));
                assert(xs.subrange(0, i + 1).last() == a@);
            }
            if !contains_address(&self.accounts, &a) {
                self.accounts.push(a);
                assert(addrs(self.accounts@) =~= add_all(start, xs.subrange(0, i as int)).push(
                    a@,
                ));
            }
            i = i + 1;
        }
        assert(xs.subrange(0, accounts@.len() as int) =~= xs);
    }

    /// Removes every member that occurs in `accounts`.
    pub fn delete_account(&mut self, accounts: Vec<Address>)
        ensures
            addrs(final(self).accounts@) == remove_all(addrs(old(self).accounts@), addrs(accounts@)),
            final(self).name@ == old(self).name@,
            final(self).parent@ == old(self).parent@,
            addrs(final(self).children@) == addrs(old(self).children@),
    {
        let kept = retain_absent(&self.accounts, &accounts);
        self.accounts = kept;
    }

    pub fn update_name(&mut self, name: &str)
        ensures
            final(self).name@ == name@,
            final(self).parent@ == old(self).parent@,
            addrs(final(self).accounts@) == addrs(old(self).accounts@),
            addrs(final(self).children@) == addrs(old(self).children@),
    {
        self.name = name.to_owned();
    }

    /// Removes `child` from the child groups.
    pub fn delete_child(&mut self, child: Address)
        ensures
            addrs(final(self).children@) == remove_all(addrs(old(self).children@), seq![child@]),
            final(self).name@ == old(self).name@,
            final(self).parent@ == old(self).parent@,
            addrs(final(self).accounts@) == addrs(old(self).accounts@),
    {
        let mut one: Vec<Address> = Vec::new();
        one.push(child);
        assert(addrs(one@) =~= seq![child@]);
        let kept = retain_absent(&self.children, &one);
        self.children = kept;
    }

    /// Adds `child` to the child groups unless it is there already.
    pub fn add_child(&mut self, child: Address)
        ensures
            addrs(final(self).children@) == (if addrs(old(self).children@).contains(child@) {
                addrs(old(self).children@)
            } else {
                addrs(old(self).children@).push(child@)
            }),
            final(self).name@ == old(self).name@,
            final(self).parent@ == old(self).parent@,
            addrs(final(self).accounts@) == addrs(old(self).accounts@),
    {
        if !contains_address(&self.children, &child) {
            self.children.push(child);
            assert(addrs(self.children@) =~= addrs(old(self).children@).push(child@));
        }
    }

    pub fn query_name(&self) -> (r: String)
        ensures
            r@ == self.name@,
    {
        self.name.clone()
    }

    pub fn query_child(&self) -> (r: Vec<Address>)
        ensures
            addrs(r@) == addrs(self.children@),
    {
        let mut r: Vec<Address> = Vec::new();
        let mut i: usize = 0;
        while i < self.children.len()
            invariant
                i <= self.children@.len(),
                addrs(r@) =~= addrs(self.children@).subrange(0, i as int),
            decreases self.children@.len() - i,
        {
            let c = self.children[i];
            proof {
                assert(addrs(self.children@).subrange(0, i + 1) =~= addrs(
                    self.children@,
                ).subrange(0, i as int).push(c@));
            }
            r.push(c);
            assert(addrs(r@) =~= addrs(self.children@).subrange(0, i + 1));
            i = i + 1;
        }
        assert(addrs(self.children@).subrange(0, i as int) =~= addrs(self.children@));
        r
    }

    pub fn query_child_len(&self) -> (r: u64)
        ensures
            r == self.children@.len(),
    {
        self.children.len() as u64
    }

    /// Whether `account` is a member.
    pub fn in_group(&self, account: &Address) -> (r: bool)
        ensures
            r == addrs(self.accounts@).contains(account@),
    {
        contains_address(&self.accounts, account)
    }
}

/// The addresses of `v` that do not occur in `xs`, in order.
fn retain_absent(v: &Vec<Address>, xs: &Vec<Address>) -> (r: Vec<Address>)
    ensures
        addrs(r@) == remove_all(addrs(v@), addrs(xs@)),
{
    let ghost s = addrs(v@);
    let mut r: Vec<Address> = Vec::new();
    let mut i: usize = 0;
    while i < v.len()
        invariant
            s == addrs(v@),
            i <= v@.len(),
            addrs(r@) == remove_all(s.subrange(0, i as int), addrs(xs@)),
        decreases v@.len() - i,
    {
        let a = v[i];
        proof {
            assert(s.subrange(0, i + 1).drop_last() =~= s.subrange(0, i as int));
            assert(s.subrange(0, i + 1).last() == a@);
        }
        if !contains_address(xs, &a) {
            r.push(a);
            assert(addrs(r@) =~= remove_all(s.subrange(0, i as int), addrs(xs@)).push(a@));
        }
        i = i + 1;
    }
    assert(s.subrange(0, v@.len() as int) =~= s);
    r
}

/// The group manager's history of serialized group records, keyed by height.
pub struct GroupStore {
    pub contracts: SnapshotStore,
}

impl GroupStore {
    pub open spec fn wf(&self) -> bool {
        self.contracts.wf()
    }

    /// A store with no history yet.
    pub fn new() -> (r: GroupStore)
        ensures
            r.wf(),
            r.contracts@ == Map::<u64, Seq<u8>>::empty(),
    {
        GroupStore { contracts: SnapshotStore::new() }
    }

    /// Starts the history afresh with the genesis state `payload` at height 0;
    /// whatever was recorded before is dropped.
    pub fn init(&mut self, payload: Vec<u8>)
        ensures
            final(self).wf(),
            final(self).contracts@ == Map::<u64, Seq<u8>>::empty().insert(0, payload@),
    {
        self.contracts = SnapshotStore::new();
        self.contracts.write(0, payload);
    }
}

} // verus!
