use vstd::prelude::*;
use crate::address::Address;
use crate::group::{add_all, addrs, remove_all, Group};
use crate::types::ContractError;

verus! {

/// What a group holds: its name, its parent, its accounts and its child groups.
pub open spec fn group_model(g: Group) -> (Seq<char>, Seq<u8>, Seq<Seq<u8>>, Seq<Seq<u8>>) {
    (g.name@, g.parent@, addrs(g.accounts@), addrs(g.children@))
}

/// A group stored under its own address.
pub struct GroupEntry {
    pub address: Address,
    pub group: Group,
}

/// The addresses under which the groups of `s` are stored.
pub open spec fn keys_of(s: Seq<GroupEntry>) -> Seq<Seq<u8>> {
    s.map_values(|e: GroupEntry| e.address@)
}

/// The models of the groups of `s`, in order.
pub open spec fn models_of(s: Seq<GroupEntry>) -> Seq<(Seq<char>, Seq<u8>, Seq<Seq<u8>>, Seq<Seq<u8>>)> {
    s.map_values(|e: GroupEntry| group_model(e.group))
}

/// The hierarchy of groups.
pub struct GroupManager {
    pub groups: Vec<GroupEntry>,
}

impl GroupManager {
    /// No two groups share an address.
    pub open spec fn wf(&self) -> bool {
        keys_of(self.groups@).no_duplicates()
    }

    pub open spec fn keys(&self) -> Seq<Seq<u8>> {
        keys_of(self.groups@)
    }

    pub open spec fn models(&self) -> Seq<(Seq<char>, Seq<u8>, Seq<Seq<u8>>, Seq<Seq<u8>>)> {
        models_of(self.groups@)
    }

    pub fn new() -> (r: GroupManager)
        ensures
            r.wf(),
            r.keys().len() == 0,
    {
        let r = GroupManager { groups: Vec::new() };
        assert(r.keys() =~= Seq::<Seq<u8>>::empty());
        r
    }

    /// Where the group stored under `address` sits.
    pub fn position(&self, address: &Address) -> (r: Option<usize>)
        requires
            self.wf(),
        ensures
            r is Some <==> self.keys().contains(address@),
            r matches Some(i) ==> i < self.keys().len() && self.keys()[i as int] == address@,
    {
        let mut i: usize = 0;
        while i < self.groups.len()
            invariant
                i <= self.groups@.len(),
                forall|j: int| 0 <= j < i ==> self.groups@[j].address@ != address@,
            decreases self.groups@.len() - i,
        {
            if self.groups[i].address.same(address) {
                assert(self.keys()[i as int] == address@);
                return Some(i);
            }
            i = i + 1;
        }
        assert forall|j: int| 0 <= j < self.keys().len() implies self.keys()[j] != address@ by {
            assert(self.keys()[j] == self.groups@[j].address@);
        }
        None
    }

    /// Takes the entry at `i` out, to be edited and put back.
    fn take(&mut self, i: usize) -> (r: GroupEntry)
        requires
            i < old(self).groups@.len(),
        ensures
            r == old(self).groups@[i as int],
            final(self).groups@ == old(self).groups@.remove(i as int),
    {
        self.groups.remove(i)
    }

    fn put_back(&mut self, i: usize, e: GroupEntry)
        requires
            i <= old(self).groups@.len(),
        ensures
            final(self).groups@ == old(self).groups@.insert(i as int, e),
    {
        self.groups.insert(i, e);
    }

    /// Renames the group stored under `address`.
    pub fn update_group_name(&mut self, address: &Address, name: &str) -> (r: Result<
        (),
        ContractError,
    >)
        requires
            old(self).wf(),
        ensures
            final(self).wf(),
            final(self).keys() == old(self).keys(),
            !old(self).keys().contains(address@) ==> r == Err::<(), ContractError>(
                ContractError::NotFoundError,
            ) && final(self).models() == old(self).models(),
            old(self).keys().contains(address@) ==> r is Ok && {
                let i = old(self).keys().index_of(address@);
                let m = old(self).models()[i];
                final(self).models() == old(self).models().update(i, (name@, m.1, m.2, m.3))
            },
    {
        match self.position(address) {
            None => Err(ContractError::NotFoundError),
            Some(i) => {
                let ghost s0 = self.groups@;
                proof {
                    lemma_index_of_unique(keys_of(s0), address@, i as int);
                }
                let mut e = self.take(i);
                e.group.update_name(name);
                self.put_back(i, e);
                proof {
                    lemma_replace_at(s0, self.groups@, i as int);
                }
                Ok(())
            },
        }
    }

    /// Adds the accounts that are not yet members of the group under `address`.
    pub fn add_accounts(&mut self, address: &Address, accounts: Vec<Address>) -> (r: Result<
        (),
        ContractError,
    >)
        requires
            old(self).wf(),
        ensures
            final(self).wf(),
            final(self).keys() == old(self).keys(),
            !old(self).keys().contains(address@) ==> r == Err::<(), ContractError>(
                ContractError::NotFoundError,
            ) && final(self).models() == old(self).models(),
            old(self).keys().contains(address@) ==> r is Ok && {
                let i = old(self).keys().index_of(address@);
                let m = old(self).models()[i];
                final(self).models() == old(self).models().update(
                    i,
                    (m.0, m.1, add_all(m.2, addrs(accounts@)), m.3),
                )
            },
    {
        match self.position(address) {
            None => Err(ContractError::NotFoundError),
            Some(i) => {
                let ghost s0 = self.groups@;
                proof {
                    lemma_index_of_unique(keys_of(s0), address@, i as int);
                }
                let mut e = self.take(i);
                e.group.add_account(accounts);
                self.put_back(i, e);
                proof {
                    lemma_replace_at(s0, self.groups@, i as int);
                }
                Ok(())
            },
        }
    }

    /// Removes the listed accounts from the group under `address`.
    pub fn delete_accounts(&mut self, address: &Address, accounts: Vec<Address>) -> (r: Result<
        (),
        ContractError,
    >)
        requires
            old(self).wf(),
        ensures
            final(self).wf(),
            final(self).keys() == old(self).keys(),
            !old(self).keys().contains(address@) ==> r == Err::<(), ContractError>(
                ContractError::NotFoundError,
            ) && final(self).models() == old(self).models(),
            old(self).keys().contains(address@) ==> r is Ok && {
                let i = old(self).keys().index_of(address@);
                let m = old(self).models()[i];
                final(self).models() == old(self).models().update(
                    i,
                    (m.0, m.1, remove_all(m.2, addrs(accounts@)), m.3),
                )
            },
    {
        match self.position(address) {
            None => Err(ContractError::NotFoundError),
            Some(i) => {
                let ghost s0 = self.groups@;
                proof {
                    lemma_index_of_unique(keys_of(s0), address@, i as int);
                }
                let mut e = self.take(i);
                e.group.delete_account(accounts);
                self.put_back(i, e);
                proof {
                    lemma_replace_at(s0, self.groups@, i as int);
                }
                Ok(())
            },
        }
    }

    /// Links `child` under the group at `address`.
    pub fn add_child(&mut self, address: &Address, child: Address) -> (r: Result<
        (),
        ContractError,
    >)
        requires
            old(self).wf(),
        ensures
            final(self).wf(),
            final(self).keys() == old(self).keys(),
            !old(self).keys().contains(address@) ==> r == Err::<(), ContractError>(
                ContractError::NotFoundError,
            ) && final(self).models() == old(self).models(),
            old(self).keys().contains(address@) ==> r is Ok && {
                let i = old(self).keys().index_of(address@);
                let m = old(self).models()[i];
                final(self).models() == old(self).models().update(
                    i,
                    (
                        m.0,
                        m.1,
                        m.2,
                        if m.3.contains(child@) {
                            m.3
                        } else {
                            m.3.push(child@)
                        },
                    ),
                )
            },
    {
        match self.position(address) {
            None => Err(ContractError::NotFoundError),
            Some(i) => {
                let ghost s0 = self.groups@;
                proof {
                    lemma_index_of_unique(keys_of(s0), address@, i as int);
                }
                let mut e = self.take(i);
                e.group.add_child(child);
                self.put_back(i, e);
                proof {
                    lemma_replace_at(s0, self.groups@, i as int);
                }
                Ok(())
            },
        }
    }

    /// Unlinks `child` from the group at `address`.
    pub fn delete_child(&mut self, address: &Address, child: Address) -> (r: Result<
        (),
        ContractError,
    >)
        requires
            old(self).wf(),
        ensures
            final(self).wf(),
            final(self).keys() == old(self).keys(),
            !old(self).keys().contains(address@) ==> r == Err::<(), ContractError>(
                ContractError::NotFoundError,
            ) && final(self).models() == old(self).models(),
            old(self).keys().contains(address@) ==> r is Ok && {
                let i = old(self).keys().index_of(address@);
                let m = old(self).models()[i];
                final(self).models() == old(self).models().update(
                    i,
                    (m.0, m.1, m.2, remove_all(m.3, seq![child@])),
                )
            },
    {
        match self.position(address) {
            None => Err(ContractError::NotFoundError),
            Some(i) => {
                let ghost s0 = self.groups@;
                proof {
                    lemma_index_of_unique(keys_of(s0), address@, i as int);
                }
                let mut e = self.take(i);
                e.group.delete_child(child);
                self.put_back(i, e);
                proof {
                    lemma_replace_at(s0, self.groups@, i as int);
                }
                Ok(())
            },
        }
    }

    /// Creates the group `address` under the existing group `parent`, with
    /// `name` and `accounts`, and links it as a child of `parent`. Fails with
    /// `NotFoundError` where `parent` is not a group. An `address` that already
    /// holds a group names nothing to create: the arguments are refused as
    /// malformed, with `DecodeError`, and nothing changes.
    pub fn new_group(
        &mut self,
        parent: Address,
        address: Address,
        name: String,
        accounts: Vec<Address>,
    ) -> (r: Result<(), ContractError>)
        requires
            old(self).wf(),
        ensures
            final(self).wf(),
            !old(self).keys().contains(parent@) ==> r == Err::<(), ContractError>(
                ContractError::NotFoundError,
            ) && final(self).keys() == old(self).keys() && final(self).models()
                == old(self).models(),
            old(self).keys().contains(parent@) && old(self).keys().contains(address@) ==> r
                == Err::<(), ContractError>(ContractError::DecodeError) && final(self).keys()
                == old(self).keys() && final(self).models() == old(self).models(),
            old(self).keys().contains(parent@) && !old(self).keys().contains(address@) ==> r is Ok
                && {
                let ip = old(self).keys().index_of(parent@);
                let mp = old(self).models()[ip];
                &&& final(self).keys() == old(self).keys().push(address@)
                &&& final(self).models() == old(self).models().update(
                    ip,
                    (
                        mp.0,
                        mp.1,
                        mp.2,
                        if mp.3.contains(address@) {
                            mp.3
                        } else {
                            mp.3.push(address@)
                        },
                    ),
                ).push((name@, parent@, addrs(accounts@), Seq::<Seq<u8>>::empty()))
            },
    {
        if self.position(&parent).is_none() {
            return Err(ContractError::NotFoundError);
        }
        if self.position(&address).is_some() {
            return Err(ContractError::DecodeError);
        }
        let _ = self.add_child(&parent, address);
        let ghost s1 = self.groups@;
        let g = Group::new(name, parent, accounts);
        self.groups.push(GroupEntry { address, group: g });
        proof {
            assert(addrs(g.children@) =~= Seq::<Seq<u8>>::empty());
            assert(keys_of(self.groups@) =~= keys_of(s1).push(address@));
            assert(models_of(self.groups@) =~= models_of(s1).push(
                (g.name@, parent@, addrs(g.accounts@), Seq::<Seq<u8>>::empty()),
            ));
            assert forall|a: int, b: int|
                0 <= a < b < self.keys().len() implies self.keys()[a] != self.keys()[b] by {
                if b == self.keys().len() - 1 {
                    assert(keys_of(s1)[a] == self.keys()[a]);
                }
            }
        }
        Ok(())
    }

    /// Removes the group `address` and unlinks it from its parent group.
    /// Fails with `NotFoundError` where `address` is not a group.
    pub fn delete_group(&mut self, address: &Address) -> (r: Result<(), ContractError>)
        requires
            old(self).wf(),
        ensures
            final(self).wf(),
            !old(self).keys().contains(address@) ==> r == Err::<(), ContractError>(
                ContractError::NotFoundError,
            ) && final(self).keys() == old(self).keys() && final(self).models()
                == old(self).models(),
            old(self).keys().contains(address@) ==> r is Ok && {
                let i = old(self).keys().index_of(address@);
                let p = old(self).models()[i].1;
                let unlinked = if old(self).keys().contains(p) && p != address@ {
                    let ip = old(self).keys().index_of(p);
                    let mp = old(self).models()[ip];
                    old(self).models().update(ip, (mp.0, mp.1, mp.2, remove_all(mp.3, seq![address@])))
                } else {
                    old(self).models()
                };
                &&& final(self).keys() == old(self).keys().remove(i)
                &&& final(self).models() == unlinked.remove(i)
            },
    {
        let i = match self.position(address) {
            None => {
                return Err(ContractError::NotFoundError);
            },
            Some(i) => i,
        };
        proof {
            lemma_index_of_unique(self.keys(), address@, i as int);
        }
        let parent = self.groups[i].group.parent;
        if !parent.same(address) {
            let _ = self.delete_child(&parent, *address);
        }
        let ghost s1 = self.groups@;
        proof {
            assert(keys_of(s1)[i as int] == address@);
        }
        let _ = self.take(i);
        proof {
            assert(keys_of(self.groups@) =~= keys_of(s1).remove(i as int));
            assert(models_of(self.groups@) =~= models_of(s1).remove(i as int));
            assert forall|a: int, b: int|
                0 <= a < b < self.keys().len() implies self.keys()[a] != self.keys()[b] by {
                let a0 = if a < i { a } else { a + 1 };
                let b0 = if b < i { b } else { b + 1 };
                assert(self.keys()[a] == keys_of(s1)[a0]);
                assert(self.keys()[b] == keys_of(s1)[b0]);
            }
        }
        Ok(())
    }

    /// Whether `target` is `origin` or lies below it, following parent links
    /// upward from `target` at most as many steps as there are groups.
    pub fn check_scope(&self, origin: &Address, target: &Address) -> (r: bool)
        requires
            self.wf(),
        ensures
            r == within_scope(self.keys(), self.models(), origin@, target@, self.keys().len()),
    {
        let n = self.groups.len();
        let mut cur: Address = *target;
        let mut steps: usize = 0;
        while steps < n
            invariant
                self.wf(),
                n == self.keys().len(),
                steps <= n,
                within_scope(self.keys(), self.models(), origin@, target@, n as nat)
                    == within_scope(self.keys(), self.models(), origin@, cur@, (n - steps) as nat),
            decreases n - steps,
        {
            if cur.same(origin) {
                return true;
            }
            match self.position(&cur) {
                None => {
                    return false;
                },
                Some(i) => {
                    proof {
                        lemma_index_of_unique(self.keys(), cur@, i as int);
                    }
                    cur = self.groups[i].group.parent;
                },
            }
            steps = steps + 1;
        }
        cur.same(origin)
    }

    /// The addresses of the groups that `account` is a member of, in order.
    pub fn query_groups(&self, account: &Address) -> (r: Vec<Address>)
        ensures
            addrs(r@) == groups_with(self.groups@, account@),
    {
        let ghost s = self.groups@;
        let mut r: Vec<Address> = Vec::new();
        let mut i: usize = 0;
        while i < self.groups.len()
            invariant
                s == self.groups@,
                i <= s.len(),
                addrs(r@) == groups_with(s.subrange(0, i as int), account@),
            decreases s.len() - i,
        {
            proof {
                assert(s.subrange(0, i + 1).drop_last() =~= s.subrange(0, i as int));
            }
            if self.groups[i].group.in_group(account) {
                r.push(self.groups[i].address);
                assert(addrs(r@) =~= groups_with(s.subrange(0, i as int), account@).push(
                    s[i as int].address@,
                ));
            }
            i = i + 1;
        }
        assert(s.subrange(0, s.len() as int) =~= s);
        r
    }
}

/// The addresses of the groups of `s` that hold `account`, in order.
pub open spec fn groups_with(s: Seq<GroupEntry>, account: Seq<u8>) -> Seq<Seq<u8>>
    decreases s.len(),
{
    if s.len() == 0 {
        Seq::empty()
    } else {
        let r = groups_with(s.drop_last(), account);
        if addrs(s.last().group.accounts@).contains(account) {
            r.push(s.last().address@)
        } else {
            r
        }
    }
}

/// `target` is `origin`, or its parent chain reaches `origin` within `fuel` steps.
pub open spec fn within_scope(
    keys: Seq<Seq<u8>>,
    models: Seq<(Seq<char>, Seq<u8>, Seq<Seq<u8>>, Seq<Seq<u8>>)>,
    origin: Seq<u8>,
    target: Seq<u8>,
    fuel: nat,
) -> bool
    decreases fuel,
{
    if target == origin {
        true
    } else if fuel == 0 || !keys.contains(target) {
        false
    } else {
        within_scope(keys, models, origin, models[keys.index_of(target)].1, (fuel - 1) as nat)
    }
}

proof fn lemma_index_of_unique(s: Seq<Seq<u8>>, k: Seq<u8>, i: int)
    requires
        s.no_duplicates(),
        0 <= i < s.len(),
        s[i] == k,
    ensures
        s.index_of(k) == i,
{
    assert(s.contains(k));
    let j = s.index_of(k);
    assert(s[j] == k);
}

/// Replacing the entry at `i` by one with the same address keeps the keys and
/// changes only the model at `i`.
proof fn lemma_replace_at(s0: Seq<GroupEntry>, s1: Seq<GroupEntry>, i: int)
    requires
        0 <= i < s0.len(),
        s1.len() == s0.len(),
        s1[i].address@ == s0[i].address@,
        forall|j: int| 0 <= j < s0.len() && j != i ==> s1[j] == s0[j],
    ensures
        keys_of(s1) == keys_of(s0),
        models_of(s1) == models_of(s0).update(i, group_model(s1[i].group)),
{
    assert(keys_of(s1) =~= keys_of(s0));
    assert(models_of(s1) =~= models_of(s0).update(i, group_model(s1[i].group)));
}

} // verus!
