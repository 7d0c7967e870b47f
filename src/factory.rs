use vstd::prelude::*;
use crate::address::Address;
use crate::admin::{admin_call_outcome, stored_admin, AdminContract};
use crate::group_contract::group_call_outcome;
use crate::group::GroupStore;
use crate::ledger::LedgerState;
use crate::types::{CallParams, Context, ContractError, ExecutionResult};

verus! {

// Reserved addresses are `ff` seventeen times, then `02`, then a two-byte tag.
pub const SYS_CONFIG: u16 = 0x0000;

pub const NODE_MANAGER: u16 = 0x0001;

pub const QUOTA_MANAGER: u16 = 0x0003;

pub const PERMISSION_MANAGEMENT: u16 = 0x0004;

pub const AUTHORIZATION: u16 = 0x0006;

pub const GROUP: u16 = 0x0009;

pub const GROUP_MANAGEMENT: u16 = 0x000a;

pub const ADMIN: u16 = 0x000c;

pub const EMERGENCY_INTERVENTION: u16 = 0x000f;

pub const PRICE_MANAGEMENT: u16 = 0x0010;

pub const VERSION_MANAGEMENT: u16 = 0x0011;

/// The tags of the built-in permission contracts run from here ...
pub const PERMISSION_FIRST: u16 = 0x1000;

/// ... to here.
pub const PERMISSION_LAST: u16 = 0x10ff;

/// The tag of a reserved address, or `None` for any other address.
pub open spec fn reserved_tag(a: Seq<u8>) -> Option<int> {
    if a.len() == 20 && (forall|i: int| 0 <= i < 17 ==> a[i] == 0xffu8) && a[17] == 0x02u8 {
        Some(a[18] * 256 + a[19])
    } else {
        None
    }
}

/// The address reserved under `tag`.
pub open spec fn reserved_address(tag: u16) -> Seq<u8> {
    Seq::new(17, |i: int| 0xffu8) + seq![0x02u8, (tag / 256) as u8, (tag % 256) as u8]
}

/// `a` is the group or the group-management address.
pub open spec fn is_group_address(a: Seq<u8>) -> bool {
    reserved_tag(a) == Some(GROUP as int) || reserved_tag(a) == Some(GROUP_MANAGEMENT as int)
}

/// `a` is a built-in permission contract.
pub open spec fn is_permission_address(a: Seq<u8>) -> bool {
    reserved_tag(a) matches Some(t) && PERMISSION_FIRST <= t <= PERMISSION_LAST
}

/// `a` is bound to a native contract.
pub open spec fn is_native_address(a: Seq<u8>) -> bool {
    ||| reserved_tag(a) matches Some(t) && (t == ADMIN || t == PRICE_MANAGEMENT || t
        == PERMISSION_MANAGEMENT || t == AUTHORIZATION || t == EMERGENCY_INTERVENTION || t
        == SYS_CONFIG || t == QUOTA_MANAGER || t == VERSION_MANAGEMENT || t == GROUP || t
        == GROUP_MANAGEMENT)
    ||| is_permission_address(a)
}

/// The tag of a reserved address, or `None` for any other address.
pub fn reserved_tag_of(a: &Address) -> (r: Option<u16>)
    ensures
        match r {
            Some(t) => reserved_tag(a@) == Some(t as int),
            None => reserved_tag(a@) is None,
        },
{
    let mut i: usize = 0;
    while i < 17
        invariant
            i <= 17,
            forall|j: int| 0 <= j < i ==> a@[j] == 0xffu8,
        decreases 17 - i,
    {
        if a.bytes[i] != 0xffu8 {
            return None;
        }
        i = i + 1;
    }
    if a.bytes[17] != 0x02u8 {
        return None;
    }
    Some((a.bytes[18] as u16) * 256 + (a.bytes[19] as u16))
}

/// The address reserved under `tag`.
pub fn reserved(tag: u16) -> (r: Address)
    ensures
        r@ == reserved_address(tag),
        reserved_tag(r@) == Some(tag as int),
{
    let mut bytes = [0xffu8; 20];
    bytes[17] = 0x02u8;
    bytes[18] = (tag / 256) as u8;
    bytes[19] = (tag % 256) as u8;
    let r = Address { bytes };
    assert(r@ =~= reserved_address(tag));
    r
}

/// Whether `addr` is one of the built-in permission contracts.
pub fn is_permssion_contract(addr: &Address) -> (r: bool)
    ensures
        r == is_permission_address(addr@),
{
    match reserved_tag_of(addr) {
        Some(t) => PERMISSION_FIRST <= t && t <= PERMISSION_LAST,
        None => false,
    }
}

/// The registry of native contracts: it owns each contract and routes calls
/// to it by address.
pub struct ContractsFactory {
    pub admin_contract: AdminContract,
    pub group_store: GroupStore,
}

impl ContractsFactory {
    pub open spec fn wf(&self) -> bool {
        self.admin_contract.wf() && self.group_store.wf()
    }

    /// A registry whose contracts have no history yet.
    pub fn new() -> (r: ContractsFactory)
        ensures
            r.wf(),
            r.admin_contract.contracts@ == Map::<u64, Seq<u8>>::empty(),
            r.group_store.contracts@ == Map::<u64, Seq<u8>>::empty(),
    {
        ContractsFactory { admin_contract: AdminContract::new(), group_store: GroupStore::new() }
    }

    /// At genesis: gives the contract bound to `address` a fresh history that
    /// holds `contract` at height 0 alone. Other addresses are left alone.
    pub fn register(&mut self, address: &Address, contract: Vec<u8>)
        requires
            old(self).wf(),
        ensures
            final(self).wf(),
            reserved_tag(address@) == Some(ADMIN as int) ==> final(self).admin_contract.contracts@
                == Map::<u64, Seq<u8>>::empty().insert(0, contract@),
            reserved_tag(address@) != Some(ADMIN as int) ==> final(self).admin_contract.contracts@
                == old(self).admin_contract.contracts@,
            reserved_tag(address@) == Some(GROUP as int) ==> final(self).group_store.contracts@
                == Map::<u64, Seq<u8>>::empty().insert(0, contract@),
            reserved_tag(address@) != Some(GROUP as int) ==> final(self).group_store.contracts@
                == old(self).group_store.contracts@,
    {
        match reserved_tag_of(address) {
            Some(t) => {
                if t == ADMIN {
                    self.admin_contract.init(contract);
                } else if t == GROUP {
                    self.group_store.init(contract);
                }
            },
            None => {},
        }
    }

    /// Whether `addr` is bound to a native contract.
    pub fn is_rs_contract(&self, addr: &Address) -> (r: bool)
        ensures
            r == is_native_address(addr@),
    {
        if is_permssion_contract(addr) {
            return true;
        }
        match reserved_tag_of(addr) {
            Some(t) => t == ADMIN || t == PRICE_MANAGEMENT || t == PERMISSION_MANAGEMENT || t
                == AUTHORIZATION || t == EMERGENCY_INTERVENTION || t == SYS_CONFIG || t
                == QUOTA_MANAGER || t == VERSION_MANAGEMENT || t == GROUP || t
                == GROUP_MANAGEMENT,
            None => false,
        }
    }

    /// Runs a call against the contract bound to its address: the
    /// administrator contract, or the group contract (for the group and the
    /// group-management address), whose authority is the admin in force at the
    /// call's height. No other contract is held here: every other address,
    /// the other reserved ones that `is_rs_contract` reports included, fails
    /// with `NotFoundError` and touches nothing.
    pub fn works(&mut self, params: &CallParams, context: &Context, ledger: &mut LedgerState) -> (r:
        Result<ExecutionResult, ContractError>)
        requires
            old(self).wf(),
        ensures
            final(self).wf(),
            reserved_tag(params.code_address@) == Some(ADMIN as int) ==> {
                &&& admin_call_outcome(
                    old(self).admin_contract.contracts@,
                    final(self).admin_contract.contracts@,
                    old(ledger)@,
                    final(ledger)@,
                    *params,
                    context.block_number,
                    r,
                )
                &&& final(self).group_store.contracts@ == old(self).group_store.contracts@
            },
            is_group_address(params.code_address@) ==> {
                &&& group_call_outcome(
                    old(self).group_store.contracts@,
                    final(self).group_store.contracts@,
                    old(ledger)@,
                    final(ledger)@,
                    *params,
                    context.block_number,
                    stored_admin(old(self).admin_contract.contracts@, context.block_number),
                    r,
                )
                &&& final(self).admin_contract.contracts@ == old(self).admin_contract.contracts@
            },
            reserved_tag(params.code_address@) != Some(ADMIN as int) && !is_group_address(
                params.code_address@,
            ) ==> {
                &&& r == Err::<ExecutionResult, ContractError>(ContractError::NotFoundError)
                &&& final(self).admin_contract.contracts@ == old(self).admin_contract.contracts@
                &&& final(self).group_store.contracts@ == old(self).group_store.contracts@
                &&& final(ledger)@ == old(ledger)@
            },
    {
        match reserved_tag_of(&params.code_address) {
            Some(t) => {
                if t == ADMIN {
                    return self.admin_contract.execute(params, context, ledger);
                }
                if t == GROUP || t == GROUP_MANAGEMENT {
                    let authority = match self.admin_contract.get_latest_item(context.block_number) {
                        Some(a) => Some(a.admin),
                        None => None,
                    };
                    return self.group_store.execute(params, context, ledger, authority);
                }
            },
            None => {},
        }
        Err(ContractError::NotFoundError)
    }
}

} // verus!
