use vstd::prelude::*;
use crate::address::{small_word, small_word_of, u64_to_word, u64_word, Address};
use crate::encoding::{keccak, keccak_of};
use crate::group::{add_all, addrs, remove_all, GroupStore};
use crate::group_manager::within_scope;
use crate::group_state::{
    deserialize_groups, enc_state, parse_state, read_be64, read_u64_at, serialize_groups,
    GroupModel,
};
use crate::ledger::LedgerState;
use crate::snapshot::latest_at_or_before;
use crate::types::{extract_selector, selector_of, CallParams, Context, ContractError, ExecutionResult};

verus! {

/// `addAccounts(address,address,address[])`: origin, target group, accounts.
pub const ADD_ACCOUNTS: u32 = 0x2c84e31f;

/// `deleteAccounts(address,address,address[])`: origin, target group, accounts.
pub const DELETE_ACCOUNTS: u32 = 0xd86df333;

/// `checkScope(address,address)`: whether the second group lies within the first.
pub const CHECK_SCOPE: u32 = 0xeadf4672;

/// The groups recorded in the history `m` as of height `h`.
pub open spec fn stored_groups(m: Map<u64, Seq<u8>>, h: u64) -> Option<
    (Seq<Seq<u8>>, Seq<GroupModel>),
> {
    match latest_at_or_before(m, h) {
        Some(b) => parse_state(b),
        None => None,
    }
}

/// The account list of an `(address,address,address[])` call: after the
/// selector and three words comes the declared count, then one word per
/// account; the input must end exactly there.
pub open spec fn account_list(input: Seq<u8>) -> Option<Seq<Seq<u8>>> {
    if input.len() >= 132 && input.len() == 132 + 32 * read_be64(input, 124) {
        Some(
            Seq::new(
                read_be64(input, 124) as nat,
                |i: int| input.subrange(144 + 32 * i, 164 + 32 * i),
            ),
        )
    } else {
        None
    }
}

/// The group that a call names first (the origin): bytes 16 to 36.
pub open spec fn first_address(input: Seq<u8>) -> Seq<u8> {
    input.subrange(16, 36)
}

/// The group that a call names second (the target): bytes 48 to 68.
pub open spec fn second_address(input: Seq<u8>) -> Seq<u8> {
    input.subrange(48, 68)
}

/// The models `ms` after an account change on the group at `i`.
pub open spec fn with_accounts(
    ms: Seq<GroupModel>,
    i: int,
    adding: bool,
    accounts: Seq<Seq<u8>>,
) -> Seq<GroupModel> {
    let g = ms[i];
    ms.update(
        i,
        (g.0, g.1, if adding {
            add_all(g.2, accounts)
        } else {
            remove_all(g.2, accounts)
        }, g.3),
    )
}

/// What one call `p` at height `h` does to the group history (`m` to `m2`) and
/// the ledger storage (`l` to `l2`), and what it returns, where `authority` is
/// the admin in force at `h`.
pub open spec fn group_call_outcome(
    m: Map<u64, Seq<u8>>,
    m2: Map<u64, Seq<u8>>,
    l: Map<(Seq<u8>, Seq<u8>), Seq<u8>>,
    l2: Map<(Seq<u8>, Seq<u8>), Seq<u8>>,
    p: CallParams,
    h: u64,
    authority: Option<Seq<u8>>,
    r: Result<ExecutionResult, ContractError>,
) -> bool {
    let input = p.input@;
    let st = stored_groups(m, h);
    let known = st is Some;
    let ks = st->Some_0.0;
    let ms = st->Some_0.1;
    let sel = selector_of(input);
    let changing = input.len() >= 4 && (sel == ADD_ACCOUNTS || sel == DELETE_ACCOUNTS);
    let authorized = authority matches Some(a) && p.sender@ == a;
    &&& !(r is Ok && changing) ==> m2 == m && l2 == l
    &&& !known ==> r == Err::<ExecutionResult, ContractError>(ContractError::Internal)
    &&& known && (input.len() < 4 || (sel != ADD_ACCOUNTS && sel != DELETE_ACCOUNTS && sel
        != CHECK_SCOPE)) ==> r == Err::<ExecutionResult, ContractError>(ContractError::DecodeError)
    &&& known && input.len() >= 4 && sel == CHECK_SCOPE && input.len() < 68 ==> r == Err::<
        ExecutionResult,
        ContractError,
    >(ContractError::DecodeError)
    &&& known && input.len() >= 68 && sel == CHECK_SCOPE ==> (r matches Ok(res)
        && res.return_data@ == small_word(
        if within_scope(ks, ms, first_address(input), second_address(input), ks.len()) {
            1u8
        } else {
            0u8
        },
    ) && res.gas == p.gas_limit && res.logs@.len() == 0)
    &&& known && changing && account_list(input) is None ==> r == Err::<
        ExecutionResult,
        ContractError,
    >(ContractError::DecodeError)
    &&& known && changing && account_list(input) is Some && !authorized ==> r == Err::<
        ExecutionResult,
        ContractError,
    >(ContractError::AuthorizationError)
    &&& known && changing && account_list(input) is Some && authorized && !ks.contains(
        second_address(input),
    ) ==> r == Err::<ExecutionResult, ContractError>(ContractError::NotFoundError)
    &&& known && changing && account_list(input) is Some && authorized && ks.contains(
        second_address(input),
    ) ==> {
        let ms2 = with_accounts(
            ms,
            ks.index_of(second_address(input)),
            sel == ADD_ACCOUNTS,
            account_list(input)->Some_0,
        );
        &&& (r matches Ok(res) && res.return_data@ == small_word(1u8) && res.gas == p.gas_limit
            && res.logs@.len() == 0)
        &&& m2 == m.insert(h, enc_state(ks, ms2))
        &&& l2 == l.insert((p.code_address@, u64_word(h)), keccak_of(enc_state(ks, ms2)))
    }
}

/// The accounts of an `(address,address,address[])` call, or `None` where the
/// declared count does not match the input's length.
pub fn decode_account_list(input: &Vec<u8>) -> (r: Option<Vec<Address>>)
    ensures
        match r {
            Some(v) => account_list(input@) == Some(addrs(v@)),
            None => account_list(input@) is None,
        },
{
    let len = input.len();
    if len < 132 {
        return None;
    }
    let n = read_u64_at(input, 124);
    let rest = (len - 132) as u64;
    if rest % 32 != 0 || rest / 32 != n {
        return None;
    }
    let mut v: Vec<Address> = Vec::new();
    let mut i: usize = 0;
    while (i as u64) < n
        invariant
            len == input@.len(),
            len == 132 + 32 * n,
            i <= n,
            v@.len() == i,
            forall|j: int| 0 <= j < i ==> v@[j]@ == input@.subrange(144 + 32 * j, 164 + 32 * j),
        decreases n - i,
    {
        v.push(Address::from_slice_at(input.as_slice(), 144 + 32 * i));
        i = i + 1;
    }
    assert(addrs(v@) =~= account_list(input@)->Some_0);
    Some(v)
}

impl GroupStore {
    /// Runs one call against the groups in force at the call's height. A
    /// successful account change, made by `authority` (the admin in force),
    /// records the new state at that height and writes its Keccak-256 digest
    /// into `ledger`; every other call leaves both untouched.
    pub fn execute(
        &mut self,
        params: &CallParams,
        context: &Context,
        ledger: &mut LedgerState,
        authority: Option<Address>,
    ) -> (r: Result<ExecutionResult, ContractError>)
        requires
            old(self).wf(),
        ensures
            final(self).wf(),
            group_call_outcome(
                old(self).contracts@,
                final(self).contracts@,
                old(ledger)@,
                final(ledger)@,
                *params,
                context.block_number,
                match authority {
                    Some(a) => Some(a@),
                    None => None,
                },
                r,
            ),
    {
        let h = context.block_number;
        let payload = match self.contracts.read_at_or_before(h) {
            Some(b) => b,
            None => {
                return Err(ContractError::Internal);
            },
        };
        let mut groups = match deserialize_groups(&payload) {
            Some(g) => g,
            None => {
                return Err(ContractError::Internal);
            },
        };
        let selector = match extract_selector(&params.input) {
            Some(s) => s,
            None => {
                return Err(ContractError::DecodeError);
            },
        };
        if selector == CHECK_SCOPE {
            if params.input.len() < 68 {
                return Err(ContractError::DecodeError);
            }
            let origin = Address::from_slice_at(params.input.as_slice(), 16);
            let target = Address::from_slice_at(params.input.as_slice(), 48);
            let flag: u8 = if groups.check_scope(&origin, &target) {
                1
            } else {
                0
            };
            Ok(ExecutionResult {
                return_data: small_word_of(flag),
                gas: params.gas_limit,
                logs: Vec::new(),
            })
        } else if selector == ADD_ACCOUNTS || selector == DELETE_ACCOUNTS {
            let accounts = match decode_account_list(&params.input) {
                Some(v) => v,
                None => {
                    return Err(ContractError::DecodeError);
                },
            };
            let allowed = match authority {
                Some(a) => params.sender.same(&a),
                None => false,
            };
            if !allowed {
                return Err(ContractError::AuthorizationError);
            }
            let target = Address::from_slice_at(params.input.as_slice(), 48);
            let changed = if selector == ADD_ACCOUNTS {
                groups.add_accounts(&target, accounts)
            } else {
                groups.delete_accounts(&target, accounts)
            };
            match changed {
                Err(e) => Err(e),
                Ok(()) => {
                    let state = serialize_groups(&groups);
                    let digest = keccak(&state);
                    ledger.set_storage(&params.code_address, u64_to_word(h), digest);
                    self.contracts.write(h, state);
                    Ok(ExecutionResult {
                        return_data: small_word_of(1),
                        gas: params.gas_limit,
                        logs: Vec::new(),
                    })
                },
            }
        } else {
            Err(ContractError::DecodeError)
        }
    }
}

} // verus!
