use vstd::prelude::*;
use crate::address::{address_word, small_word, small_word_of, u64_to_word, u64_word, Address};
use crate::encoding::{
    from_hex, hex_bytes, hex_lower, keccak, keccak_of, lemma_hex_round_trip, to_hex, valid_hex,
};
use crate::ledger::LedgerState;
use crate::snapshot::{is_latest_at_or_before, latest_at_or_before, lemma_latest_is, SnapshotStore};
use crate::types::{
    extract_selector, selector_of, topics_of, CallParams, Context, ContractError, ExecutionResult,
    Log,
};

verus! {

/// `getAdmin()`
pub const GET_ADMIN: u32 = 0xf851a440;

/// `isAdmin(address)`
pub const IS_ADMIN: u32 = 0x24d7806c;

/// `updateAdmin(address)`
pub const UPDATE_ADMIN: u32 = 0x1c1b8772;

/// `{"admin":"0x`
pub open spec fn admin_json_prefix() -> Seq<u8> {
    seq![123u8, 34, 97, 100, 109, 105, 110, 34, 58, 34, 48, 120]
}

/// `"}`
pub open spec fn admin_json_suffix() -> Seq<u8> {
    seq![34u8, 125]
}

/// The serialized state of an administrator contract whose admin is `a`:
/// `{"admin":"0x<hex of a>"}`.
pub open spec fn admin_json(a: Seq<u8>) -> Seq<u8> {
    admin_json_prefix() + hex_lower(a) + admin_json_suffix()
}

/// The admin that the serialized state `s` holds, if `s` is well formed.
pub open spec fn parse_admin(s: Seq<u8>) -> Option<Seq<u8>> {
    if s.len() == 54 && s.subrange(0, 12) == admin_json_prefix() && s.subrange(52, 54)
        == admin_json_suffix() && valid_hex(s.subrange(12, 52)) {
        Some(hex_bytes(s.subrange(12, 52)))
    } else {
        None
    }
}

/// The admin recorded in the history `m` as of height `h`.
pub open spec fn stored_admin(m: Map<u64, Seq<u8>>, h: u64) -> Option<Seq<u8>> {
    match latest_at_or_before(m, h) {
        Some(p) => parse_admin(p),
        None => None,
    }
}

/// `AdminUpdated(address,address,address)`
pub open spec fn admin_updated_signature() -> Seq<u8> {
    seq![
        65u8, 100, 109, 105, 110, 85, 112, 100, 97, 116, 101, 100, 40, 97, 100, 100, 114, 101,
        115, 115, 44, 97, 100, 100, 114, 101, 115, 115, 44, 97, 100, 100, 114, 101, 115, 115, 41
    ]
}

/// The event of an admin change to `new_admin` made by `sender`. Its second
/// topic holds the admin as it stands after the change, so it repeats `new_admin`.
pub open spec fn is_admin_updated_log(l: Log, new_admin: Seq<u8>, sender: Seq<u8>) -> bool {
    &&& l.address@ == new_admin
    &&& topics_of(l) == seq![
        keccak_of(admin_updated_signature()),
        address_word(new_admin),
        address_word(new_admin),
        address_word(sender),
    ]
    &&& l.data@.len() == 0
}

/// The address argument of a call: bytes 16 to 36 of its input.
pub open spec fn address_argument(input: Seq<u8>) -> Seq<u8> {
    input.subrange(16, 36)
}

/// Serializing an admin state and reading it back gives the same admin.
pub proof fn lemma_admin_round_trip(a: Seq<u8>)
    requires
        a.len() == 20,
    ensures
        parse_admin(admin_json(a)) == Some(a),
{
    let s = admin_json(a);
    lemma_hex_round_trip(a);
    assert(s.subrange(0, 12) =~= admin_json_prefix());
    assert(s.subrange(12, 52) =~= hex_lower(a));
    assert(s.subrange(52, 54) =~= admin_json_suffix());
}

/// What one call `p` at height `h` does to the contract's history (`m` to `m2`)
/// and to the ledger storage (`l` to `l2`), and what it returns (`r`).
pub open spec fn admin_call_outcome(
    m: Map<u64, Seq<u8>>,
    m2: Map<u64, Seq<u8>>,
    l: Map<(Seq<u8>, Seq<u8>), Seq<u8>>,
    l2: Map<(Seq<u8>, Seq<u8>), Seq<u8>>,
    p: CallParams,
    h: u64,
    r: Result<ExecutionResult, ContractError>,
) -> bool {
    let input = p.input@;
    let known = stored_admin(m, h) is Some;
    let a = stored_admin(m, h)->Some_0;
    let sel = selector_of(input);
    let updating = r is Ok && input.len() >= 4 && sel == UPDATE_ADMIN;
    &&& !updating ==> m2 == m && l2 == l
    &&& !known ==> r == Err::<ExecutionResult, ContractError>(ContractError::Internal)
    &&& known && (input.len() < 4 || (sel != GET_ADMIN && sel != IS_ADMIN && sel
        != UPDATE_ADMIN)) ==> r == Err::<ExecutionResult, ContractError>(
        ContractError::DecodeError,
    )
    &&& known && input.len() >= 4 && sel == GET_ADMIN ==> (r matches Ok(res)
        && res.return_data@ == address_word(a) && res.gas == 0 && res.logs@.len() == 0)
    &&& known && input.len() >= 4 && sel != GET_ADMIN && input.len() < 36 ==> r
        == Err::<ExecutionResult, ContractError>(ContractError::DecodeError)
    &&& known && input.len() >= 36 && sel == IS_ADMIN ==> (r matches Ok(res)
        && res.return_data@ == small_word(
        if address_argument(input) == a {
            1u8
        } else {
            0u8
        },
    ) && res.gas == p.gas_limit && res.logs@.len() == 0)
    &&& known && input.len() >= 36 && sel == UPDATE_ADMIN && p.sender@ != a ==> r
        == Err::<ExecutionResult, ContractError>(ContractError::AuthorizationError)
    &&& known && input.len() >= 36 && sel == UPDATE_ADMIN && p.sender@ == a ==> {
        &&& (r matches Ok(res) && res.return_data@ == small_word(1u8) && res.gas
            == p.gas_limit && res.logs@.len() == 1 && is_admin_updated_log(
            res.logs@[0],
            address_argument(input),
            p.sender@,
        ))
        &&& m2 == m.insert(h, admin_json(address_argument(input)))
        &&& l2 == l.insert(
            (p.code_address@, u64_word(h)),
            keccak_of(admin_json(address_argument(input))),
        )
    }
}

/// After genesis with the state of admin `a`, that admin is in force at every
/// height until a later state is recorded.
pub proof fn lemma_genesis_admin_in_force(a: Seq<u8>, h: u64)
    requires
        a.len() == 20,
    ensures
        stored_admin(Map::<u64, Seq<u8>>::empty().insert(0, admin_json(a)), h) == Some(a),
{
    let m = Map::<u64, Seq<u8>>::empty().insert(0, admin_json(a));
    assert(is_latest_at_or_before(m, h, 0));
    lemma_latest_is(m, h, 0);
    lemma_admin_round_trip(a);
}

/// Queries are idempotent: two `getAdmin` or `isAdmin` calls in a row with the
/// same input write nothing and give the same answer.
pub proof fn lemma_query_idempotent(
    m0: Map<u64, Seq<u8>>,
    m1: Map<u64, Seq<u8>>,
    m2: Map<u64, Seq<u8>>,
    l0: Map<(Seq<u8>, Seq<u8>), Seq<u8>>,
    l1: Map<(Seq<u8>, Seq<u8>), Seq<u8>>,
    l2: Map<(Seq<u8>, Seq<u8>), Seq<u8>>,
    p: CallParams,
    h: u64,
    r1: Result<ExecutionResult, ContractError>,
    r2: Result<ExecutionResult, ContractError>,
)
    requires
        p.input@.len() >= 4,
        selector_of(p.input@) == GET_ADMIN || selector_of(p.input@) == IS_ADMIN,
        admin_call_outcome(m0, m1, l0, l1, p, h, r1),
        admin_call_outcome(m1, m2, l1, l2, p, h, r2),
    ensures
        m1 == m0 && m2 == m0,
        l1 == l0 && l2 == l0,
        r1 is Ok <==> r2 is Ok,
        r1 matches Err(e) ==> r2 == Err::<ExecutionResult, ContractError>(e),
        r1 matches Ok(a) ==> (r2 matches Ok(b) && a.return_data@ == b.return_data@ && a.gas
            == b.gas && a.logs@.len() == b.logs@.len()),
{
}

/// An `updateAdmin` call by anyone but the admin of record is refused, records
/// no new state and writes nothing to the ledger: the admin stays the same at
/// every height.
pub proof fn lemma_non_admin_update_changes_nothing(
    m: Map<u64, Seq<u8>>,
    m2: Map<u64, Seq<u8>>,
    l: Map<(Seq<u8>, Seq<u8>), Seq<u8>>,
    l2: Map<(Seq<u8>, Seq<u8>), Seq<u8>>,
    p: CallParams,
    h: u64,
    r: Result<ExecutionResult, ContractError>,
)
    requires
        admin_call_outcome(m, m2, l, l2, p, h, r),
        p.input@.len() >= 36,
        selector_of(p.input@) == UPDATE_ADMIN,
        stored_admin(m, h) matches Some(a) && p.sender@ != a,
    ensures
        r == Err::<ExecutionResult, ContractError>(ContractError::AuthorizationError),
        m2 == m,
        l2 == l,
        forall|h2: u64| stored_admin(m2, h2) == stored_admin(m, h2),
{
}

/// The state of the administrator contract: the account that governs the chain.
#[derive(Clone, Copy, Debug)]
pub struct Admin {
    pub admin: Address,
}

impl Admin {
    pub fn init(admin: Address) -> (r: Admin)
        ensures
            r.admin@ == admin@,
    {
        Admin { admin }
    }

    /// Whether `sender` is the admin.
    pub fn only_admin(&self, sender: &Address) -> (r: bool)
        ensures
            r == (sender@ == self.admin@),
    {
        sender.same(&self.admin)
    }

    /// The serialized state.
    pub fn serialize(&self) -> (r: Vec<u8>)
        ensures
            r@ == admin_json(self.admin@),
    {
        let mut r: Vec<u8> = vec![123u8, 34, 97, 100, 109, 105, 110, 34, 58, 34, 48, 120];
        assert(r@ =~= admin_json_prefix());
        let digits = to_hex(&self.admin.to_vec());
        let mut i: usize = 0;
        while i < digits.len()
            invariant
                r@ =~= admin_json_prefix() + digits@.subrange(0, i as int),
                i <= digits@.len(),
            decreases digits@.len() - i,
        {
            r.push(digits[i]);
            i = i + 1;
        }
        assert(digits@.subrange(0, digits@.len() as int) =~= digits@);
        r.push(34u8);
        r.push(125u8);
        assert(r@ =~= admin_json(self.admin@));
        r
    }

    /// The state serialized in `b`; `None` where `b` is not such a state.
    pub fn deserialize(b: &Vec<u8>) -> (r: Option<Admin>)
        ensures
            match r {
                Some(a) => parse_admin(b@) == Some(a.admin@),
                None => parse_admin(b@) is None,
            },
    {
        if b.len() != 54 {
            return None;
        }
        let prefix: Vec<u8> = vec![123u8, 34, 97, 100, 109, 105, 110, 34, 58, 34, 48, 120];
        assert(prefix@ =~= admin_json_prefix());
        let mut i: usize = 0;
        while i < 12
            invariant
                b@.len() == 54,
                prefix@ == admin_json_prefix(),
                i <= 12,
                forall|j: int| 0 <= j < i ==> b@[j] == prefix@[j],
            decreases 12 - i,
        {
            if b[i] != prefix[i] {
                assert(b@.subrange(0, 12)[i as int] != admin_json_prefix()[i as int]);
                return None;
            }
            i = i + 1;
        }
        assert(b@.subrange(0, 12) =~= admin_json_prefix());
        if b[52] != 34u8 || b[53] != 125u8 {
            assert(b@.subrange(52, 54)[0] != admin_json_suffix()[0] || b@.subrange(52, 54)[1]
                != admin_json_suffix()[1]);
            return None;
        }
        assert(b@.subrange(52, 54) =~= admin_json_suffix());
        let mut digits: Vec<u8> = Vec::new();
        let mut k: usize = 12;
        while k < 52
            invariant
                b@.len() == 54,
                12 <= k <= 52,
                digits@ =~= b@.subrange(12, k as int),
            decreases 52 - k,
        {
            digits.push(b[k]);
            k = k + 1;
        }
        match from_hex(&digits) {
            Some(v) => {
                match Address::from_bytes(v.as_slice()) {
                    Some(a) => Some(Admin { admin: a }),
                    None => None,
                }
            },
            None => None,
        }
    }

    /// `getAdmin()`: the admin as a right-aligned word.
    fn get_admin(&self) -> (r: Result<ExecutionResult, ContractError>)
        ensures
            (r matches Ok(res) && res.return_data@ == address_word(self.admin@) && res.gas == 0
                && res.logs@.len() == 0),
    {
        Ok(ExecutionResult { return_data: self.admin.to_word(), gas: 0, logs: Vec::new() })
    }

    /// `isAdmin(address)`: a word holding 1 where the argument is the admin, else 0.
    fn is_admin(&self, params: &CallParams) -> (r: Result<ExecutionResult, ContractError>)
        ensures
            params.input@.len() < 36 ==> r == Err::<ExecutionResult, ContractError>(
                ContractError::DecodeError,
            ),
            params.input@.len() >= 36 ==> (r matches Ok(res) && res.return_data@ == small_word(
                if address_argument(params.input@) == self.admin@ {
                    1u8
                } else {
                    0u8
                },
            ) && res.gas == params.gas_limit && res.logs@.len() == 0),
    {
        if params.input.len() < 36 {
            return Err(ContractError::DecodeError);
        }
        let target = Address::from_slice_at(params.input.as_slice(), 16);
        let flag: u8 = if target.same(&self.admin) {
            1
        } else {
            0
        };
        Ok(ExecutionResult {
            return_data: small_word_of(flag),
            gas: params.gas_limit,
            logs: Vec::new(),
        })
    }

    /// `updateAdmin(address)`: the admin hands its role to the argument.
    fn update(&mut self, params: &CallParams) -> (r: Result<ExecutionResult, ContractError>)
        ensures
            params.input@.len() < 36 ==> r == Err::<ExecutionResult, ContractError>(
                ContractError::DecodeError,
            ),
            params.input@.len() >= 36 && params.sender@ != old(self).admin@ ==> r == Err::<
                ExecutionResult,
                ContractError,
            >(ContractError::AuthorizationError),
            r is Err ==> final(self).admin@ == old(self).admin@,
            params.input@.len() >= 36 && params.sender@ == old(self).admin@ ==> {
                &&& final(self).admin@ == address_argument(params.input@)
                &&& (r matches Ok(res) && res.return_data@ == small_word(1u8) && res.gas
                    == params.gas_limit && res.logs@.len() == 1 && is_admin_updated_log(
                    res.logs@[0],
                    address_argument(params.input@),
                    params.sender@,
                ))
            },
    {
        if params.input.len() < 36 {
            return Err(ContractError::DecodeError);
        }
        let new_admin = Address::from_slice_at(params.input.as_slice(), 16);
        if !self.only_admin(&params.sender) {
            return Err(ContractError::AuthorizationError);
        }
        self.admin = new_admin;
        let signature: Vec<u8> = vec![
            65u8, 100, 109, 105, 110, 85, 112, 100, 97, 116, 101, 100, 40, 97, 100, 100, 114, 101,
            115, 115, 44, 97, 100, 100, 114, 101, 115, 115, 44, 97, 100, 100, 114, 101, 115, 115, 41
        ];
        assert(signature@ =~= admin_updated_signature());
        let mut topics: Vec<Vec<u8>> = Vec::new();
        topics.push(keccak(&signature));
        topics.push(new_admin.to_word());
        topics.push(self.admin.to_word());
        topics.push(params.sender.to_word());
        let log = Log { address: new_admin, topics, data: Vec::new() };
        assert(topics_of(log) =~= seq![
            keccak_of(admin_updated_signature()),
            address_word(new_admin@),
            address_word(new_admin@),
            address_word(params.sender@),
        ]);
        let mut logs: Vec<Log> = Vec::new();
        logs.push(log);
        Ok(ExecutionResult { return_data: small_word_of(1), gas: params.gas_limit, logs })
    }
}

/// The administrator contract: the history of its state, keyed by height.
pub struct AdminContract {
    pub contracts: SnapshotStore,
}

impl AdminContract {
    pub open spec fn wf(&self) -> bool {
        self.contracts.wf()
    }

    /// A contract with no history yet.
    pub fn new() -> (r: AdminContract)
        ensures
            r.wf(),
            r.contracts@ == Map::<u64, Seq<u8>>::empty(),
    {
        AdminContract { contracts: SnapshotStore::new() }
    }

    /// Starts the history afresh with the genesis state `payload` at height 0;
    /// whatever was recorded before is dropped.
    pub fn init(&mut self, payload: Vec<u8>)
        ensures
            final(self).wf(),
            final(self).contracts@ == Map::<u64, Seq<u8>>::empty().insert(0, payload@),
    {
        self.contracts = SnapshotStore::new();
        self.contracts.write(0, payload);
    }

    /// The state in force at `current_height`; `None` where there is none or it
    /// cannot be read.
    pub fn get_latest_item(&self, current_height: u64) -> (r: Option<Admin>)
        requires
            self.wf(),
        ensures
            match r {
                Some(a) => stored_admin(self.contracts@, current_height) == Some(a.admin@),
                None => stored_admin(self.contracts@, current_height) is None,
            },
    {
        match self.contracts.read_at_or_before(current_height) {
            Some(payload) => Admin::deserialize(&payload),
            None => None,
        }
    }

    /// Runs one call against the state in force at the call's height. A
    /// successful `updateAdmin` records the new state at that height and writes
    /// its Keccak-256 digest into `ledger`, under the contract's address and the
    /// height as a word; every other call leaves both untouched.
    pub fn execute(
        &mut self,
        params: &CallParams,
        context: &Context,
        ledger: &mut LedgerState,
    ) -> (r: Result<ExecutionResult, ContractError>)
        requires
            old(self).wf(),
        ensures
            final(self).wf(),
            admin_call_outcome(
                old(self).contracts@,
                final(self).contracts@,
                old(ledger)@,
                final(ledger)@,
                *params,
                context.block_number,
                r,
            ),
    {
        let h = context.block_number;
        let mut item = match self.get_latest_item(h) {
            Some(a) => a,
            None => {
                return Err(ContractError::Internal);
            },
        };
        let selector = match extract_selector(&params.input) {
            Some(s) => s,
            None => {
                return Err(ContractError::DecodeError);
            },
        };
        if selector == GET_ADMIN {
            item.get_admin()
        } else if selector == IS_ADMIN {
            item.is_admin(params)
        } else if selector == UPDATE_ADMIN {
            let result = item.update(params);
            match result {
                Ok(res) => {
                    let state = item.serialize();
                    let digest = keccak(&state);
                    ledger.set_storage(&params.code_address, u64_to_word(h), digest);
                    self.contracts.write(h, state);
                    Ok(res)
                },
                Err(e) => Err(e),
            }
        } else {
            Err(ContractError::DecodeError)
        }
    }
}

} // verus!
