use rs_contracts::address::Address;
use rs_contracts::admin::{Admin, AdminContract};
use rs_contracts::encoding::string_2_bytes;
use rs_contracts::ledger::LedgerState;
use rs_contracts::types::{CallParams, Context, ContractError, ExecutionResult};

fn addr(s: &str) -> Address {
    Address::from_bytes(&string_2_bytes(s.to_string())).unwrap()
}

fn params(input: Vec<u8>, sender: &str) -> CallParams {
    CallParams {
        code_address: addr("0xffffffffffffffffffffffffffffffffff02000c"),
        sender: addr(sender),
        input,
        gas_limit: 0,
        read_only: false,
    }
}

fn genesis(admin: &str) -> AdminContract {
    let a = Admin::init(addr(admin));
    let mut admin_contract = AdminContract::new();
    admin_contract.init(a.serialize());
    admin_contract
}

fn run(c: &mut AdminContract, ledger: &mut LedgerState, p: &CallParams, height: u64) -> ExecutionResult {
    c.execute(p, &Context { block_number: height }, ledger).unwrap()
}

const ZERO: &str = "0x0000000000000000000000000000000000000000";

#[test]
fn test_admin_seralization() {
    let admin_contract = Admin::init(addr("0x17142e6484cb72d1f1e6dca02eedf877a90e49d9"));
    let serialized = admin_contract.serialize();
    let admin_deserialized = Admin::deserialize(&serialized).unwrap();
    assert_eq!(admin_contract.admin, admin_deserialized.admin);
}

#[test]
fn serialized_state_is_the_json_record() {
    let a = Admin::init(addr("0x17142e6484cb72d1f1e6dca02eedf877a90e49d9"));
    assert_eq!(
        String::from_utf8(a.serialize()).unwrap(),
        "{\"admin\":\"0x17142e6484cb72d1f1e6dca02eedf877a90e49d9\"}"
    );
}

#[test]
fn deserialize_accepts_upper_case_and_rejects_malformed() {
    let upper = b"{\"admin\":\"0x17142E6484CB72D1F1E6DCA02EEDF877A90E49D9\"}".to_vec();
    let a = Admin::deserialize(&upper).unwrap();
    assert_eq!(a.admin, addr("0x17142e6484cb72d1f1e6dca02eedf877a90e49d9"));
    let bad = b"{\"admin\":\"0x17142e6484cb72d1f1e6dca02eedf877a90e49zz\"}".to_vec();
    assert!(Admin::deserialize(&bad).is_none());
    assert!(Admin::deserialize(&b"{}".to_vec()).is_none());
}

#[test]
fn test_get_admin() {
    let mut admin_contract = genesis("0x4b5ae4567ad5d9fb92bc9afd6a657e6fa13a2523");
    let mut ledger = LedgerState::new();
    let get_admin_input = vec![248, 81, 164, 64];
    let p = params(get_admin_input, ZERO);
    let result = run(&mut admin_contract, &mut ledger, &p, 0);
    let expected_output = vec![
        0, 0, 0, 0, 0, 0, 0, 0, 0, 0, 0, 0, 75, 90, 228, 86, 122, 213, 217, 251, 146, 188, 154,
        253, 106, 101, 126, 111, 161, 58, 37, 35,
    ];
    assert_eq!(result.return_data, expected_output);
}

#[test]
fn test_is_admin_return_true() {
    let mut admin_contract = genesis("0x4b5ae4567ad5d9fb92bc9afd6a657e6fa13a2523");
    let mut ledger = LedgerState::new();
    let is_admin_input = vec![
        36, 215, 128, 108, 0, 0, 0, 0, 0, 0, 0, 0, 0, 0, 0, 0, 75, 90, 228, 86, 122, 213, 217,
        251, 146, 188, 154, 253, 106, 101, 126, 111, 161, 58, 37, 35,
    ];
    let p = params(is_admin_input, ZERO);
    let result = run(&mut admin_contract, &mut ledger, &p, 0);
    let output_true = vec![
        0, 0, 0, 0, 0, 0, 0, 0, 0, 0, 0, 0, 0, 0, 0, 0, 0, 0, 0, 0, 0, 0, 0, 0, 0, 0, 0, 0, 0, 0,
        0, 1,
    ];
    assert_eq!(result.return_data, output_true);
}

#[test]
fn test_is_admin_return_false() {
    let mut admin_contract = genesis("0x4b5ae4567ad5d9fb92bc9afd6a657e6fa13a2523");
    let mut ledger = LedgerState::new();
    let is_admin_input = vec![
        36, 215, 128, 108, 0, 0, 0, 0, 0, 0, 0, 0, 0, 0, 0, 0, 23, 20, 46, 100, 132, 203, 114,
        209, 241, 230, 220, 160, 46, 237, 248, 119, 169, 14, 73, 217,
    ];
    let p = params(is_admin_input, ZERO);
    let result = run(&mut admin_contract, &mut ledger, &p, 0);
    let output_false = vec![0u8; 32];
    assert_eq!(result.return_data, output_false);
}

fn get_admin_at(c: &mut AdminContract, ledger: &mut LedgerState, height: u64) -> Vec<u8> {
    let p = params(vec![248, 81, 164, 64], ZERO);
    run(c, ledger, &p, height).return_data
}

#[test]
fn test_update_admin() {
    let mut admin_contract = genesis("0x4b5ae4567ad5d9fb92bc9afd6a657e6fa13a2523");
    let mut ledger = LedgerState::new();
    let update_admin_input = vec![
        28, 27, 135, 114, 0, 0, 0, 0, 0, 0, 0, 0, 0, 0, 0, 0, 23, 20, 46, 100, 132, 203, 114,
        209, 241, 230, 220, 160, 46, 237, 248, 119, 169, 14, 73, 217,
    ];
    let p = params(update_admin_input, "0x4b5ae4567ad5d9fb92bc9afd6a657e6fa13a2523");
    let result = run(&mut admin_contract, &mut ledger, &p, 4);
    let expected_output = vec![
        0, 0, 0, 0, 0, 0, 0, 0, 0, 0, 0, 0, 0, 0, 0, 0, 0, 0, 0, 0, 0, 0, 0, 0, 0, 0, 0, 0, 0, 0,
        0, 1,
    ];
    assert_eq!(result.return_data, expected_output);

    let old_admin = vec![
        0, 0, 0, 0, 0, 0, 0, 0, 0, 0, 0, 0, 75, 90, 228, 86, 122, 213, 217, 251, 146, 188, 154,
        253, 106, 101, 126, 111, 161, 58, 37, 35,
    ];
    let new_admin = vec![
        0, 0, 0, 0, 0, 0, 0, 0, 0, 0, 0, 0, 23, 20, 46, 100, 132, 203, 114, 209, 241, 230, 220,
        160, 46, 237, 248, 119, 169, 14, 73, 217,
    ];
    assert_eq!(get_admin_at(&mut admin_contract, &mut ledger, 0), old_admin);
    assert_eq!(get_admin_at(&mut admin_contract, &mut ledger, 2), old_admin);
    assert_eq!(get_admin_at(&mut admin_contract, &mut ledger, 4), new_admin);
    assert_eq!(get_admin_at(&mut admin_contract, &mut ledger, 50), new_admin);
}

#[test]
fn update_emits_one_log_with_repeated_new_admin_topic() {
    let mut c = genesis("0xaaaaaaaaaaaaaaaaaaaaaaaaaaaaaaaaaaaaaaaa");
    let mut ledger = LedgerState::new();
    let mut input = vec![28, 27, 135, 114];
    input.extend(vec![0u8; 12]);
    input.extend(vec![0xccu8; 20]);
    let p = params(input, "0xaaaaaaaaaaaaaaaaaaaaaaaaaaaaaaaaaaaaaaaa");
    let res = run(&mut c, &mut ledger, &p, 4);
    assert_eq!(res.logs.len(), 1);
    let log = &res.logs[0];
    assert_eq!(log.address, addr("0xcccccccccccccccccccccccccccccccccccccccc"));
    assert_eq!(log.topics.len(), 4);
    assert_eq!(
        log.topics[0],
        tiny_keccak::keccak256(b"AdminUpdated(address,address,address)").to_vec()
    );
    let mut c_word = vec![0u8; 12];
    c_word.extend(vec![0xccu8; 20]);
    let mut a_word = vec![0u8; 12];
    a_word.extend(vec![0xaau8; 20]);
    assert_eq!(log.topics[1], c_word);
    assert_eq!(log.topics[2], c_word);
    assert_eq!(log.topics[3], a_word);
    assert!(log.data.is_empty());
}

#[test]
fn update_commits_state_digest_to_ledger() {
    let mut c = genesis("0xaaaaaaaaaaaaaaaaaaaaaaaaaaaaaaaaaaaaaaaa");
    let mut ledger = LedgerState::new();
    let mut input = vec![28, 27, 135, 114];
    input.extend(vec![0u8; 12]);
    input.extend(vec![0xccu8; 20]);
    let p = params(input, "0xaaaaaaaaaaaaaaaaaaaaaaaaaaaaaaaaaaaaaaaa");
    run(&mut c, &mut ledger, &p, 4);
    let state = "{\"admin\":\"0xcccccccccccccccccccccccccccccccccccccccc\"}";
    let expected = tiny_keccak::keccak256(state.as_bytes()).to_vec();
    let mut slot = vec![0u8; 31];
    slot.push(4);
    assert_eq!(ledger.get_storage(&p.code_address, &slot), Some(expected));
    assert_eq!(c.contracts.read_at_or_before(4), Some(state.as_bytes().to_vec()));
}

#[test]
fn update_by_non_admin_is_refused_and_writes_nothing() {
    let mut c = genesis("0xaaaaaaaaaaaaaaaaaaaaaaaaaaaaaaaaaaaaaaaa");
    let mut ledger = LedgerState::new();
    let mut input = vec![28, 27, 135, 114];
    input.extend(vec![0u8; 12]);
    input.extend(vec![0xccu8; 20]);
    let p = params(input, "0xbbbbbbbbbbbbbbbbbbbbbbbbbbbbbbbbbbbbbbbb");
    let r = c.execute(&p, &Context { block_number: 4 }, &mut ledger);
    assert!(matches!(r, Err(ContractError::AuthorizationError)));
    let mut a_word = vec![0u8; 12];
    a_word.extend(vec![0xaau8; 20]);
    for h in [0u64, 3, 4, 100] {
        assert_eq!(get_admin_at(&mut c, &mut ledger, h), a_word);
    }
    let mut slot = vec![0u8; 31];
    slot.push(4);
    assert_eq!(ledger.get_storage(&p.code_address, &slot), None);
    assert_eq!(c.contracts.read_at_or_before(4), c.contracts.read_at_or_before(0));
}

#[test]
fn is_admin_scenario_true_and_false_words() {
    let mut c = genesis("0xaaaaaaaaaaaaaaaaaaaaaaaaaaaaaaaaaaaaaaaa");
    let mut ledger = LedgerState::new();
    let mut yes = vec![36, 215, 128, 108];
    yes.extend(vec![0u8; 12]);
    yes.extend(vec![0xaau8; 20]);
    let mut no = vec![36, 215, 128, 108];
    no.extend(vec![0u8; 12]);
    no.extend(vec![0xbbu8; 20]);
    let r1 = run(&mut c, &mut ledger, &params(yes, ZERO), 0);
    let r2 = run(&mut c, &mut ledger, &params(no, ZERO), 0);
    let mut one = vec![0u8; 31];
    one.push(1);
    assert_eq!(r1.return_data, one);
    assert_eq!(r2.return_data, vec![0u8; 32]);
}

#[test]
fn queries_repeat_without_writing() {
    let mut c = genesis("0xaaaaaaaaaaaaaaaaaaaaaaaaaaaaaaaaaaaaaaaa");
    let mut ledger = LedgerState::new();
    let p = params(vec![248, 81, 164, 64], ZERO);
    let r1 = run(&mut c, &mut ledger, &p, 7);
    let r2 = run(&mut c, &mut ledger, &p, 7);
    assert_eq!(r1.return_data, r2.return_data);
    assert_eq!(r1.gas, r2.gas);
    assert_eq!(c.contracts.read_at_or_before(7), c.contracts.read_at_or_before(0));
    let mut slot = vec![0u8; 31];
    slot.push(7);
    assert_eq!(ledger.get_storage(&p.code_address, &slot), None);
}

#[test]
fn short_or_unknown_input_is_a_decode_error() {
    let mut c = genesis("0xaaaaaaaaaaaaaaaaaaaaaaaaaaaaaaaaaaaaaaaa");
    let mut ledger = LedgerState::new();
    let ctx = Context { block_number: 1 };
    let r = c.execute(&params(vec![248, 81], ZERO), &ctx, &mut ledger);
    assert!(matches!(r, Err(ContractError::DecodeError)));
    let r = c.execute(&params(vec![1, 2, 3, 4], ZERO), &ctx, &mut ledger);
    assert!(matches!(r, Err(ContractError::DecodeError)));
    let r = c.execute(&params(vec![36, 215, 128, 108, 0, 0], ZERO), &ctx, &mut ledger);
    assert!(matches!(r, Err(ContractError::DecodeError)));
}

#[test]
fn uninitialized_contract_is_an_internal_error() {
    let mut c = AdminContract::new();
    let mut ledger = LedgerState::new();
    let r = c.execute(&params(vec![248, 81, 164, 64], ZERO), &Context { block_number: 3 }, &mut ledger);
    assert!(matches!(r, Err(ContractError::Internal)));
}

#[test]
fn only_admin_compares_addresses() {
    let a = Admin::init(addr("0xaaaaaaaaaaaaaaaaaaaaaaaaaaaaaaaaaaaaaaaa"));
    assert!(a.only_admin(&addr("0xaaaaaaaaaaaaaaaaaaaaaaaaaaaaaaaaaaaaaaaa")));
    assert!(!a.only_admin(&addr("0xbbbbbbbbbbbbbbbbbbbbbbbbbbbbbbbbbbbbbbbb")));
}

#[test]
fn init_again_drops_later_history() {
    let mut c = genesis("0xaaaaaaaaaaaaaaaaaaaaaaaaaaaaaaaaaaaaaaaa");
    let mut ledger = LedgerState::new();
    let mut input = vec![28, 27, 135, 114];
    input.extend(vec![0u8; 12]);
    input.extend(vec![0xccu8; 20]);
    let p = params(input, "0xaaaaaaaaaaaaaaaaaaaaaaaaaaaaaaaaaaaaaaaa");
    run(&mut c, &mut ledger, &p, 4);
    c.init(Admin::init(addr("0xdddddddddddddddddddddddddddddddddddddddd")).serialize());
    let mut d_word = vec![0u8; 12];
    d_word.extend(vec![0xddu8; 20]);
    assert_eq!(get_admin_at(&mut c, &mut ledger, 0), d_word);
    assert_eq!(get_admin_at(&mut c, &mut ledger, 4), d_word);
    assert_eq!(get_admin_at(&mut c, &mut ledger, 50), d_word);
    assert_eq!(c.contracts.entries().len(), 1);
}
