use rs_contracts::address::Address;
use rs_contracts::admin::Admin;
use rs_contracts::encoding::string_2_bytes;
use rs_contracts::factory::{is_permssion_contract, reserved, ContractsFactory, ADMIN, GROUP};
use rs_contracts::ledger::LedgerState;
use rs_contracts::types::{CallParams, Context, ContractError};

fn addr(s: &str) -> Address {
    Address::from_bytes(&string_2_bytes(s.to_string())).unwrap()
}

#[test]
fn reserved_addresses_are_native() {
    let f = ContractsFactory::new();
    assert_eq!(reserved(ADMIN), addr("0xffffffffffffffffffffffffffffffffff02000c"));
    assert!(f.is_rs_contract(&addr("0xffffffffffffffffffffffffffffffffff02000c")));
    assert!(f.is_rs_contract(&addr("0xffffffffffffffffffffffffffffffffff020009")));
    assert!(f.is_rs_contract(&addr("0xffffffffffffffffffffffffffffffffff021000")));
    assert!(f.is_rs_contract(&addr("0xffffffffffffffffffffffffffffffffff0210ff")));
    assert!(!f.is_rs_contract(&addr("0xffffffffffffffffffffffffffffffffff020001")));
    assert!(!f.is_rs_contract(&addr("0xffffffffffffffffffffffffffffffffff021100")));
    assert!(!f.is_rs_contract(&addr("0x4b5ae4567ad5d9fb92bc9afd6a657e6fa13a2523")));
    assert!(is_permssion_contract(&addr("0xffffffffffffffffffffffffffffffffff021001")));
    assert!(!is_permssion_contract(&addr("0xffffffffffffffffffffffffffffffffff02000c")));
}

#[test]
fn dispatch_routes_admin_calls() {
    let mut f = ContractsFactory::new();
    let admin = addr("0xaaaaaaaaaaaaaaaaaaaaaaaaaaaaaaaaaaaaaaaa");
    f.register(&reserved(ADMIN), Admin::init(admin).serialize());
    let mut ledger = LedgerState::new();
    let p = CallParams {
        code_address: reserved(ADMIN),
        sender: admin,
        input: vec![248, 81, 164, 64],
        gas_limit: 100,
        read_only: true,
    };
    let r = f.works(&p, &Context { block_number: 0 }, &mut ledger).unwrap();
    let mut word = vec![0u8; 12];
    word.extend(vec![0xaau8; 20]);
    assert_eq!(r.return_data, word);
    assert_eq!(r.gas, 0);
}

#[test]
fn dispatch_to_unknown_address_is_not_found() {
    let mut f = ContractsFactory::new();
    f.register(&reserved(ADMIN), Admin::init(addr("0xaaaaaaaaaaaaaaaaaaaaaaaaaaaaaaaaaaaaaaaa")).serialize());
    let mut ledger = LedgerState::new();
    let p = CallParams {
        code_address: addr("0x1234567890123456789012345678901234567890"),
        sender: addr("0xaaaaaaaaaaaaaaaaaaaaaaaaaaaaaaaaaaaaaaaa"),
        input: vec![28, 27, 135, 114],
        gas_limit: 100,
        read_only: false,
    };
    let r = f.works(&p, &Context { block_number: 2 }, &mut ledger);
    assert!(matches!(r, Err(ContractError::NotFoundError)));
    let mut slot = vec![0u8; 31];
    slot.push(2);
    assert_eq!(ledger.get_storage(&p.code_address, &slot), None);
    assert_eq!(f.admin_contract.contracts.read_at_or_before(2), f.admin_contract.contracts.read_at_or_before(0));
}

#[test]
fn register_writes_genesis_of_the_bound_contract_only() {
    let mut f = ContractsFactory::new();
    f.register(&reserved(GROUP), vec![7, 7]);
    assert_eq!(f.group_store.contracts.read_at_or_before(0), Some(vec![7, 7]));
    assert_eq!(f.admin_contract.contracts.read_at_or_before(0), None);
    f.register(&addr("0x1234567890123456789012345678901234567890"), vec![1]);
    assert_eq!(f.group_store.contracts.read_at_or_before(0), Some(vec![7, 7]));
    assert_eq!(f.admin_contract.contracts.read_at_or_before(0), None);
}

#[test]
fn register_again_starts_a_fresh_history() {
    let mut f = ContractsFactory::new();
    let a = addr("0xaaaaaaaaaaaaaaaaaaaaaaaaaaaaaaaaaaaaaaaa");
    f.register(&reserved(ADMIN), Admin::init(a).serialize());
    let mut ledger = LedgerState::new();
    let mut input = vec![28, 27, 135, 114];
    input.extend(vec![0u8; 12]);
    input.extend(vec![0xccu8; 20]);
    let p = CallParams { code_address: reserved(ADMIN), sender: a, input, gas_limit: 1, read_only: false };
    assert!(f.works(&p, &Context { block_number: 4 }, &mut ledger).is_ok());
    f.register(&reserved(ADMIN), Admin::init(a).serialize());
    let q = CallParams { code_address: reserved(ADMIN), sender: a, input: vec![248, 81, 164, 64], gas_limit: 1, read_only: true };
    let r = f.works(&q, &Context { block_number: 9 }, &mut ledger).unwrap();
    let mut word = vec![0u8; 12];
    word.extend(vec![0xaau8; 20]);
    assert_eq!(r.return_data, word);
    assert_eq!(f.admin_contract.contracts.entries().len(), 1);
}
