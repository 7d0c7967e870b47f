use rs_contracts::address::Address;
use rs_contracts::admin::Admin;
use rs_contracts::factory::{reserved, ContractsFactory, ADMIN, GROUP, GROUP_MANAGEMENT};
use rs_contracts::group::Group;
use rs_contracts::group_manager::{GroupEntry, GroupManager};
use rs_contracts::group_state::{deserialize_groups, serialize_groups};
use rs_contracts::ledger::LedgerState;
use rs_contracts::types::{CallParams, Context, ContractError};

fn a(b: u8) -> Address {
    Address::from_bytes(&[b; 20]).unwrap()
}

fn word(addr: &Address) -> Vec<u8> {
    let mut w = vec![0u8; 12];
    w.extend(addr.bytes.to_vec());
    w
}

fn groups() -> GroupManager {
    let mut m = GroupManager::new();
    m.groups.push(GroupEntry { address: reserved(GROUP), group: Group::new("root".to_string(), a(0), vec![a(100)]) });
    m.new_group(reserved(GROUP), a(2), "child".to_string(), vec![]).unwrap();
    m
}

fn factory() -> ContractsFactory {
    let mut f = ContractsFactory::new();
    f.register(&reserved(ADMIN), Admin::init(a(0xaa)).serialize());
    f.register(&reserved(GROUP), serialize_groups(&groups()));
    f
}

fn accounts_call(selector: [u8; 4], target: &Address, accounts: &[Address]) -> Vec<u8> {
    let mut input = selector.to_vec();
    input.extend(word(&reserved(GROUP)));
    input.extend(word(target));
    let mut offset = vec![0u8; 31];
    offset.push(0x60);
    input.extend(offset);
    let mut count = vec![0u8; 24];
    count.extend((accounts.len() as u64).to_be_bytes());
    input.extend(count);
    for acc in accounts {
        input.extend(word(acc));
    }
    input
}

const ADD: [u8; 4] = [0x2c, 0x84, 0xe3, 0x1f];
const DELETE: [u8; 4] = [0xd8, 0x6d, 0xf3, 0x33];
const SCOPE: [u8; 4] = [0xea, 0xdf, 0x46, 0x72];

fn call(input: Vec<u8>, sender: Address, to: u16) -> CallParams {
    CallParams { code_address: reserved(to), sender, input, gas_limit: 5, read_only: false }
}

#[test]
fn state_round_trips_through_its_bytes() {
    let g = groups();
    let back = deserialize_groups(&serialize_groups(&g)).unwrap();
    assert_eq!(back.groups.len(), 2);
    assert_eq!(back.groups[0].address, reserved(GROUP));
    assert_eq!(back.groups[0].group.query_name(), "root".to_string());
    assert_eq!(back.groups[0].group.accounts, vec![a(100)]);
    assert_eq!(back.groups[0].group.query_child(), vec![a(2)]);
    assert_eq!(back.groups[1].group.parent, reserved(GROUP));
    assert!(deserialize_groups(&vec![0u8; 7]).is_none());
    let mut trailing = serialize_groups(&g);
    trailing.push(0);
    assert!(deserialize_groups(&trailing).is_none());
}

#[test]
fn admin_adds_accounts_and_commits() {
    let mut f = factory();
    let mut ledger = LedgerState::new();
    let p = call(accounts_call(ADD, &a(2), &[a(7), a(8)]), a(0xaa), GROUP_MANAGEMENT);
    let r = f.works(&p, &Context { block_number: 6 }, &mut ledger).unwrap();
    let mut one = vec![0u8; 31];
    one.push(1);
    assert_eq!(r.return_data, one);
    let stored = f.group_store.contracts.read_at_or_before(6).unwrap();
    let now = deserialize_groups(&stored).unwrap();
    assert_eq!(now.groups[1].group.accounts, vec![a(7), a(8)]);
    let before = deserialize_groups(&f.group_store.contracts.read_at_or_before(5).unwrap()).unwrap();
    assert!(before.groups[1].group.accounts.is_empty());
    let mut slot = vec![0u8; 31];
    slot.push(6);
    assert_eq!(ledger.get_storage(&reserved(GROUP_MANAGEMENT), &slot), Some(tiny_keccak::keccak256(&stored).to_vec()));

    let p = call(accounts_call(DELETE, &a(2), &[a(7)]), a(0xaa), GROUP_MANAGEMENT);
    f.works(&p, &Context { block_number: 9 }, &mut ledger).unwrap();
    let now = deserialize_groups(&f.group_store.contracts.read_at_or_before(9).unwrap()).unwrap();
    assert_eq!(now.groups[1].group.accounts, vec![a(8)]);
}

#[test]
fn group_changes_are_gated_decoded_and_located() {
    let mut f = factory();
    let mut ledger = LedgerState::new();
    let ctx = Context { block_number: 3 };
    let p = call(accounts_call(ADD, &a(2), &[a(7)]), a(0xbb), GROUP_MANAGEMENT);
    assert!(matches!(f.works(&p, &ctx, &mut ledger), Err(ContractError::AuthorizationError)));
    let mut short = accounts_call(ADD, &a(2), &[a(7), a(8)]);
    short.truncate(short.len() - 32);
    let p = call(short, a(0xaa), GROUP_MANAGEMENT);
    assert!(matches!(f.works(&p, &ctx, &mut ledger), Err(ContractError::DecodeError)));
    let p = call(accounts_call(ADD, &a(9), &[a(7)]), a(0xaa), GROUP_MANAGEMENT);
    assert!(matches!(f.works(&p, &ctx, &mut ledger), Err(ContractError::NotFoundError)));
    let p = call(vec![1, 2, 3, 4], a(0xaa), GROUP);
    assert!(matches!(f.works(&p, &ctx, &mut ledger), Err(ContractError::DecodeError)));
    assert_eq!(f.group_store.contracts.entries().len(), 1);
    let mut slot = vec![0u8; 31];
    slot.push(3);
    assert_eq!(ledger.get_storage(&reserved(GROUP_MANAGEMENT), &slot), None);
}

#[test]
fn check_scope_through_dispatch() {
    let mut f = factory();
    let mut ledger = LedgerState::new();
    let ctx = Context { block_number: 1 };
    let mut input = SCOPE.to_vec();
    input.extend(word(&reserved(GROUP)));
    input.extend(word(&a(2)));
    let r = f.works(&call(input, a(1), GROUP), &ctx, &mut ledger).unwrap();
    let mut one = vec![0u8; 31];
    one.push(1);
    assert_eq!(r.return_data, one);
    let mut input = SCOPE.to_vec();
    input.extend(word(&a(2)));
    input.extend(word(&reserved(GROUP)));
    let r = f.works(&call(input, a(1), GROUP), &ctx, &mut ledger).unwrap();
    assert_eq!(r.return_data, vec![0u8; 32]);
}

#[test]
fn group_call_before_genesis_is_internal() {
    let mut f = ContractsFactory::new();
    let mut ledger = LedgerState::new();
    let p = call(vec![0xea, 0xdf, 0x46, 0x72], a(1), GROUP);
    assert!(matches!(f.works(&p, &Context { block_number: 0 }, &mut ledger), Err(ContractError::Internal)));
}
