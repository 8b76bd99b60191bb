use ethers_core::abi::Token;
use triarb::address::Address;
use triarb::block::NewBlock;
use triarb::evm::{
    amount_out_or_zero, balance_slot, builder_address, classify_trade, conclude_simulation, read_balance, EvmSimulator,
    ExecutionOutcome, SimulationError, OWNER_BALANCE, TRADE_GAS_LIMIT,
};
use triarb::uint::U256;

fn addr(n: u8) -> Address {
    Address { bytes: [n; 20] }
}

fn block() -> NewBlock {
    NewBlock {
        number: 17_000_000,
        base_fee_per_gas: U256::from_u64(30_000_000_000),
        next_base_fee: U256::from_u64(31_000_000_000),
        timestamp: U256::from_u64(1_700_000_000),
        gas_used: U256::from_u64(15_000_000),
        gas_limit: U256::from_u64(30_000_000),
    }
}

fn word(n: u64) -> Vec<u8> {
    let mut w = vec![0u8; 24];
    w.extend_from_slice(&n.to_be_bytes());
    w
}

fn success(gas_used: u64, output: Vec<u8>) -> ExecutionOutcome {
    ExecutionOutcome::Success { gas_used, output, created: false }
}

#[test]
fn the_plan_puts_contract_owner_and_balance_in_place() {
    let simulator = EvmSimulator::new(addr(0xb0), addr(0x0e), vec![0x60, 0x80, 0x60, 0x40]);
    let amount = U256::from_u128(1_000_000_000_000_000_000);
    let plan = simulator.plan_weth_arbitrage(&block(), addr(0xee), amount, vec![9, 9, 9]);
    assert_eq!(plan.pinned_block, 17_000_000);

    assert_eq!(plan.accounts.len(), 2);
    assert_eq!(plan.accounts[0].address.bytes, addr(0xb0).bytes);
    assert!(plan.accounts[0].balance.is_zero());
    assert_eq!(plan.accounts[0].nonce, 0);
    assert_eq!(plan.accounts[0].code, vec![0x60, 0x80, 0x60, 0x40]);
    assert_eq!(plan.accounts[1].address.bytes, addr(0x0e).bytes);
    assert_eq!(plan.accounts[1].balance.to_u128(), Some(100_000_000_000_000_000_000));
    assert_eq!(OWNER_BALANCE, 100 * 10u128.pow(18));
    assert!(plan.accounts[1].code.is_empty());

    assert_eq!(plan.storage.len(), 1);
    assert_eq!(plan.storage[0].address.bytes, addr(0xee).bytes);
    assert_eq!(plan.storage[0].value.limbs, amount.limbs);
    let key = ethers_core::abi::encode(&[
        Token::Address(ethers_core::types::H160([0xb0; 20])),
        Token::Uint(ethers_core::types::U256::from(3)),
    ]);
    assert_eq!(plan.storage[0].slot, ethers_core::utils::keccak256(key).to_vec());

    assert_eq!(plan.block.number, 17_000_000);
    assert_eq!(plan.block.timestamp.to_u64(), Some(1_700_000_000));
    assert_eq!(plan.block.basefee.to_u64(), Some(30_000_000_000));
    assert_eq!(plan.block.coinbase.to_hex(), "0x690b9a9e9aa1c9db991c7721a92d351db4fac990");

    assert_eq!(plan.trade.caller.bytes, addr(0x0e).bytes);
    assert_eq!(plan.trade.to.bytes, addr(0xb0).bytes);
    assert_eq!(plan.trade.data, vec![9, 9, 9]);
    assert_eq!(plan.trade.gas_limit, 700000);
    assert_eq!(TRADE_GAS_LIMIT, 700000);
    assert_eq!(plan.trade.gas_price.to_u64(), Some(30_000_000_000));
    assert!(plan.trade.value.is_zero());

    assert_eq!(plan.balance_query.caller.bytes, addr(0x0e).bytes);
    assert_eq!(plan.balance_query.to.bytes, addr(0xee).bytes);
    let mut query = vec![0x70, 0xa0, 0x82, 0x31];
    query.extend(vec![0u8; 12]);
    query.extend(vec![0xb0u8; 20]);
    assert_eq!(plan.balance_query.data, query);
    assert!(plan.balance_query.value.is_zero());
}

#[test]
fn the_balance_slot_is_a_digest_of_account_and_slot_three() {
    let slot = balance_slot(addr(0x42));
    assert_eq!(slot.len(), 32);
    let mut key = vec![0u8; 12];
    key.extend(vec![0x42u8; 20]);
    key.extend(word(3));
    assert_eq!(slot, ethers_core::utils::keccak256(&key).to_vec());
    assert_ne!(slot, key[..32].to_vec());
    assert_ne!(balance_slot(addr(0x43)), slot);
    assert_eq!(builder_address().to_hex(), "0x690b9a9e9aa1c9db991c7721a92d351db4fac990");
}

#[test]
fn only_success_counts_for_a_trade() {
    assert_eq!(classify_trade(success(123_456, vec![])).unwrap(), 123_456);
    assert_eq!(
        classify_trade(ExecutionOutcome::Success { gas_used: 5, output: vec![1], created: true }).unwrap(),
        5
    );
    assert!(matches!(
        classify_trade(ExecutionOutcome::Revert { output: vec![8, 9] }),
        Err(SimulationError::Revert { output }) if output == vec![8, 9]
    ));
    assert!(matches!(
        classify_trade(ExecutionOutcome::Halt { reason: "OutOfGas".to_string() }),
        Err(SimulationError::Halt { reason }) if reason == "OutOfGas"
    ));
    assert!(matches!(
        classify_trade(ExecutionOutcome::Fault { message: "no state".to_string() }),
        Err(SimulationError::Fault { message }) if message == "no state"
    ));
}

#[test]
fn the_balance_is_the_first_word_of_the_output() {
    assert_eq!(read_balance(&success(0, word(1_234_567))).unwrap().to_u64(), Some(1_234_567));
    let mut long = word(5);
    long.extend(word(6));
    assert_eq!(read_balance(&success(0, long)).unwrap().to_u64(), Some(5));
    let mut big = vec![0u8; 32];
    big[0] = 0x80;
    assert_eq!(read_balance(&success(0, big)).unwrap().limbs, [0, 0, 0, 1 << 63]);
    assert!(matches!(read_balance(&success(0, vec![0u8; 31])), Err(SimulationError::BalanceOutput)));
    assert!(matches!(read_balance(&success(0, vec![])), Err(SimulationError::BalanceOutput)));
    assert!(matches!(
        read_balance(&ExecutionOutcome::Success { gas_used: 0, output: word(5), created: true }),
        Err(SimulationError::BalanceCall)
    ));
    assert!(matches!(
        read_balance(&ExecutionOutcome::Revert { output: word(5) }),
        Err(SimulationError::BalanceCall)
    ));
    assert!(matches!(
        read_balance(&ExecutionOutcome::Halt { reason: "x".to_string() }),
        Err(SimulationError::BalanceCall)
    ));
}

#[test]
fn a_simulation_gives_balance_and_gas_or_the_first_failure() {
    let result = conclude_simulation(success(210_000, vec![]), &success(30_000, word(999)));
    let (balance, gas) = result.unwrap();
    assert_eq!((balance.to_u64(), gas), (Some(999), 210_000));
    // a trade that did not go through decides, whatever the balance call says
    assert!(matches!(
        conclude_simulation(ExecutionOutcome::Revert { output: vec![1] }, &success(30_000, word(999))),
        Err(SimulationError::Revert { .. })
    ));
    assert!(matches!(
        conclude_simulation(ExecutionOutcome::Halt { reason: "OutOfGas".to_string() }, &success(1, word(1))),
        Err(SimulationError::Halt { .. })
    ));
    assert!(matches!(
        conclude_simulation(success(1, vec![]), &ExecutionOutcome::Revert { output: vec![] }),
        Err(SimulationError::BalanceCall)
    ));
    assert!(matches!(
        conclude_simulation(success(1, vec![]), &success(1, vec![1, 2, 3])),
        Err(SimulationError::BalanceOutput)
    ));
}

#[test]
fn a_failed_simulation_counts_as_nothing_out() {
    assert_eq!(amount_out_or_zero(&Ok((U256::from_u64(77), 5))).to_u64(), Some(77));
    assert!(amount_out_or_zero(&Err(SimulationError::BalanceCall)).is_zero());
    assert!(amount_out_or_zero(&Err(SimulationError::Revert { output: vec![1] })).is_zero());
}
