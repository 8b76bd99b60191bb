//! The fork simulator: what to set up before a trade is run on a copy of the
//! chain state, and what to make of the run.
//!
//! The caller owns the state copy and runs the calls. The plan says which
//! accounts and storage slots to override first, in which block to run, and
//! which two calls to make; the outcome of each call is judged here.

use crate::abi::{
    abi_decode_uints, append_bytes, be_value, encode_call, encode_words, encodes_values, is_call_data, keccak256,
    keccak256_digest, word_at, word_values, AbiWord,
};
use crate::address::Address;
use crate::block::NewBlock;
use crate::uint::U256;
use vstd::prelude::*;
use vstd::string::*;

verus! {

/// An account that is put in place before the run, whatever the chain holds
/// for it.
#[derive(Debug)]
pub struct AccountOverride {
    pub address: Address,
    pub balance: U256,
    pub nonce: u64,
    pub code: Vec<u8>,
}

/// A storage slot of a contract that is set before the run.
#[derive(Debug)]
pub struct StorageOverride {
    pub address: Address,
    pub slot: Vec<u8>,
    pub value: U256,
}

/// The block that the run pretends to be in.
#[derive(Clone, Copy, Debug)]
pub struct BlockContext {
    pub number: u64,
    pub timestamp: U256,
    pub basefee: U256,
    pub coinbase: Address,
}

/// A call to make on the state copy.
#[derive(Debug)]
pub struct CallContext {
    pub caller: Address,
    pub to: Address,
    pub data: Vec<u8>,
    pub gas_limit: u64,
    pub gas_price: U256,
    pub value: U256,
}

/// All that a simulation of one trade needs.
#[derive(Debug)]
pub struct ForkPlan {
    /// The block whose state the copy starts from.
    pub pinned_block: u64,
    pub accounts: Vec<AccountOverride>,
    pub storage: Vec<StorageOverride>,
    pub block: BlockContext,
    /// The trade itself; its changes stay in the copy.
    pub trade: CallContext,
    /// The read-only call that asks the token for the balance afterwards.
    pub balance_query: CallContext,
}

/// How a call on the state copy ended.
#[derive(Debug)]
pub enum ExecutionOutcome {
    /// The call went through. `created` says that it made a contract rather
    /// than called one.
    Success { gas_used: u64, output: Vec<u8>, created: bool },
    /// The call was reverted by the contract.
    Revert { output: Vec<u8> },
    /// The call was stopped by the machine, for want of gas or the like.
    Halt { reason: String },
    /// The call could not be run at all.
    Fault { message: String },
}

/// Why a simulation gives no result.
#[derive(Debug)]
pub enum SimulationError {
    Fault { message: String },
    Revert { output: Vec<u8> },
    Halt { reason: String },
    /// The balance call did not go through as a call.
    BalanceCall,
    /// The balance call gave fewer than 32 bytes.
    BalanceOutput,
}

/// The gas that the trade may use.
pub const TRADE_GAS_LIMIT: u64 = 700000;

/// The storage slot of the token contract at which the balances start.
pub const BALANCE_SLOT: u64 = 3;

/// The native balance that the owner gets for the run, to pay for gas: a
/// hundred coins of ten to the eighteenth each.
pub const OWNER_BALANCE: u128 = 100_000_000_000_000_000_000;

/// The signature of the function that tells the balance of an account.
pub open spec fn balance_of_signature() -> Seq<u8> {
    "balanceOf(address)".spec_bytes()
}

/// The bytes of the address that the run names as the proposer of the block.
pub open spec fn builder_bytes() -> Seq<u8> {
    seq![
        0x69u8,
        0x0B,
        0x9A,
        0x9E,
        0x9a,
        0xa1,
        0xC9,
        0xdB,
        0x99,
        0x1C,
        0x77,
        0x21,
        0xa9,
        0x2d,
        0x35,
        0x1D,
        0xb4,
        0xFa,
        0xC9,
        0x90,
    ]
}

/// The address that the run names as the proposer of the block.
pub fn builder_address() -> (r: Address)
    ensures
        r@ == builder_bytes(),
{
    let r = Address {
        bytes: [
            0x69,
            0x0B,
            0x9A,
            0x9E,
            0x9a,
            0xa1,
            0xC9,
            0xdB,
            0x99,
            0x1C,
            0x77,
            0x21,
            0xa9,
            0x2d,
            0x35,
            0x1D,
            0xb4,
            0xFa,
            0xC9,
            0x90,
        ],
    };
    proof {
        assert(r@ =~= builder_bytes());
    }
    r
}

/// Whether a slot is the one that holds the balance of an account in a
/// token whose balances start at storage slot three: the digest of the
/// account and the number three, one word each.
pub open spec fn is_balance_slot(slot: Seq<u8>, account: Address) -> bool {
    exists|key: Seq<u8>| encodes_values(key, balance_key(account)) && slot == #[trigger] keccak256_digest(key)
}

/// The numbers of the two words whose digest is the balance slot of an
/// account.
pub open spec fn balance_key(account: Address) -> Seq<nat> {
    seq![be_value(account@), BALANCE_SLOT as nat]
}

/// The contract that trades, the account that owns it, and its code.
#[derive(Debug)]
pub struct EvmSimulator {
    pub bot_address: Address,
    pub owner: Address,
    pub bot_code: Vec<u8>,
}

/// The storage slot that holds the balance of an account in the token.
pub fn balance_slot(account: Address) -> (r: Vec<u8>)
    ensures
        is_balance_slot(r@, account),
        r.len() == 32,
{
    let mut words: Vec<AbiWord> = Vec::new();
    words.push(AbiWord::Address(account));
    words.push(AbiWord::Uint(U256::from_u64(BALANCE_SLOT)));
    let key = encode_words(&words);
    proof {
        assert(word_values(words@) =~= balance_key(account));
    }
    keccak256(&key)
}

impl EvmSimulator {
    pub fn new(bot_address: Address, owner: Address, bot_code: Vec<u8>) -> (r: EvmSimulator)
        ensures
            r.bot_address == bot_address,
            r.owner == owner,
            r.bot_code == bot_code,
    {
        EvmSimulator { bot_address, owner, bot_code }
    }

    /// Plans the simulation of a trade that starts and ends in one token.
    ///
    /// The execution contract is put in place with its code and no balance,
    /// the owner gets a balance to pay for gas, and the contract's balance
    /// of the token is set to `amount_in` in the token's storage. The trade
    /// runs in the block given, at its base fee; the balance of the contract
    /// is asked for afterwards.
    pub fn plan_weth_arbitrage(&self, new_block: &NewBlock, weth_address: Address, amount_in: U256, calldata: Vec<u8>) -> (r:
        ForkPlan)
        ensures
            r.pinned_block == new_block.number,
            r.accounts.len() == 2,
            r.accounts[0].address == self.bot_address,
            r.accounts[0].balance@ == 0,
            r.accounts[0].nonce == 0,
            r.accounts[0].code@ == self.bot_code@,
            r.accounts[1].address == self.owner,
            r.accounts[1].balance@ == OWNER_BALANCE,
            r.accounts[1].nonce == 0,
            r.accounts[1].code@ == Seq::<u8>::empty(),
            r.storage.len() == 1,
            r.storage[0].address == weth_address,
            is_balance_slot(r.storage[0].slot@, self.bot_address),
            r.storage[0].value == amount_in,
            r.block.number == new_block.number,
            r.block.timestamp == new_block.timestamp,
            r.block.basefee == new_block.base_fee_per_gas,
            r.block.coinbase@ == builder_bytes(),
            r.trade.caller == self.owner,
            r.trade.to == self.bot_address,
            r.trade.data == calldata,
            r.trade.gas_limit == TRADE_GAS_LIMIT,
            r.trade.gas_price == new_block.base_fee_per_gas,
            r.trade.value@ == 0,
            r.balance_query.caller == self.owner,
            r.balance_query.to == weth_address,
            is_call_data(r.balance_query.data@, balance_of_signature(), seq![be_value(self.bot_address@)]),
            r.balance_query.gas_limit == TRADE_GAS_LIMIT,
            r.balance_query.gas_price == new_block.base_fee_per_gas,
            r.balance_query.value@ == 0,
    {
        let mut bot_code: Vec<u8> = Vec::new();
        append_bytes(&mut bot_code, &self.bot_code);
        let mut accounts: Vec<AccountOverride> = Vec::new();
        accounts.push(AccountOverride { address: self.bot_address, balance: U256::zero(), nonce: 0, code: bot_code });
        accounts.push(
            AccountOverride {
                address: self.owner,
                balance: U256::from_u128(OWNER_BALANCE),
                nonce: 0,
                code: Vec::new(),
            },
        );
        let mut storage: Vec<StorageOverride> = Vec::new();
        storage.push(StorageOverride { address: weth_address, slot: balance_slot(self.bot_address), value: amount_in });
        let mut arguments: Vec<AbiWord> = Vec::new();
        arguments.push(AbiWord::Address(self.bot_address));
        let query = encode_call("balanceOf(address)", &arguments);
        proof {
            assert(word_values(arguments@) =~= seq![be_value(self.bot_address@)]);
        }
        ForkPlan {
            pinned_block: new_block.number,
            accounts,
            storage,
            block: BlockContext {
                number: new_block.number,
                timestamp: new_block.timestamp,
                basefee: new_block.base_fee_per_gas,
                coinbase: builder_address(),
            },
            trade: CallContext {
                caller: self.owner,
                to: self.bot_address,
                data: calldata,
                gas_limit: TRADE_GAS_LIMIT,
                gas_price: new_block.base_fee_per_gas,
                value: U256::zero(),
            },
            balance_query: CallContext {
                caller: self.owner,
                to: weth_address,
                data: query,
                gas_limit: TRADE_GAS_LIMIT,
                gas_price: new_block.base_fee_per_gas,
                value: U256::zero(),
            },
        }
    }
}

/// Why a trade that did not go through gives no result; none for one that
/// went through.
pub open spec fn trade_error(trade: ExecutionOutcome) -> Option<SimulationError> {
    match trade {
        ExecutionOutcome::Success { gas_used, output, created } => None,
        ExecutionOutcome::Revert { output } => Some(SimulationError::Revert { output }),
        ExecutionOutcome::Halt { reason } => Some(SimulationError::Halt { reason }),
        ExecutionOutcome::Fault { message } => Some(SimulationError::Fault { message }),
    }
}

/// The gas that a call used, zero where it did not go through.
pub open spec fn gas_of(outcome: ExecutionOutcome) -> u64 {
    match outcome {
        ExecutionOutcome::Success { gas_used, output, created } => gas_used,
        _ => 0,
    }
}

/// Why the run of the balance call tells no balance; none where it tells one:
/// it went through as a call and gave 32 bytes at least.
pub open spec fn balance_error(outcome: ExecutionOutcome) -> Option<SimulationError> {
    match outcome {
        ExecutionOutcome::Success { gas_used, output, created } => if created {
            Some(SimulationError::BalanceCall)
        } else if output@.len() < 32 {
            Some(SimulationError::BalanceOutput)
        } else {
            None
        },
        _ => Some(SimulationError::BalanceCall),
    }
}

/// The balance that the output of the balance call tells: the number of its
/// first word.
pub open spec fn balance_told(outcome: ExecutionOutcome) -> nat {
    match outcome {
        ExecutionOutcome::Success { gas_used, output, created } => be_value(word_at(output@, 0)),
        _ => 0,
    }
}

/// Judges the run of the trade: the gas it used where it went through, and
/// the reason where it did not. Nothing but success counts.
pub fn classify_trade(outcome: ExecutionOutcome) -> (r: Result<u64, SimulationError>)
    ensures
        match trade_error(outcome) {
            None => r == Ok::<u64, SimulationError>(gas_of(outcome)),
            Some(e) => r == Err::<u64, SimulationError>(e),
        },
{
    match outcome {
        ExecutionOutcome::Success { gas_used, output, created } => Ok(gas_used),
        ExecutionOutcome::Revert { output } => Err(SimulationError::Revert { output }),
        ExecutionOutcome::Halt { reason } => Err(SimulationError::Halt { reason }),
        ExecutionOutcome::Fault { message } => Err(SimulationError::Fault { message }),
    }
}

/// Reads the balance off the run of the balance call.
pub fn read_balance(outcome: &ExecutionOutcome) -> (r: Result<U256, SimulationError>)
    ensures
        match balance_error(*outcome) {
            None => r matches Ok(balance) && balance@ == balance_told(*outcome),
            Some(e) => r == Err::<U256, SimulationError>(e),
        },
{
    match outcome {
        ExecutionOutcome::Success { gas_used, output, created } => {
            if *created {
                Err(SimulationError::BalanceCall)
            } else {
                match abi_decode_uints(1, output) {
                    Some(values) => Ok(values[0]),
                    None => Err(SimulationError::BalanceOutput),
                }
            }
        },
        _ => Err(SimulationError::BalanceCall),
    }
}

/// The result of a simulation: the balance after the trade and the gas that
/// the trade used. The balance call counts only where the trade went through.
pub fn conclude_simulation(trade: ExecutionOutcome, balance: &ExecutionOutcome) -> (r: Result<
    (U256, u64),
    SimulationError,
>)
    ensures
        match trade_error(trade) {
            Some(e) => r == Err::<(U256, u64), SimulationError>(e),
            None => match balance_error(*balance) {
                Some(e) => r == Err::<(U256, u64), SimulationError>(e),
                None => r matches Ok(pair) && pair.0@ == balance_told(*balance) && pair.1 == gas_of(trade),
            },
        },
{
    let gas_used = match classify_trade(trade) {
        Ok(gas) => gas,
        Err(e) => {
            return Err(e);
        },
    };
    match read_balance(balance) {
        Ok(value) => Ok((value, gas_used)),
        Err(e) => Err(e),
    }
}

/// The amount that a simulation gave, and zero where it gave none.
pub fn amount_out_or_zero(result: &Result<(U256, u64), SimulationError>) -> (r: U256)
    ensures
        match *result {
            Ok(pair) => r == pair.0,
            Err(_) => r@ == 0,
        },
{
    match result {
        Ok(pair) => pair.0,
        Err(_) => U256::zero(),
    }
}

} // verus!
