//! Transactions for the execution contract, and the bundle that carries them
//! to the relay.

use crate::abi::{
    be_value, encode_call, encode_call_with_lists, encode_words, encodes_values, fits_encoder, is_call_data, layout,
    tail_values, tails, word_values, AbiToken, AbiWord,
};
use crate::address::Address;
use crate::uint::{u256_checked_mul, U256};
use vstd::prelude::*;
use vstd::string::*;

verus! {

/// One hop of an order, as the execution contract takes it.
#[derive(Clone, Copy, Debug)]
pub struct PathParam {
    pub router: Address,
    pub token_in: Address,
    pub token_out: Address,
}

impl PathParam {
    /// The three words of the hop: router, token sold, token bought.
    pub fn make_params(&self) -> (r: Vec<AbiWord>)
        ensures
            r@ == seq![
                AbiWord::Address(self.router),
                AbiWord::Address(self.token_in),
                AbiWord::Address(self.token_out),
            ],
    {
        let mut params: Vec<AbiWord> = Vec::new();
        params.push(AbiWord::Address(self.router));
        params.push(AbiWord::Address(self.token_in));
        params.push(AbiWord::Address(self.token_out));
        proof {
            assert(params@ =~= seq![
                AbiWord::Address(self.router),
                AbiWord::Address(self.token_in),
                AbiWord::Address(self.token_out),
            ]);
        }
        params
    }
}

/// Where the funds of a trade come from.
#[derive(Clone, Copy, Debug, PartialEq, Eq, Structural)]
pub enum Flashloan {
    NotUsed,
    Balancer,
    UniswapV2,
}

impl Flashloan {
    /// The number that stands for the source in the data of an order.
    pub open spec fn spec_code(self) -> nat {
        match self {
            Flashloan::NotUsed => 0,
            Flashloan::Balancer => 1,
            Flashloan::UniswapV2 => 2,
        }
    }

    /// The number that stands for the source in the data of an order.
    pub fn code(&self) -> (r: u64)
        ensures
            r == self.spec_code(),
    {
        match self {
            Flashloan::NotUsed => 0,
            Flashloan::Balancer => 1,
            Flashloan::UniswapV2 => 2,
        }
    }
}

/// A transaction with fee fields, before it is signed.
#[derive(Debug)]
pub struct TxRequest {
    pub to: Address,
    pub from: Address,
    pub data: Vec<u8>,
    pub value: U256,
    pub chain_id: u64,
    pub max_priority_fee_per_gas: U256,
    pub max_fee_per_gas: U256,
    pub gas: U256,
    pub nonce: U256,
}

/// Signed transactions for one block of the relay.
#[derive(Debug)]
pub struct Bundle {
    pub transactions: Vec<Vec<u8>>,
    pub target_block: u64,
    pub simulation_block: u64,
    pub simulation_timestamp: u64,
}

/// The account that sends, the execution contract that it calls, and the
/// chain that both are on.
#[derive(Clone, Copy, Debug)]
pub struct Bundler {
    pub sender: Address,
    pub bot_address: Address,
    pub chain_id: u64,
}

/// The signature of the function that hands a token back to the owner.
pub open spec fn recover_token_signature() -> Seq<u8> {
    "recoverToken(address)".spec_bytes()
}

/// The signature of the function that approves a router for tokens.
pub open spec fn approve_router_signature() -> Seq<u8> {
    "approveRouter(address,address[],bool)".spec_bytes()
}

/// The numbers of the words of an approval: the router, the place in bytes of
/// the token list behind the three leading words, the force flag, then the
/// list with its length before it.
pub open spec fn approve_values(router: Address, tokens: Seq<Address>, force: bool) -> Seq<nat> {
    seq![be_value(router@), 96nat, if force {
        1nat
    } else {
        0nat
    }, tokens.len()] + Seq::new(tokens.len(), |i: int| be_value(tokens[i]@))
}

/// The numbers of the words of an order: amount, funding source, lender,
/// then router, token sold and token bought of each hop.
pub open spec fn order_values(paths: Seq<PathParam>, amount_in: nat, flashloan: Flashloan, lender: nat) -> Seq<
    nat,
> {
    seq![amount_in, flashloan.spec_code(), lender] + Seq::new(
        3 * paths.len(),
        |i: int|
            if i % 3 == 0 {
                be_value(paths[i / 3].router@)
            } else if i % 3 == 1 {
                be_value(paths[i / 3].token_in@)
            } else {
                be_value(paths[i / 3].token_out@)
            },
    )
}

/// The data of an order for the execution contract.
pub fn order_tx_calldata(paths: &Vec<PathParam>, amount_in: U256, flashloan: Flashloan, loan_from: Address) -> (r:
    Vec<u8>)
    requires
        fits_encoder((3 + 3 * paths.len()) as nat),
    ensures
        encodes_values(r@, order_values(paths@, amount_in@, flashloan, be_value(loan_from@))),
{
    let mut params: Vec<AbiWord> = Vec::new();
    params.push(AbiWord::Uint(amount_in));
    params.push(AbiWord::Uint(U256::from_u64(flashloan.code())));
    params.push(AbiWord::Address(loan_from));
    let mut i: usize = 0;
    while i < paths.len()
        invariant
            i <= paths.len(),
            params.len() == 3 + 3 * i,
            forall|j: int|
                0 <= j < params.len() ==> #[trigger] word_values(params@)[j] == order_values(
                    paths@,
                    amount_in@,
                    flashloan,
                    be_value(loan_from@),
                )[j],
        decreases paths.len() - i,
    {
        let hop = paths[i].make_params();
        let ghost before = params@;
        params.push(hop[0]);
        params.push(hop[1]);
        params.push(hop[2]);
        proof {
            let values = order_values(paths@, amount_in@, flashloan, be_value(loan_from@));
            assert forall|j: int| 0 <= j < params.len() implies #[trigger] word_values(params@)[j] == values[j] by {
                if j < before.len() {
                    assert(params@[j] == before[j]);
                    assert(word_values(before)[j] == values[j]);
                } else {
                    let t = j - 3;
                    assert(t / 3 == i && t % 3 == j - before.len());
                }
            }
        }
        i += 1;
    }
    proof {
        assert(word_values(params@) =~= order_values(paths@, amount_in@, flashloan, be_value(loan_from@)));
    }
    encode_words(&params)
}

impl Bundler {
    pub fn new(sender: Address, bot_address: Address, chain_id: u64) -> (r: Bundler)
        ensures
            r.sender == sender,
            r.bot_address == bot_address,
            r.chain_id == chain_id,
    {
        Bundler { sender, bot_address, chain_id }
    }

    /// What every transaction of the sender holds: its address, its next
    /// nonce and the chain.
    pub fn _common_fields(&self, nonce: U256) -> (r: (Address, U256, u64))
        ensures
            r == (self.sender, nonce, self.chain_id),
    {
        (self.sender, nonce, self.chain_id)
    }

    /// Whether a transaction goes from the sender to the execution contract
    /// on the chain of both, with this nonce and these fees.
    pub open spec fn addressed(
        &self,
        tx: TxRequest,
        nonce: U256,
        max_priority_fee_per_gas: U256,
        max_fee_per_gas: U256,
    ) -> bool {
        &&& tx.to == self.bot_address
        &&& tx.from == self.sender
        &&& tx.chain_id == self.chain_id
        &&& tx.nonce == nonce
        &&& tx.max_priority_fee_per_gas == max_priority_fee_per_gas
        &&& tx.max_fee_per_gas == max_fee_per_gas
    }

    /// The transaction that pays `amount_in` into the execution contract.
    pub fn transfer_in_tx(&self, nonce: U256, amount_in: U256, max_priority_fee_per_gas: U256, max_fee_per_gas: U256) -> (r:
        TxRequest)
        ensures
            self.addressed(r, nonce, max_priority_fee_per_gas, max_fee_per_gas),
            r.data@ == Seq::<u8>::empty(),
            r.value == amount_in,
            r.gas@ == 60000,
    {
        let common = self._common_fields(nonce);
        TxRequest {
            to: self.bot_address,
            from: common.0,
            data: Vec::new(),
            value: amount_in,
            chain_id: common.2,
            max_priority_fee_per_gas,
            max_fee_per_gas,
            gas: U256::from_u64(60000),
            nonce: common.1,
        }
    }

    /// The transaction that has the execution contract hand a token back.
    pub fn transfer_out_tx(&self, nonce: U256, token: Address, max_priority_fee_per_gas: U256, max_fee_per_gas: U256) -> (r:
        TxRequest)
        ensures
            self.addressed(r, nonce, max_priority_fee_per_gas, max_fee_per_gas),
            is_call_data(r.data@, recover_token_signature(), seq![be_value(token@)]),
            r.value@ == 0,
            r.gas@ == 50000,
    {
        let mut arguments: Vec<AbiWord> = Vec::new();
        arguments.push(AbiWord::Address(token));
        let calldata = encode_call("recoverToken(address)", &arguments);
        proof {
            assert(word_values(arguments@) =~= seq![be_value(token@)]);
        }
        let common = self._common_fields(nonce);
        TxRequest {
            to: self.bot_address,
            from: common.0,
            data: calldata,
            value: U256::zero(),
            chain_id: common.2,
            max_priority_fee_per_gas,
            max_fee_per_gas,
            gas: U256::from_u64(50000),
            nonce: common.1,
        }
    }

    /// The transaction that has the execution contract approve a router for
    /// a list of tokens.
    pub fn approve_tx(
        &self,
        nonce: U256,
        router: Address,
        tokens: &Vec<Address>,
        force: bool,
        max_priority_fee_per_gas: U256,
        max_fee_per_gas: U256,
    ) -> (r: TxRequest)
        requires
            fits_encoder((4 + tokens.len()) as nat),
        ensures
            self.addressed(r, nonce, max_priority_fee_per_gas, max_fee_per_gas),
            is_call_data(r.data@, approve_router_signature(), approve_values(router, tokens@, force)),
            r.value@ == 0,
            r.gas@ == 55000 * tokens.len(),
    {
        let token_cnt = tokens.len();
        let mut list: Vec<Address> = Vec::new();
        let mut i: usize = 0;
        while i < token_cnt
            invariant
                token_cnt == tokens.len(),
                i <= token_cnt,
                list@ == tokens@.subrange(0, i as int),
            decreases token_cnt - i,
        {
            list.push(tokens[i]);
            proof {
                assert(list@ =~= tokens@.subrange(0, i + 1));
            }
            i += 1;
        }
        proof {
            assert(tokens@.subrange(0, token_cnt as int) =~= tokens@);
        }
        let mut arguments: Vec<AbiToken> = Vec::new();
        arguments.push(AbiToken::Word(AbiWord::Address(router)));
        arguments.push(AbiToken::AddressArray(list));
        arguments.push(AbiToken::Word(AbiWord::Bool(force)));
        proof {
            let all = arguments@;
            let two = all.drop_last();
            let one = two.drop_last();
            assert(all.len() == 3 && two.len() == 2 && one.len() == 1);
            assert(all[0] == AbiToken::Word(AbiWord::Address(router)));
            assert(all[2] == AbiToken::Word(AbiWord::Bool(force)));
            assert(one.last() == all[0] && two.last() == all[1] && all.last() == all[2]);
            assert(tails(one.drop_last()) =~= Seq::<nat>::empty());
            assert(tails(one) =~= Seq::<nat>::empty());
            assert(tails(two) =~= tail_values(all[1]));
            assert(tails(all) =~= tail_values(all[1]));
            assert(all.subrange(0, 1) =~= one);
            assert(layout(all) =~= approve_values(router, tokens@, force));
        }
        let calldata = encode_call_with_lists("approveRouter(address,address[],bool)", &arguments);
        let gas = match u256_checked_mul(&U256::from_u64(55000), &U256::from_u64(token_cnt as u64)) {
            Some(g) => g,
            None => {
                proof {
                    assert(55000 * (token_cnt as nat) < 0x1_0000_0000_0000_0000_0000nat) by (nonlinear_arith)
                        requires
                            token_cnt <= 0xffff_ffff_ffff_ffff,
                    ;
                }
                U256::zero()
            },
        };
        let common = self._common_fields(nonce);
        TxRequest {
            to: self.bot_address,
            from: common.0,
            data: calldata,
            value: U256::zero(),
            chain_id: common.2,
            max_priority_fee_per_gas,
            max_fee_per_gas,
            gas,
            nonce: common.1,
        }
    }

    /// The transaction that places an order with the execution contract.
    pub fn order_tx(
        &self,
        nonce: U256,
        paths: &Vec<PathParam>,
        amount_in: U256,
        flashloan: Flashloan,
        loan_from: Address,
        max_priority_fee_per_gas: U256,
        max_fee_per_gas: U256,
    ) -> (r: TxRequest)
        requires
            fits_encoder((3 + 3 * paths.len()) as nat),
        ensures
            self.addressed(r, nonce, max_priority_fee_per_gas, max_fee_per_gas),
            encodes_values(r.data@, order_values(paths@, amount_in@, flashloan, be_value(loan_from@))),
            r.value@ == 0,
            r.gas@ == 600000,
    {
        let calldata = order_tx_calldata(paths, amount_in, flashloan, loan_from);
        let common = self._common_fields(nonce);
        TxRequest {
            to: self.bot_address,
            from: common.0,
            data: calldata,
            value: U256::zero(),
            chain_id: common.2,
            max_priority_fee_per_gas,
            max_fee_per_gas,
            gas: U256::from_u64(600000),
            nonce: common.1,
        }
    }

    /// The bundle of signed transactions for the block after `block_number`,
    /// to be simulated on `block_number` with the relay's own timestamp.
    pub fn to_bundle(&self, signed_txs: Vec<Vec<u8>>, block_number: u64) -> (r: Bundle)
        requires
            block_number < u64::MAX,
        ensures
            r.transactions == signed_txs,
            r.target_block == block_number + 1,
            r.simulation_block == block_number,
            r.simulation_timestamp == 0,
    {
        Bundle {
            transactions: signed_txs,
            target_block: block_number + 1,
            simulation_block: block_number,
            simulation_timestamp: 0,
        }
    }
}

} // verus!
