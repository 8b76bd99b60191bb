//! The words of contract calls: 32-byte big-endian words as the contract ABI
//! lays them out, and the Keccak-256 digest that names a function.
//!
//! Encoding, decoding and hashing are done by `ethers_core`.

use crate::address::Address;
use crate::uint::U256;
use ethers_core::abi::Token;
use ethers_core::types::H160;
use vstd::prelude::*;
use vstd::string::*;

verus! {

/// A value that the ABI encodes as one word, in place.
#[derive(Clone, Copy, Debug)]
pub enum AbiWord {
    Uint(U256),
    Address(Address),
    Bool(bool),
}

/// A value that the ABI encodes: one that takes one word in place, or a list
/// of addresses, which leaves its place in the leading words and stands
/// behind them with its length before it.
#[derive(Debug)]
pub enum AbiToken {
    Word(AbiWord),
    AddressArray(Vec<Address>),
}

/// The number that bytes stand for, the first byte weighing most.
pub open spec fn be_value(bytes: Seq<u8>) -> nat
    decreases bytes.len(),
{
    if bytes.len() == 0 {
        0
    } else {
        be_value(bytes.drop_last()) * 256 + bytes.last() as nat
    }
}

/// Bytes that are all zero stand for zero.
pub proof fn lemma_be_value_of_zeros(bytes: Seq<u8>)
    requires
        forall|i: int| 0 <= i < bytes.len() ==> bytes[i] == 0,
    ensures
        be_value(bytes) == 0,
    decreases bytes.len(),
{
    if bytes.len() > 0 {
        lemma_be_value_of_zeros(bytes.drop_last());
    }
}

/// The number that the word of a value stands for: the number itself, the
/// number of the 20 bytes of an address, one for true and zero for false.
pub open spec fn word_value(word: AbiWord) -> nat {
    match word {
        AbiWord::Uint(v) => v@,
        AbiWord::Address(a) => be_value(a@),
        AbiWord::Bool(b) => if b {
            1
        } else {
            0
        },
    }
}

/// The word at place `i` of a run of 32-byte words.
pub open spec fn word_at(bytes: Seq<u8>, i: int) -> Seq<u8> {
    bytes.subrange(32 * i, 32 * i + 32)
}

/// Whether bytes are the words of the numbers: one 32-byte word for each
/// number, in their order, each the big-endian form of its number.
pub open spec fn encodes_values(bytes: Seq<u8>, values: Seq<nat>) -> bool {
    &&& bytes.len() == 32 * values.len()
    &&& forall|i: int| 0 <= i < values.len() ==> be_value(#[trigger] word_at(bytes, i)) == values[i]
}

/// The numbers that the words of values stand for.
pub open spec fn word_values(words: Seq<AbiWord>) -> Seq<nat> {
    Seq::new(words.len(), |i: int| word_value(words[i]))
}

/// The words that a value puts behind the leading words: none for a value of
/// one word, and for a list its length and then its addresses.
pub open spec fn tail_values(token: AbiToken) -> Seq<nat> {
    match token {
        AbiToken::Word(_) => Seq::empty(),
        AbiToken::AddressArray(list) => seq![list@.len() as nat] + Seq::new(
            list@.len(),
            |i: int| be_value(list@[i]@),
        ),
    }
}

/// The words behind the leading words, those of each value in their order.
pub open spec fn tails(tokens: Seq<AbiToken>) -> Seq<nat>
    decreases tokens.len(),
{
    if tokens.len() == 0 {
        Seq::empty()
    } else {
        tails(tokens.drop_last()) + tail_values(tokens.last())
    }
}

/// The leading word of the value at place `i`: the number of a value of one
/// word, and for a list the place in bytes at which its words start, counted
/// from the first leading word.
pub open spec fn head_value(tokens: Seq<AbiToken>, i: int) -> nat {
    match tokens[i] {
        AbiToken::Word(word) => word_value(word),
        AbiToken::AddressArray(_) => (32 * (tokens.len() + tails(tokens.subrange(0, i)).len())) as nat,
    }
}

/// The numbers of all words of an encoding: one leading word for each value,
/// then the words of the lists.
pub open spec fn layout(tokens: Seq<AbiToken>) -> Seq<nat> {
    Seq::new(tokens.len(), |i: int| head_value(tokens, i)) + tails(tokens)
}

/// Whether an encoding of so many words is within what the encoder counts:
/// it counts bytes in 32 bits.
pub open spec fn fits_encoder(words: nat) -> bool {
    32 * words <= 0xffff_ffff
}

/// The Keccak-256 digest of bytes.
pub uninterp spec fn keccak256_digest(bytes: Seq<u8>) -> Seq<u8>;

/// Calls `abi::encode` of `ethers_core` on unsigned integers, addresses,
/// booleans and lists of addresses: the encoding is one 32-byte big-endian
/// word for each value in their order, a list leaving there the place in
/// bytes of its own words, and behind them for each list its length and its
/// addresses, one word each.
#[verifier::external_body]
pub(crate) fn abi_encode(tokens: &Vec<AbiToken>) -> (r: Vec<u8>)
    requires
        fits_encoder(layout(tokens@).len()),
    ensures
        encodes_values(r@, layout(tokens@)),
{
    let tokens: Vec<Token> = tokens.iter().map(
        |t|
            match t {
                AbiToken::Word(AbiWord::Uint(v)) => Token::Uint(ethers_core::types::U256(v.limbs)),
                AbiToken::Word(AbiWord::Address(a)) => Token::Address(H160(a.bytes)),
                AbiToken::Word(AbiWord::Bool(b)) => Token::Bool(*b),
                AbiToken::AddressArray(l) => Token::Array(l.iter().map(|a| Token::Address(H160(a.bytes))).collect()),
            },
    ).collect();
    ethers_core::abi::encode(&tokens)
}

/// Values of one word each put nothing behind the leading words: their
/// encoding is their words.
pub proof fn lemma_layout_of_words(tokens: Seq<AbiToken>, words: Seq<AbiWord>)
    requires
        tokens.len() == words.len(),
        forall|i: int| 0 <= i < words.len() ==> #[trigger] tokens[i] == AbiToken::Word(words[i]),
    ensures
        tails(tokens) == Seq::<nat>::empty(),
        layout(tokens) == word_values(words),
    decreases tokens.len(),
{
    if tokens.len() > 0 {
        lemma_layout_of_words(tokens.drop_last(), words.drop_last());
        assert(tokens[tokens.len() - 1] == AbiToken::Word(words[words.len() - 1]));
        assert(tails(tokens) =~= Seq::<nat>::empty());
    }
    assert(layout(tokens) =~= word_values(words));
}

/// The encoding of values of one word each.
pub fn encode_words(words: &Vec<AbiWord>) -> (r: Vec<u8>)
    requires
        fits_encoder(words.len() as nat),
    ensures
        encodes_values(r@, word_values(words@)),
{
    let mut tokens: Vec<AbiToken> = Vec::new();
    let mut i: usize = 0;
    while i < words.len()
        invariant
            i <= words.len(),
            tokens.len() == i,
            forall|j: int| 0 <= j < i ==> #[trigger] tokens[j] == AbiToken::Word(words[j]),
        decreases words.len() - i,
    {
        tokens.push(AbiToken::Word(words[i]));
        i += 1;
    }
    proof {
        lemma_layout_of_words(tokens@, words@);
    }
    abi_encode(&tokens)
}

/// Calls `abi::decode` of `ethers_core` for `count` unsigned integers of 256
/// bits: where the data hold 32 bytes for each of them, the numbers of the
/// first `count` words, and nothing where the data are shorter. Bytes after
/// those words are passed over.
#[verifier::external_body]
pub(crate) fn abi_decode_uints(count: usize, data: &Vec<u8>) -> (r: Option<Vec<U256>>)
    requires
        count <= 8,
    ensures
        r is Some <==> 32 * count <= data.len(),
        r matches Some(values) ==> values.len() == count && forall|i: int|
            0 <= i < count ==> (#[trigger] values[i])@ == be_value(word_at(data@, i)),
{
    let types = vec![ethers_core::abi::ParamType::Uint(256); count];
    match ethers_core::abi::decode(&types, data) {
        Ok(tokens) => tokens.into_iter().map(|t| t.into_uint().map(|u| U256 { limbs: u.0 })).collect(),
        Err(_) => None,
    }
}

/// Calls `utils::keccak256` of `ethers_core`: the 32 bytes of the digest.
#[verifier::external_body]
pub(crate) fn keccak256(bytes: &Vec<u8>) -> (r: Vec<u8>)
    ensures
        r@ == keccak256_digest(bytes@),
        r.len() == 32,
{
    ethers_core::utils::keccak256(bytes).to_vec()
}

/// The selector of a function of a contract: the first four bytes of the
/// digest of its signature.
pub open spec fn selector_of(signature: Seq<u8>) -> Seq<u8> {
    keccak256_digest(signature).subrange(0, 4)
}

/// The selector of the function with this signature, such as
/// `balanceOf(address)`.
pub fn function_selector(signature: &str) -> (r: Vec<u8>)
    ensures
        r@ == selector_of(signature.spec_bytes()),
        r.len() == 4,
{
    let digest = keccak256(&signature.as_bytes_vec());
    let mut selector: Vec<u8> = Vec::new();
    let mut i: usize = 0;
    while i < 4
        invariant
            i <= 4,
            digest.len() == 32,
            selector.len() == i,
            forall|j: int| 0 <= j < i ==> selector[j] == digest[j],
        decreases 4 - i,
    {
        selector.push(digest[i]);
        i += 1;
    }
    proof {
        assert(selector@ =~= digest@.subrange(0, 4));
    }
    selector
}

/// The bytes of a call: the selector of the function, then its arguments,
/// one word each.
pub open spec fn is_call_data(bytes: Seq<u8>, signature: Seq<u8>, arguments: Seq<nat>) -> bool {
    &&& bytes.len() == 4 + 32 * arguments.len()
    &&& bytes.subrange(0, 4) == selector_of(signature)
    &&& encodes_values(bytes.subrange(4, bytes.len() as int), arguments)
}

/// Appends bytes to bytes.
pub fn append_bytes(target: &mut Vec<u8>, bytes: &Vec<u8>)
    ensures
        final(target)@ == old(target)@ + bytes@,
{
    let mut i: usize = 0;
    while i < bytes.len()
        invariant
            i <= bytes.len(),
            target@ == old(target)@ + bytes@.subrange(0, i as int),
        decreases bytes.len() - i,
    {
        target.push(bytes[i]);
        proof {
            assert(target@ =~= old(target)@ + bytes@.subrange(0, i + 1));
        }
        i += 1;
    }
    proof {
        assert(bytes@.subrange(0, bytes.len() as int) =~= bytes@);
    }
}

/// The bytes of a call of the function with this signature on arguments of
/// one word each.
pub fn encode_call(signature: &str, arguments: &Vec<AbiWord>) -> (r: Vec<u8>)
    requires
        fits_encoder(arguments.len() as nat),
    ensures
        is_call_data(r@, signature.spec_bytes(), word_values(arguments@)),
{
    let mut data = function_selector(signature);
    let encoded = encode_words(arguments);
    let ghost selector = data@;
    append_bytes(&mut data, &encoded);
    proof {
        assert(data@.subrange(0, 4) =~= selector);
        assert(data@.subrange(4, data@.len() as int) =~= encoded@);
    }
    data
}

/// The bytes of a call of the function with this signature on arguments
/// that may be lists of addresses.
pub fn encode_call_with_lists(signature: &str, arguments: &Vec<AbiToken>) -> (r: Vec<u8>)
    requires
        fits_encoder(layout(arguments@).len()),
    ensures
        is_call_data(r@, signature.spec_bytes(), layout(arguments@)),
{
    let mut data = function_selector(signature);
    let encoded = abi_encode(arguments);
    let ghost selector = data@;
    append_bytes(&mut data, &encoded);
    proof {
        assert(data@.subrange(0, 4) =~= selector);
        assert(data@.subrange(4, data@.len() as int) =~= encoded@);
    }
    data
}

} // verus!
