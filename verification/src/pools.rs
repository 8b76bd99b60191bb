//! Pools and the rows of the pool snapshot.
//!
//! A snapshot holds one row for each pool, its fields in the order address,
//! version, token0, token1, decimals0, decimals1, fee. Addresses stand in it
//! as hexadecimal text, numbers as decimal text.

use crate::address::{address_text, address_text_bytes, address_text_valid, lemma_address_text_round_trip, Address};
use crate::text::{decimal_text, format_decimal, lemma_decimal_round_trip, parse_decimal, parse_decimal_spec};
use vstd::prelude::*;
use vstd::string::*;

verus! {

/// The protocol version of the exchange that a pool belongs to.
#[derive(Clone, Copy, Debug, PartialEq, Eq, Structural)]
pub enum DexVariant {
    UniswapV2,
    UniswapV3,
}

/// A pool of two tokens. Its address tells it from every other pool.
#[derive(Clone, Copy, Debug)]
pub struct Pool {
    pub address: Address,
    pub version: DexVariant,
    pub token0: Address,
    pub token1: Address,
    /// The number of decimals of token0.
    pub decimals0: u8,
    /// The number of decimals of token1.
    pub decimals1: u8,
    /// The fee of a swap, in parts of a thousand: 3 stands for 0.3%.
    pub fee: u32,
}

/// Why a snapshot row stands for no pool.
#[derive(Clone, Copy, Debug, PartialEq, Eq, Structural)]
pub enum SnapshotError {
    /// The row has fewer than seven fields.
    TooFewFields,
    /// The field at this place is no address.
    BadAddress { field: u8 },
    /// The version field is neither `2` nor `3`.
    BadVersion,
    /// The field at this place is no number, or one too large.
    BadNumber { field: u8 },
}

/// A row of a snapshot that stands for no pool, and why.
#[derive(Clone, Copy, Debug, PartialEq, Eq, Structural)]
pub struct SnapshotRowError {
    pub row: usize,
    pub error: SnapshotError,
}

/// The number that the snapshot writes for a version.
pub open spec fn version_code(version: DexVariant) -> i32 {
    match version {
        DexVariant::UniswapV2 => 2i32,
        DexVariant::UniswapV3 => 3i32,
    }
}

/// The version that a field of the snapshot stands for: the second for the
/// text `2`, the third for the text `3`, and none for any other text.
pub open spec fn version_of_text(s: Seq<char>) -> Option<DexVariant> {
    if s == seq!['2'] {
        Some(DexVariant::UniswapV2)
    } else if s == seq!['3'] {
        Some(DexVariant::UniswapV3)
    } else {
        None
    }
}

/// The texts that a vector of strings holds.
pub open spec fn texts(fields: Seq<String>) -> Seq<Seq<char>> {
    Seq::new(fields.len(), |i: int| fields[i]@)
}

/// The first thing that is wrong with a row, if anything is.
pub open spec fn record_error(fields: Seq<Seq<char>>) -> Option<SnapshotError> {
    if fields.len() < 7 {
        Some(SnapshotError::TooFewFields)
    } else if !address_text_valid(fields[0]) {
        Some(SnapshotError::BadAddress { field: 0 })
    } else if version_of_text(fields[1]) is None {
        Some(SnapshotError::BadVersion)
    } else if !address_text_valid(fields[2]) {
        Some(SnapshotError::BadAddress { field: 2 })
    } else if !address_text_valid(fields[3]) {
        Some(SnapshotError::BadAddress { field: 3 })
    } else if parse_decimal_spec(fields[4], 255) is None {
        Some(SnapshotError::BadNumber { field: 4 })
    } else if parse_decimal_spec(fields[5], 255) is None {
        Some(SnapshotError::BadNumber { field: 5 })
    } else if parse_decimal_spec(fields[6], 0xffff_ffff) is None {
        Some(SnapshotError::BadNumber { field: 6 })
    } else {
        None
    }
}

/// Whether a pool is the one that a row without fault stands for.
pub open spec fn record_matches(fields: Seq<Seq<char>>, pool: Pool) -> bool {
    &&& fields.len() >= 7
    &&& pool.address@ == address_text_bytes(fields[0])
    &&& version_of_text(fields[1]) == Some(pool.version)
    &&& pool.token0@ == address_text_bytes(fields[2])
    &&& pool.token1@ == address_text_bytes(fields[3])
    &&& parse_decimal_spec(fields[4], 255) == Some(pool.decimals0 as nat)
    &&& parse_decimal_spec(fields[5], 255) == Some(pool.decimals1 as nat)
    &&& parse_decimal_spec(fields[6], 0xffff_ffff) == Some(pool.fee as nat)
}

/// The row that the snapshot holds for a pool.
pub open spec fn pool_record(pool: Pool) -> Seq<Seq<char>> {
    seq![
        address_text(pool.address@),
        decimal_text(version_code(pool.version) as nat),
        address_text(pool.token0@),
        address_text(pool.token1@),
        decimal_text(pool.decimals0 as nat),
        decimal_text(pool.decimals1 as nat),
        decimal_text(pool.fee as nat),
    ]
}

/// The texts of the rows of a snapshot.
pub open spec fn row_texts(rows: Seq<Vec<String>>) -> Seq<Seq<Seq<char>>> {
    Seq::new(rows.len(), |i: int| texts(rows[i]@))
}

/// The names of the seven columns, as the first line of a snapshot holds them.
pub fn snapshot_header() -> (r: Vec<String>)
    ensures
        texts(r@) == seq![
            "address"@,
            "version"@,
            "token0"@,
            "token1"@,
            "decimals0"@,
            "decimals1"@,
            "fee"@,
        ],
{
    let mut header: Vec<String> = Vec::new();
    header.push(String::from_str("address"));
    header.push(String::from_str("version"));
    header.push(String::from_str("token0"));
    header.push(String::from_str("token1"));
    header.push(String::from_str("decimals0"));
    header.push(String::from_str("decimals1"));
    header.push(String::from_str("fee"));
    proof {
        assert(texts(header@) =~= seq![
            "address"@,
            "version"@,
            "token0"@,
            "token1"@,
            "decimals0"@,
            "decimals1"@,
            "fee"@,
        ]);
    }
    header
}

fn version_of(s: &str) -> (r: Option<DexVariant>)
    ensures
        r == version_of_text(s@),
{
    if s.unicode_len() == 1 {
        let c = s.get_char(0);
        proof {
            if c == '2' {
                assert(s@ =~= seq!['2']);
            }
            if c == '3' {
                assert(s@ =~= seq!['3']);
            }
        }
        if c == '2' {
            Some(DexVariant::UniswapV2)
        } else if c == '3' {
            Some(DexVariant::UniswapV3)
        } else {
            None
        }
    } else {
        None
    }
}

impl Pool {
    /// The pool that the synchronisation with the chain found. It counts the
    /// fee in hundredths of a percent; the pool holds it in parts of a
    /// thousand, rounded down.
    pub fn from_synced(
        address: Address,
        version: DexVariant,
        token0: Address,
        token1: Address,
        decimals0: u8,
        decimals1: u8,
        fee_in_hundredths: u32,
    ) -> (r: Pool)
        ensures
            r == (Pool { address, version, token0, token1, decimals0, decimals1, fee: fee_in_hundredths / 100 }),
    {
        Pool { address, version, token0, token1, decimals0, decimals1, fee: fee_in_hundredths / 100 }
    }

    /// The values that the snapshot holds for this pool, in the order of its
    /// columns.
    pub fn cache_row(&self) -> (r: (String, i32, String, String, u8, u8, u32))
        ensures
            r.0@ == address_text(self.address@),
            r.1 == version_code(self.version),
            r.2@ == address_text(self.token0@),
            r.3@ == address_text(self.token1@),
            r.4 == self.decimals0,
            r.5 == self.decimals1,
            r.6 == self.fee,
    {
        (
            self.address.to_hex(),
            match self.version {
                DexVariant::UniswapV2 => 2,
                DexVariant::UniswapV3 => 3,
            },
            self.token0.to_hex(),
            self.token1.to_hex(),
            self.decimals0,
            self.decimals1,
            self.fee,
        )
    }

    /// The row of the snapshot for this pool, each field as text.
    pub fn to_record(&self) -> (r: Vec<String>)
        ensures
            texts(r@) == pool_record(*self),
    {
        let row = self.cache_row();
        let mut fields: Vec<String> = Vec::new();
        fields.push(row.0);
        fields.push(format_decimal(row.1 as u32));
        fields.push(row.2);
        fields.push(row.3);
        fields.push(format_decimal(row.4 as u32));
        fields.push(format_decimal(row.5 as u32));
        fields.push(format_decimal(row.6));
        proof {
            assert(texts(fields@) =~= pool_record(*self));
        }
        fields
    }

    /// Reads a pool from a row of the snapshot.
    pub fn from_record(record: &Vec<String>) -> (r: Result<Pool, SnapshotError>)
        ensures
            match r {
                Ok(pool) => record_error(texts(record@)) is None && record_matches(texts(record@), pool),
                Err(e) => record_error(texts(record@)) == Some(e),
            },
    {
        if record.len() < 7 {
            return Err(SnapshotError::TooFewFields);
        }
        let ghost fields = texts(record@);
        assert(fields[0] == record[0]@ && fields[1] == record[1]@ && fields[2] == record[2]@ && fields[3]
            == record[3]@ && fields[4] == record[4]@ && fields[5] == record[5]@ && fields[6] == record[6]@);
        let address = match Address::from_str(record[0].as_str()) {
            Some(a) => a,
            None => {
                return Err(SnapshotError::BadAddress { field: 0 });
            },
        };
        let version = match version_of(record[1].as_str()) {
            Some(v) => v,
            None => {
                return Err(SnapshotError::BadVersion);
            },
        };
        let token0 = match Address::from_str(record[2].as_str()) {
            Some(a) => a,
            None => {
                return Err(SnapshotError::BadAddress { field: 2 });
            },
        };
        let token1 = match Address::from_str(record[3].as_str()) {
            Some(a) => a,
            None => {
                return Err(SnapshotError::BadAddress { field: 3 });
            },
        };
        let decimals0 = match parse_decimal(record[4].as_str(), 255) {
            Some(v) => v as u8,
            None => {
                return Err(SnapshotError::BadNumber { field: 4 });
            },
        };
        let decimals1 = match parse_decimal(record[5].as_str(), 255) {
            Some(v) => v as u8,
            None => {
                return Err(SnapshotError::BadNumber { field: 5 });
            },
        };
        let fee = match parse_decimal(record[6].as_str(), 0xffff_ffff) {
            Some(v) => v,
            None => {
                return Err(SnapshotError::BadNumber { field: 6 });
            },
        };
        Ok(Pool { address, version, token0, token1, decimals0, decimals1, fee })
    }
}

/// Reads the pools of a snapshot from its rows, the header left out.
pub fn pools_from_records(rows: &Vec<Vec<String>>) -> (r: Result<Vec<Pool>, SnapshotRowError>)
    ensures
        match r {
            Ok(pools) => {
                &&& pools.len() == rows.len()
                &&& forall|i: int|
                    0 <= i < rows.len() ==> record_error(#[trigger] row_texts(rows@)[i]) is None && record_matches(
                        row_texts(rows@)[i],
                        pools[i],
                    )
            },
            Err(e) => {
                &&& e.row < rows.len()
                &&& record_error(row_texts(rows@)[e.row as int]) == Some(e.error)
                &&& forall|j: int| 0 <= j < e.row ==> record_error(#[trigger] row_texts(rows@)[j]) is None
            },
        },
{
    let mut pools: Vec<Pool> = Vec::new();
    let mut i: usize = 0;
    while i < rows.len()
        invariant
            i <= rows.len(),
            pools.len() == i,
            forall|j: int|
                0 <= j < i ==> record_error(#[trigger] row_texts(rows@)[j]) is None && record_matches(
                    row_texts(rows@)[j],
                    pools[j],
                ),
        decreases rows.len() - i,
    {
        proof {
            assert(row_texts(rows@)[i as int] == texts(rows[i as int]@));
        }
        match Pool::from_record(&rows[i]) {
            Ok(pool) => {
                pools.push(pool);
            },
            Err(error) => {
                return Err(SnapshotRowError { row: i, error });
            },
        }
        i += 1;
    }
    Ok(pools)
}

/// The rows of the snapshot for a list of pools, the header left out.
pub fn records_of_pools(pools: &Vec<Pool>) -> (r: Vec<Vec<String>>)
    ensures
        r.len() == pools.len(),
        forall|i: int| 0 <= i < pools.len() ==> #[trigger] row_texts(r@)[i] == pool_record(pools[i]),
{
    let mut rows: Vec<Vec<String>> = Vec::new();
    let mut i: usize = 0;
    while i < pools.len()
        invariant
            i <= pools.len(),
            rows.len() == i,
            forall|j: int| 0 <= j < i ==> #[trigger] row_texts(rows@)[j] == pool_record(pools[j]),
        decreases pools.len() - i,
    {
        let record = pools[i].to_record();
        let ghost old_rows = rows@;
        rows.push(record);
        proof {
            assert forall|j: int| 0 <= j < i + 1 implies #[trigger] row_texts(rows@)[j] == pool_record(pools[j]) by {
                if j < i {
                    assert(rows@[j] == old_rows[j]);
                    assert(row_texts(old_rows)[j] == pool_record(pools[j]));
                }
            }
        }
        i += 1;
    }
    rows
}

/// An exchange whose pools are looked for in the logs of its factory.
#[derive(Clone, Copy, Debug)]
pub struct Factory {
    pub address: Address,
    pub version: DexVariant,
    /// The block from which on the logs are read.
    pub creation_block: u64,
    pub fee: u32,
}

/// Why a list of factories cannot be used.
#[derive(Clone, Copy, Debug, PartialEq, Eq, Structural)]
pub enum FactoryError {
    /// The factory at this place has no starting block.
    MissingBlock { place: usize },
    /// The text of the factory at this place is no address.
    BadAddress { place: usize },
}

/// The fee that the pools of a factory take where nothing else is known.
pub const DEFAULT_FACTORY_FEE: u32 = 3000;

/// Whether a factory is the one that an address text and a starting block
/// stand for.
pub open spec fn is_factory(factory: Factory, text: Seq<char>, from_block: u64) -> bool {
    &&& address_text_valid(text)
    &&& factory.address@ == address_text_bytes(text)
    &&& factory.version == DexVariant::UniswapV2
    &&& factory.creation_block == from_block
    &&& factory.fee == DEFAULT_FACTORY_FEE
}

/// The first thing that is wrong with the factory at a place, if anything is.
pub open spec fn factory_fault(addresses: Seq<String>, from_blocks: Seq<u64>, place: int) -> Option<
    FactoryError,
> {
    if place >= from_blocks.len() {
        Some(FactoryError::MissingBlock { place: place as usize })
    } else if !address_text_valid(addresses[place]@) {
        Some(FactoryError::BadAddress { place: place as usize })
    } else {
        None
    }
}

/// Pairs each factory address with its starting block.
pub fn plan_factories(factory_addresses: &Vec<String>, from_blocks: &Vec<u64>) -> (r: Result<
    Vec<Factory>,
    FactoryError,
>)
    ensures
        match r {
            Ok(factories) => {
                &&& factories.len() == factory_addresses.len()
                &&& forall|i: int|
                    0 <= i < factories.len() ==> is_factory(
                        #[trigger] factories[i],
                        factory_addresses[i]@,
                        from_blocks[i],
                    ) && i < from_blocks.len()
            },
            Err(e) => exists|place: int|
                0 <= place < factory_addresses.len() && #[trigger] factory_fault(
                    factory_addresses@,
                    from_blocks@,
                    place,
                ) == Some(e) && forall|j: int|
                    0 <= j < place ==> #[trigger] factory_fault(factory_addresses@, from_blocks@, j) is None,
        },
{
    let mut factories: Vec<Factory> = Vec::new();
    let mut i: usize = 0;
    while i < factory_addresses.len()
        invariant
            i <= factory_addresses.len(),
            factories.len() == i,
            forall|j: int|
                0 <= j < i ==> is_factory(#[trigger] factories[j], factory_addresses[j]@, from_blocks[j]) && j
                    < from_blocks.len(),
            forall|j: int| 0 <= j < i ==> #[trigger] factory_fault(factory_addresses@, from_blocks@, j) is None,
        decreases factory_addresses.len() - i,
    {
        if i >= from_blocks.len() {
            proof {
                assert(factory_fault(factory_addresses@, from_blocks@, i as int) == Some(
                    FactoryError::MissingBlock { place: i },
                ));
            }
            return Err(FactoryError::MissingBlock { place: i });
        }
        match Address::from_str(factory_addresses[i].as_str()) {
            Some(address) => {
                factories.push(
                    Factory {
                        address,
                        version: DexVariant::UniswapV2,
                        creation_block: from_blocks[i],
                        fee: DEFAULT_FACTORY_FEE,
                    },
                );
            },
            None => {
                proof {
                    assert(factory_fault(factory_addresses@, from_blocks@, i as int) == Some(
                        FactoryError::BadAddress { place: i },
                    ));
                }
                return Err(FactoryError::BadAddress { place: i });
            },
        }
        proof {
            assert(factory_fault(factory_addresses@, from_blocks@, i as int) is None);
        }
        i += 1;
    }
    Ok(factories)
}

/// Where the pool list comes from.
#[derive(Debug)]
pub enum PoolSource {
    /// From the snapshot: the pools that its rows stand for.
    Snapshot(Vec<Pool>),
    /// From the chain: the factories whose logs are to be read.
    Chain(Vec<Factory>),
}

/// Why the pool list cannot be loaded.
#[derive(Clone, Copy, Debug, PartialEq, Eq, Structural)]
pub enum LoadError {
    Snapshot(SnapshotRowError),
    Factory(FactoryError),
}

/// Decides where the pool list comes from. Where there is a snapshot, its
/// rows are the list and the chain is not asked, however old the snapshot
/// is; where there is none, the factories are to be read from the chain.
pub fn load_all_pools_from_v2(
    snapshot_rows: Option<&Vec<Vec<String>>>,
    factory_addresses: &Vec<String>,
    from_blocks: &Vec<u64>,
) -> (r: Result<PoolSource, LoadError>)
    ensures
        match snapshot_rows {
            Some(rows) => match r {
                Ok(PoolSource::Snapshot(pools)) => {
                    &&& pools.len() == rows.len()
                    &&& forall|i: int|
                        0 <= i < rows.len() ==> record_error(#[trigger] row_texts(rows@)[i]) is None
                            && record_matches(row_texts(rows@)[i], pools[i])
                },
                Ok(PoolSource::Chain(_)) => false,
                Err(LoadError::Snapshot(e)) => {
                    &&& e.row < rows.len()
                    &&& record_error(row_texts(rows@)[e.row as int]) == Some(e.error)
                    &&& forall|j: int| 0 <= j < e.row ==> record_error(#[trigger] row_texts(rows@)[j]) is None
                },
                Err(LoadError::Factory(_)) => false,
            },
            None => match r {
                Ok(PoolSource::Chain(factories)) => {
                    &&& factories.len() == factory_addresses.len()
                    &&& forall|i: int|
                        0 <= i < factories.len() ==> is_factory(
                            #[trigger] factories[i],
                            factory_addresses[i]@,
                            from_blocks[i],
                        ) && i < from_blocks.len()
                },
                Ok(PoolSource::Snapshot(_)) => false,
                Err(LoadError::Factory(e)) => exists|place: int|
                    0 <= place < factory_addresses.len() && #[trigger] factory_fault(
                        factory_addresses@,
                        from_blocks@,
                        place,
                    ) == Some(e) && forall|j: int|
                        0 <= j < place ==> #[trigger] factory_fault(factory_addresses@, from_blocks@, j) is None,
                Err(LoadError::Snapshot(_)) => false,
            },
        },
{
    match snapshot_rows {
        Some(rows) => match pools_from_records(rows) {
            Ok(pools) => Ok(PoolSource::Snapshot(pools)),
            Err(e) => Err(LoadError::Snapshot(e)),
        },
        None => match plan_factories(factory_addresses, from_blocks) {
            Ok(factories) => Ok(PoolSource::Chain(factories)),
            Err(e) => Err(LoadError::Factory(e)),
        },
    }
}

/// Two pools that one row stands for are the same pool.
pub proof fn lemma_record_names_one_pool(fields: Seq<Seq<char>>, a: Pool, b: Pool)
    requires
        record_matches(fields, a),
        record_matches(fields, b),
    ensures
        a == b,
{
    a.address.lemma_view_injective(b.address);
    a.token0.lemma_view_injective(b.token0);
    a.token1.lemma_view_injective(b.token1);
}

/// Writing a pool and reading the row back gives the pool again: the row
/// written for a pool is without fault, and the pool is the one it stands for.
pub proof fn lemma_record_round_trip(pool: Pool)
    ensures
        record_error(pool_record(pool)) is None,
        record_matches(pool_record(pool), pool),
{
    let fields = pool_record(pool);
    lemma_address_text_round_trip(pool.address@);
    lemma_address_text_round_trip(pool.token0@);
    lemma_address_text_round_trip(pool.token1@);
    lemma_decimal_round_trip(pool.decimals0 as nat, 255);
    lemma_decimal_round_trip(pool.decimals1 as nat, 255);
    lemma_decimal_round_trip(pool.fee as nat, 0xffff_ffff);
    assert(fields[0] == address_text(pool.address@));
    assert(fields[2] == address_text(pool.token0@));
    assert(fields[3] == address_text(pool.token1@));
    assert(fields[4] == decimal_text(pool.decimals0 as nat));
    assert(fields[5] == decimal_text(pool.decimals1 as nat));
    assert(fields[6] == decimal_text(pool.fee as nat));
    // the version field: the one digit of the version
    assert(fields[1] == decimal_text(version_code(pool.version) as nat));
    match pool.version {
        DexVariant::UniswapV2 => {
            assert(fields[1] =~= seq!['2']);
            assert(version_of_text(fields[1]) == Some(DexVariant::UniswapV2));
        },
        DexVariant::UniswapV3 => {
            assert(fields[1] =~= seq!['3']);
            assert(fields[1][0] == '3');
            assert(seq!['2'][0] == '2');
            assert(version_of_text(fields[1]) == Some(DexVariant::UniswapV3));
        },
    }
}

/// Caching a list of pools and loading it again gives the same list: every
/// row written is without fault, and any list that the rows stand for is the
/// list that was written, field for field.
pub proof fn lemma_snapshot_round_trip(pools: Seq<Pool>, rows: Seq<Seq<Seq<char>>>, loaded: Seq<Pool>)
    requires
        rows.len() == pools.len(),
        forall|i: int| 0 <= i < pools.len() ==> #[trigger] rows[i] == pool_record(pools[i]),
        loaded.len() == rows.len(),
        forall|i: int| 0 <= i < rows.len() ==> record_matches(#[trigger] rows[i], loaded[i]),
    ensures
        forall|i: int| 0 <= i < rows.len() ==> record_error(#[trigger] rows[i]) is None,
        loaded == pools,
{
    assert forall|i: int| 0 <= i < rows.len() implies record_error(#[trigger] rows[i]) is None by {
        lemma_record_round_trip(pools[i]);
    }
    assert forall|i: int| 0 <= i < loaded.len() implies #[trigger] loaded[i] == pools[i] by {
        lemma_record_round_trip(pools[i]);
        assert(record_matches(rows[i], loaded[i]));
        lemma_record_names_one_pool(rows[i], loaded[i], pools[i]);
    }
    assert(loaded =~= pools);
}

} // verus!
