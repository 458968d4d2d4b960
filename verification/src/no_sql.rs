//! Rows of the two auxiliary no-sql tables the service watches: the block
//! reader records and the NFT registry.  Only the plain row data lives
//! here; serialization of the rows happens at the boundary.

use vstd::prelude::*;

verus! {

/// One block-reader row.
#[derive(Clone, Debug)]
pub struct BlockReaderNoSql {
    pub partition_key: String,
    pub row_key: String,
    pub time_stamp: String,
    pub filter: String,
}

impl BlockReaderNoSql {
    pub fn get_partition_key(&self) -> (r: &str)
        ensures
            r@ == self.partition_key@,
    {
        self.partition_key.as_str()
    }

    pub fn get_row_key(&self) -> (r: &str)
        ensures
            r@ == self.row_key@,
    {
        self.row_key.as_str()
    }

    pub fn get_time_stamp(&self) -> (r: i64)
        ensures
            r == 0,
    {
        0
    }

    /// The fixed name of the block-reader table.
    pub fn table_name() -> (r: &'static str)
        ensures
            r@ == ("service-candle-writer-block-reader")@,
    {
        "service-candle-writer-block-reader"
    }
}

/// One NFT record payload.
#[derive(Clone, Debug)]
pub struct NftRecord {
    pub contract_address: String,
}

/// One NFT registry row.
#[derive(Clone, Debug)]
pub struct NftRecordRegistryNoSqlEntity {
    pub partition_key: String,
    pub row_key: String,
    pub time_stamp: String,
    pub nft_record: NftRecord,
}

impl NftRecordRegistryNoSqlEntity {
    pub fn get_partition_key(&self) -> (r: &str)
        ensures
            r@ == self.partition_key@,
    {
        self.partition_key.as_str()
    }

    pub fn get_row_key(&self) -> (r: &str)
        ensures
            r@ == self.row_key@,
    {
        self.row_key.as_str()
    }

    pub fn get_time_stamp(&self) -> (r: i64)
        ensures
            r == 0,
    {
        0
    }

    /// The fixed name of the registry table.
    pub fn table_name() -> (r: &'static str)
        ensures
            r@ == ("myjetwallet-nft-manager-registry")@,
    {
        "myjetwallet-nft-manager-registry"
    }
}

} // verus!
