//! The record schema of the ledger.
//!
//! Every record kind owns one leading tag byte of the key space. A key is its
//! tag followed by the encoding of its fields: a transaction identifier as its
//! 32 bytes, a number as a variable-length integer. Decoding accepts exactly
//! the bytes that encoding produces and reports everything else as a
//! structured error.

use crate::encoding::{
    lemma_read_of_written, lemma_written_of_read, read_varint, spec_read_varint, spec_rest,
    spec_varint, write_varint,
};
use crate::migration::MigrationMap;
use crate::peers::PeerId;
use crate::transaction::TransactionId;
use vstd::prelude::*;

verus! {

/// Schema version of the records that this module declares.
pub const GLOBAL_DATABASE_VERSION: u64 = 0;

/// Tag byte of the range that is handed to higher-level modules.
pub const MODULE_GLOBAL_PREFIX: u8 = 0xff;

/// The record kinds, each with its tag byte.
#[derive(Clone, Copy, Debug, PartialEq, Eq, Structural)]
pub enum DbKeyPrefix {
    AcceptedTransaction,
    DropPeer,
    RejectedTransaction,
    EpochHistory,
    LastEpoch,
    ClientConfigSignature,
    ConsensusUpgrade,
    Module,
}

impl DbKeyPrefix {
    pub open spec fn spec_byte(self) -> u8 {
        match self {
            DbKeyPrefix::AcceptedTransaction => 0x02,
            DbKeyPrefix::DropPeer => 0x03,
            DbKeyPrefix::RejectedTransaction => 0x04,
            DbKeyPrefix::EpochHistory => 0x05,
            DbKeyPrefix::LastEpoch => 0x06,
            DbKeyPrefix::ClientConfigSignature => 0x07,
            DbKeyPrefix::ConsensusUpgrade => 0x08,
            DbKeyPrefix::Module => MODULE_GLOBAL_PREFIX,
        }
    }

    pub open spec fn spec_name(self) -> Seq<char> {
        match self {
            DbKeyPrefix::AcceptedTransaction => "AcceptedTransaction"@,
            DbKeyPrefix::DropPeer => "DropPeer"@,
            DbKeyPrefix::RejectedTransaction => "RejectedTransaction"@,
            DbKeyPrefix::EpochHistory => "EpochHistory"@,
            DbKeyPrefix::LastEpoch => "LastEpoch"@,
            DbKeyPrefix::ClientConfigSignature => "ClientConfigSignature"@,
            DbKeyPrefix::ConsensusUpgrade => "ConsensusUpgrade"@,
            DbKeyPrefix::Module => "Module"@,
        }
    }

    /// The tag byte of this record kind.
    pub fn to_byte(self) -> (b: u8)
        ensures
            b == self.spec_byte(),
    {
        match self {
            DbKeyPrefix::AcceptedTransaction => 0x02,
            DbKeyPrefix::DropPeer => 0x03,
            DbKeyPrefix::RejectedTransaction => 0x04,
            DbKeyPrefix::EpochHistory => 0x05,
            DbKeyPrefix::LastEpoch => 0x06,
            DbKeyPrefix::ClientConfigSignature => 0x07,
            DbKeyPrefix::ConsensusUpgrade => 0x08,
            DbKeyPrefix::Module => MODULE_GLOBAL_PREFIX,
        }
    }

    /// The record kind that owns the tag byte `b`, if any does.
    pub fn from_byte(b: u8) -> (p: Option<DbKeyPrefix>)
        ensures
            match p {
                Some(kind) => kind.spec_byte() == b,
                None => forall|kind: DbKeyPrefix| kind.spec_byte() != b,
            },
    {
        if b == 0x02 {
            Some(DbKeyPrefix::AcceptedTransaction)
        } else if b == 0x03 {
            Some(DbKeyPrefix::DropPeer)
        } else if b == 0x04 {
            Some(DbKeyPrefix::RejectedTransaction)
        } else if b == 0x05 {
            Some(DbKeyPrefix::EpochHistory)
        } else if b == 0x06 {
            Some(DbKeyPrefix::LastEpoch)
        } else if b == 0x07 {
            Some(DbKeyPrefix::ClientConfigSignature)
        } else if b == 0x08 {
            Some(DbKeyPrefix::ConsensusUpgrade)
        } else if b == MODULE_GLOBAL_PREFIX {
            Some(DbKeyPrefix::Module)
        } else {
            None
        }
    }

    /// All record kinds, in the order of their declaration.
    pub fn all() -> (kinds: Vec<DbKeyPrefix>)
        ensures
            kinds@ == seq![
                DbKeyPrefix::AcceptedTransaction,
                DbKeyPrefix::DropPeer,
                DbKeyPrefix::RejectedTransaction,
                DbKeyPrefix::EpochHistory,
                DbKeyPrefix::LastEpoch,
                DbKeyPrefix::ClientConfigSignature,
                DbKeyPrefix::ConsensusUpgrade,
                DbKeyPrefix::Module,
            ],
    {
        let mut kinds: Vec<DbKeyPrefix> = Vec::new();
        kinds.push(DbKeyPrefix::AcceptedTransaction);
        kinds.push(DbKeyPrefix::DropPeer);
        kinds.push(DbKeyPrefix::RejectedTransaction);
        kinds.push(DbKeyPrefix::EpochHistory);
        kinds.push(DbKeyPrefix::LastEpoch);
        kinds.push(DbKeyPrefix::ClientConfigSignature);
        kinds.push(DbKeyPrefix::ConsensusUpgrade);
        kinds.push(DbKeyPrefix::Module);
        assert(kinds@ =~= seq![
            DbKeyPrefix::AcceptedTransaction,
            DbKeyPrefix::DropPeer,
            DbKeyPrefix::RejectedTransaction,
            DbKeyPrefix::EpochHistory,
            DbKeyPrefix::LastEpoch,
            DbKeyPrefix::ClientConfigSignature,
            DbKeyPrefix::ConsensusUpgrade,
            DbKeyPrefix::Module,
        ]);
        kinds
    }

    /// The name of this record kind, as it is shown to an operator.
    pub fn name(self) -> (n: String)
        ensures
            n@ == self.spec_name(),
    {
        match self {
            DbKeyPrefix::AcceptedTransaction => "AcceptedTransaction".to_owned(),
            DbKeyPrefix::DropPeer => "DropPeer".to_owned(),
            DbKeyPrefix::RejectedTransaction => "RejectedTransaction".to_owned(),
            DbKeyPrefix::EpochHistory => "EpochHistory".to_owned(),
            DbKeyPrefix::LastEpoch => "LastEpoch".to_owned(),
            DbKeyPrefix::ClientConfigSignature => "ClientConfigSignature".to_owned(),
            DbKeyPrefix::ConsensusUpgrade => "ConsensusUpgrade".to_owned(),
            DbKeyPrefix::Module => "Module".to_owned(),
        }
    }
}

/// No two record kinds share a tag byte.
pub proof fn lemma_tags_distinct(a: DbKeyPrefix, b: DbKeyPrefix)
    requires
        a.spec_byte() == b.spec_byte(),
    ensures
        a == b,
{
}

/// Why a persisted key could not be read.
#[allow(inconsistent_fields)]
#[derive(Clone, Copy, Debug, PartialEq, Eq, Structural)]
pub enum DecodingError {
    /// The key belongs to another record kind.
    WrongPrefix { expected: u8, found: u8 },
    /// The key has not the number of bytes that its kind has.
    WrongLength { expected: usize, found: usize },
    /// The bytes behind the tag are not the encoding of the key's fields.
    Malformed,
    /// No record kind owns the tag byte.
    UnknownPrefix { found: u8 },
}

/// The error in the first byte of a key that should carry the tag `prefix`.
pub open spec fn spec_frame_error(prefix: u8, data: Seq<u8>) -> Option<DecodingError> {
    if data.len() == 0 {
        Some(DecodingError::WrongLength { expected: 1, found: 0 })
    } else if data[0] != prefix {
        Some(DecodingError::WrongPrefix { expected: prefix, found: data[0] })
    } else {
        None
    }
}

/// The key of a record kind without fields.
pub open spec fn spec_unit_key(prefix: u8) -> Seq<u8> {
    seq![prefix]
}

/// The key of a record that is found by a transaction identifier.
pub open spec fn spec_id_key(prefix: u8, id: TransactionId) -> Seq<u8> {
    seq![prefix] + id.0@
}

/// The key of a record that is found by a number.
pub open spec fn spec_number_key(prefix: u8, v: u64) -> Seq<u8> {
    seq![prefix] + spec_varint(v)
}

/// The error that reading `data` as a key without fields gives, if any.
pub open spec fn spec_unit_key_error(prefix: u8, data: Seq<u8>) -> Option<DecodingError> {
    if spec_frame_error(prefix, data) is Some {
        spec_frame_error(prefix, data)
    } else if data.len() != 1 {
        Some(DecodingError::WrongLength { expected: 1, found: data.len() as usize })
    } else {
        None
    }
}

/// The error that reading `data` as a key with an identifier gives, if any.
pub open spec fn spec_id_key_error(prefix: u8, data: Seq<u8>) -> Option<DecodingError> {
    if spec_frame_error(prefix, data) is Some {
        spec_frame_error(prefix, data)
    } else if data.len() != 33 {
        Some(DecodingError::WrongLength { expected: 33, found: data.len() as usize })
    } else {
        None
    }
}

/// The error that reading `data` as a key with a number of at most `max`
/// gives, if any.
pub open spec fn spec_number_key_error(prefix: u8, data: Seq<u8>, max: u64) -> Option<
    DecodingError,
> {
    if spec_frame_error(prefix, data) is Some {
        spec_frame_error(prefix, data)
    } else {
        match spec_read_varint(data.skip(1)) {
            Some((v, n)) => if 1 + n == data.len() && v <= max {
                None
            } else {
                Some(DecodingError::Malformed)
            },
            None => Some(DecodingError::Malformed),
        }
    }
}

fn check_frame(prefix: u8, data: &[u8]) -> (r: Result<(), DecodingError>)
    ensures
        match r {
            Ok(_) => spec_frame_error(prefix, data@) is None,
            Err(e) => spec_frame_error(prefix, data@) == Some(e),
        },
{
    if data.len() == 0 {
        Err(DecodingError::WrongLength { expected: 1, found: 0 })
    } else if data[0] != prefix {
        Err(DecodingError::WrongPrefix { expected: prefix, found: data[0] })
    } else {
        Ok(())
    }
}

fn encode_unit_key(prefix: u8) -> (bytes: Vec<u8>)
    ensures
        bytes@ == spec_unit_key(prefix),
{
    let mut bytes: Vec<u8> = Vec::new();
    bytes.push(prefix);
    assert(bytes@ =~= spec_unit_key(prefix));
    bytes
}

fn decode_unit_key(prefix: u8, data: &[u8]) -> (r: Result<(), DecodingError>)
    ensures
        match r {
            Ok(_) => data@ == spec_unit_key(prefix) && spec_unit_key_error(prefix, data@) is None,
            Err(e) => data@ != spec_unit_key(prefix) && spec_unit_key_error(prefix, data@) == Some(
                e,
            ),
        },
{
    match check_frame(prefix, data) {
        Err(e) => Err(e),
        Ok(_) => {
            if data.len() != 1 {
                Err(DecodingError::WrongLength { expected: 1, found: data.len() })
            } else {
                assert(data@ =~= spec_unit_key(prefix));
                Ok(())
            }
        },
    }
}

fn encode_id_key(prefix: u8, id: &TransactionId) -> (bytes: Vec<u8>)
    ensures
        bytes@ == spec_id_key(prefix, *id),
{
    let mut bytes: Vec<u8> = Vec::new();
    bytes.push(prefix);
    let mut i: usize = 0;
    while i < 32
        invariant
            i <= 32,
            bytes@ == seq![prefix] + id.0@.take(i as int),
        decreases 32 - i,
    {
        bytes.push(id.0[i]);
        assert(bytes@ =~= seq![prefix] + id.0@.take(i + 1));
        i += 1;
    }
    assert(id.0@.take(32) =~= id.0@);
    bytes
}

fn decode_id_key(prefix: u8, data: &[u8]) -> (r: Result<TransactionId, DecodingError>)
    ensures
        match r {
            Ok(id) => data@ == spec_id_key(prefix, id) && spec_id_key_error(prefix, data@) is None,
            Err(e) => spec_id_key_error(prefix, data@) == Some(e) && forall|id: TransactionId|
                data@ != spec_id_key(prefix, id),
        },
{
    match check_frame(prefix, data) {
        Err(e) => Err(e),
        Ok(_) => {
            if data.len() != 33 {
                Err(DecodingError::WrongLength { expected: 33, found: data.len() })
            } else {
                let mut id: [u8; 32] = [0u8; 32];
                let mut i: usize = 0;
                while i < 32
                    invariant
                        i <= 32,
                        data@.len() == 33,
                        forall|j: int| 0 <= j < i ==> id@[j] == data@[j + 1],
                    decreases 32 - i,
                {
                    id[i] = data[i + 1];
                    i += 1;
                }
                assert(data@ =~= seq![prefix] + id@);
                Ok(TransactionId(id))
            }
        },
    }
}

fn encode_number_key(prefix: u8, v: u64) -> (bytes: Vec<u8>)
    ensures
        bytes@ == spec_number_key(prefix, v),
{
    let mut bytes: Vec<u8> = Vec::new();
    bytes.push(prefix);
    assert(bytes@ =~= seq![prefix]);
    write_varint(v, &mut bytes);
    bytes
}

fn decode_number_key(prefix: u8, data: &[u8], max: u64) -> (r: Result<u64, DecodingError>)
    ensures
        match r {
            Ok(v) => v <= max && data@ == spec_number_key(prefix, v) && spec_number_key_error(
                prefix,
                data@,
                max,
            ) is None,
            Err(e) => spec_number_key_error(prefix, data@, max) == Some(e) && forall|v: u64|
                v <= max ==> data@ != spec_number_key(prefix, v),
        },
{
    match check_frame(prefix, data) {
        Err(e) => Err(e),
        Ok(_) => {
            let ghost body = data@.skip(1);
            assert(body == spec_rest(data@, 1));
            assert(data@ =~= seq![prefix] + body);
            proof {
                lemma_written_of_read(body);
                assert forall|v: u64| data@ == spec_number_key(prefix, v) implies spec_read_varint(
                    body,
                ) == Some((v, body.len())) by {
                    assert(body =~= spec_varint(v) + Seq::<u8>::empty());
                    lemma_read_of_written(v, Seq::<u8>::empty());
                }
            }
            match read_varint(data, 1) {
                Some((v, next)) => {
                    if next == data.len() && v <= max {
                        assert(body.subrange(0, body.len() as int) =~= body);
                        Ok(v)
                    } else {
                        Err(DecodingError::Malformed)
                    }
                },
                None => Err(DecodingError::Malformed),
            }
        },
    }
}

/// Key of the record of an accepted transaction.
#[derive(Clone, Copy, Debug, PartialEq, Eq)]
pub struct AcceptedTransactionKey(pub TransactionId);

/// Key prefix of all records of accepted transactions.
#[derive(Clone, Copy, Debug, PartialEq, Eq, Structural)]
pub struct AcceptedTransactionKeyPrefix;

/// Key of the record of a rejected transaction.
#[derive(Clone, Copy, Debug, PartialEq, Eq)]
pub struct RejectedTransactionKey(pub TransactionId);

/// Key prefix of all records of rejected transactions.
#[derive(Clone, Copy, Debug, PartialEq, Eq, Structural)]
pub struct RejectedTransactionKeyPrefix;

/// Key of the record of the votes to drop one peer.
#[derive(Clone, Copy, Debug, PartialEq, Eq, Structural)]
pub struct DropPeerKey(pub PeerId);

/// Key prefix of all records of votes to drop a peer.
#[derive(Clone, Copy, Debug, PartialEq, Eq, Structural)]
pub struct DropPeerKeyPrefix;

/// Key of the signed outcome of one epoch.
#[derive(Clone, Copy, Debug, PartialEq, Eq, Structural)]
pub struct EpochHistoryKey(pub u64);

/// Key prefix of all signed outcomes.
#[derive(Clone, Copy, Debug, PartialEq, Eq, Structural)]
pub struct EpochHistoryKeyPrefix;

/// Key of the pointer to the last committed epoch.
#[derive(Clone, Copy, Debug, PartialEq, Eq, Structural)]
pub struct LastEpochKey;

/// Key of the federation's signature over its client configuration.
#[derive(Clone, Copy, Debug, PartialEq, Eq, Structural)]
pub struct ClientConfigSignatureKey;

/// Key prefix of the client configuration signature.
#[derive(Clone, Copy, Debug, PartialEq, Eq, Structural)]
pub struct ClientConfigSignatureKeyPrefix;

/// Key of the set of peers that are ready for the next version.
#[derive(Clone, Copy, Debug, PartialEq, Eq, Structural)]
pub struct ConsensusUpgradeKey;

impl AcceptedTransactionKey {
    pub open spec fn spec_to_bytes(self) -> Seq<u8> {
        spec_id_key(DbKeyPrefix::AcceptedTransaction.spec_byte(), self.0)
    }

    pub fn to_bytes(&self) -> (bytes: Vec<u8>)
        ensures
            bytes@ == self.spec_to_bytes(),
    {
        encode_id_key(DbKeyPrefix::AcceptedTransaction.to_byte(), &self.0)
    }

    /// Reads a key. Succeeds on exactly the bytes that `to_bytes` gives.
    pub fn from_bytes(data: &[u8]) -> (r: Result<AcceptedTransactionKey, DecodingError>)
        ensures
            match r {
                Ok(key) => data@ == key.spec_to_bytes(),
                Err(e) => spec_id_key_error(DbKeyPrefix::AcceptedTransaction.spec_byte(), data@)
                    == Some(e) && forall|key: AcceptedTransactionKey|
                    data@ != key.spec_to_bytes(),
            },
    {
        match decode_id_key(DbKeyPrefix::AcceptedTransaction.to_byte(), data) {
            Ok(id) => Ok(AcceptedTransactionKey(id)),
            Err(e) => Err(e),
        }
    }
}

impl AcceptedTransactionKeyPrefix {
    pub open spec fn spec_to_bytes(self) -> Seq<u8> {
        spec_unit_key(DbKeyPrefix::AcceptedTransaction.spec_byte())
    }

    pub fn to_bytes(&self) -> (bytes: Vec<u8>)
        ensures
            bytes@ == self.spec_to_bytes(),
    {
        encode_unit_key(DbKeyPrefix::AcceptedTransaction.to_byte())
    }
}

impl RejectedTransactionKey {
    pub open spec fn spec_to_bytes(self) -> Seq<u8> {
        spec_id_key(DbKeyPrefix::RejectedTransaction.spec_byte(), self.0)
    }

    pub fn to_bytes(&self) -> (bytes: Vec<u8>)
        ensures
            bytes@ == self.spec_to_bytes(),
    {
        encode_id_key(DbKeyPrefix::RejectedTransaction.to_byte(), &self.0)
    }

    /// Reads a key. Succeeds on exactly the bytes that `to_bytes` gives.
    pub fn from_bytes(data: &[u8]) -> (r: Result<RejectedTransactionKey, DecodingError>)
        ensures
            match r {
                Ok(key) => data@ == key.spec_to_bytes(),
                Err(e) => spec_id_key_error(DbKeyPrefix::RejectedTransaction.spec_byte(), data@)
                    == Some(e) && forall|key: RejectedTransactionKey|
                    data@ != key.spec_to_bytes(),
            },
    {
        match decode_id_key(DbKeyPrefix::RejectedTransaction.to_byte(), data) {
            Ok(id) => Ok(RejectedTransactionKey(id)),
            Err(e) => Err(e),
        }
    }
}

impl RejectedTransactionKeyPrefix {
    pub open spec fn spec_to_bytes(self) -> Seq<u8> {
        spec_unit_key(DbKeyPrefix::RejectedTransaction.spec_byte())
    }

    pub fn to_bytes(&self) -> (bytes: Vec<u8>)
        ensures
            bytes@ == self.spec_to_bytes(),
    {
        encode_unit_key(DbKeyPrefix::RejectedTransaction.to_byte())
    }
}

impl DropPeerKey {
    pub open spec fn spec_to_bytes(self) -> Seq<u8> {
        spec_number_key(DbKeyPrefix::DropPeer.spec_byte(), self.0.0 as u64)
    }

    pub fn to_bytes(&self) -> (bytes: Vec<u8>)
        ensures
            bytes@ == self.spec_to_bytes(),
    {
        encode_number_key(DbKeyPrefix::DropPeer.to_byte(), self.0.0 as u64)
    }

    /// Reads a key. Succeeds on exactly the bytes that `to_bytes` gives.
    pub fn from_bytes(data: &[u8]) -> (r: Result<DropPeerKey, DecodingError>)
        ensures
            match r {
                Ok(key) => data@ == key.spec_to_bytes(),
                Err(e) => spec_number_key_error(DbKeyPrefix::DropPeer.spec_byte(), data@, 0xffff)
                    == Some(e) && forall|key: DropPeerKey| data@ != key.spec_to_bytes(),
            },
    {
        match decode_number_key(DbKeyPrefix::DropPeer.to_byte(), data, 0xffff) {
            Ok(v) => Ok(DropPeerKey(PeerId(v as u16))),
            Err(e) => {
                assert forall|key: DropPeerKey| data@ != key.spec_to_bytes() by {
                    assert(key.0.0 as u64 <= 0xffff);
                }
                Err(e)
            },
        }
    }
}

impl DropPeerKeyPrefix {
    pub open spec fn spec_to_bytes(self) -> Seq<u8> {
        spec_unit_key(DbKeyPrefix::DropPeer.spec_byte())
    }

    pub fn to_bytes(&self) -> (bytes: Vec<u8>)
        ensures
            bytes@ == self.spec_to_bytes(),
    {
        encode_unit_key(DbKeyPrefix::DropPeer.to_byte())
    }
}

impl EpochHistoryKey {
    pub open spec fn spec_to_bytes(self) -> Seq<u8> {
        spec_number_key(DbKeyPrefix::EpochHistory.spec_byte(), self.0)
    }

    pub fn to_bytes(&self) -> (bytes: Vec<u8>)
        ensures
            bytes@ == self.spec_to_bytes(),
    {
        encode_number_key(DbKeyPrefix::EpochHistory.to_byte(), self.0)
    }

    /// Reads a key. Succeeds on exactly the bytes that `to_bytes` gives.
    pub fn from_bytes(data: &[u8]) -> (r: Result<EpochHistoryKey, DecodingError>)
        ensures
            match r {
                Ok(key) => data@ == key.spec_to_bytes(),
                Err(e) => spec_number_key_error(
                    DbKeyPrefix::EpochHistory.spec_byte(),
                    data@,
                    u64::MAX,
                ) == Some(e) && forall|key: EpochHistoryKey| data@ != key.spec_to_bytes(),
            },
    {
        match decode_number_key(DbKeyPrefix::EpochHistory.to_byte(), data, u64::MAX) {
            Ok(v) => Ok(EpochHistoryKey(v)),
            Err(e) => Err(e),
        }
    }
}

impl EpochHistoryKeyPrefix {
    pub open spec fn spec_to_bytes(self) -> Seq<u8> {
        spec_unit_key(DbKeyPrefix::EpochHistory.spec_byte())
    }

    pub fn to_bytes(&self) -> (bytes: Vec<u8>)
        ensures
            bytes@ == self.spec_to_bytes(),
    {
        encode_unit_key(DbKeyPrefix::EpochHistory.to_byte())
    }
}

impl LastEpochKey {
    pub open spec fn spec_to_bytes(self) -> Seq<u8> {
        spec_unit_key(DbKeyPrefix::LastEpoch.spec_byte())
    }

    pub fn to_bytes(&self) -> (bytes: Vec<u8>)
        ensures
            bytes@ == self.spec_to_bytes(),
    {
        encode_unit_key(DbKeyPrefix::LastEpoch.to_byte())
    }

    /// Reads a key. Succeeds on exactly the bytes that `to_bytes` gives.
    pub fn from_bytes(data: &[u8]) -> (r: Result<LastEpochKey, DecodingError>)
        ensures
            match r {
                Ok(key) => data@ == key.spec_to_bytes(),
                Err(e) => spec_unit_key_error(DbKeyPrefix::LastEpoch.spec_byte(), data@) == Some(e)
                    && data@ != LastEpochKey.spec_to_bytes(),
            },
    {
        match decode_unit_key(DbKeyPrefix::LastEpoch.to_byte(), data) {
            Ok(_) => Ok(LastEpochKey),
            Err(e) => Err(e),
        }
    }
}

impl ClientConfigSignatureKey {
    pub open spec fn spec_to_bytes(self) -> Seq<u8> {
        spec_unit_key(DbKeyPrefix::ClientConfigSignature.spec_byte())
    }

    pub fn to_bytes(&self) -> (bytes: Vec<u8>)
        ensures
            bytes@ == self.spec_to_bytes(),
    {
        encode_unit_key(DbKeyPrefix::ClientConfigSignature.to_byte())
    }

    /// Reads a key. Succeeds on exactly the bytes that `to_bytes` gives.
    pub fn from_bytes(data: &[u8]) -> (r: Result<ClientConfigSignatureKey, DecodingError>)
        ensures
            match r {
                Ok(key) => data@ == key.spec_to_bytes(),
                Err(e) => spec_unit_key_error(
                    DbKeyPrefix::ClientConfigSignature.spec_byte(),
                    data@,
                ) == Some(e) && data@ != ClientConfigSignatureKey.spec_to_bytes(),
            },
    {
        match decode_unit_key(DbKeyPrefix::ClientConfigSignature.to_byte(), data) {
            Ok(_) => Ok(ClientConfigSignatureKey),
            Err(e) => Err(e),
        }
    }
}

impl ClientConfigSignatureKeyPrefix {
    pub open spec fn spec_to_bytes(self) -> Seq<u8> {
        spec_unit_key(DbKeyPrefix::ClientConfigSignature.spec_byte())
    }

    pub fn to_bytes(&self) -> (bytes: Vec<u8>)
        ensures
            bytes@ == self.spec_to_bytes(),
    {
        encode_unit_key(DbKeyPrefix::ClientConfigSignature.to_byte())
    }
}

impl ConsensusUpgradeKey {
    pub open spec fn spec_to_bytes(self) -> Seq<u8> {
        spec_unit_key(DbKeyPrefix::ConsensusUpgrade.spec_byte())
    }

    pub fn to_bytes(&self) -> (bytes: Vec<u8>)
        ensures
            bytes@ == self.spec_to_bytes(),
    {
        encode_unit_key(DbKeyPrefix::ConsensusUpgrade.to_byte())
    }

    /// Reads a key. Succeeds on exactly the bytes that `to_bytes` gives.
    pub fn from_bytes(data: &[u8]) -> (r: Result<ConsensusUpgradeKey, DecodingError>)
        ensures
            match r {
                Ok(key) => data@ == key.spec_to_bytes(),
                Err(e) => spec_unit_key_error(DbKeyPrefix::ConsensusUpgrade.spec_byte(), data@)
                    == Some(e) && data@ != ConsensusUpgradeKey.spec_to_bytes(),
            },
    {
        match decode_unit_key(DbKeyPrefix::ConsensusUpgrade.to_byte(), data) {
            Ok(_) => Ok(ConsensusUpgradeKey),
            Err(e) => Err(e),
        }
    }
}

/// A key of any record kind of this schema.
#[derive(Clone, Copy, Debug, PartialEq, Eq)]
pub enum DbKey {
    AcceptedTransaction(AcceptedTransactionKey),
    DropPeer(DropPeerKey),
    RejectedTransaction(RejectedTransactionKey),
    EpochHistory(EpochHistoryKey),
    LastEpoch(LastEpochKey),
    ClientConfigSignature(ClientConfigSignatureKey),
    ConsensusUpgrade(ConsensusUpgradeKey),
}

impl DbKey {
    pub open spec fn spec_kind(self) -> DbKeyPrefix {
        match self {
            DbKey::AcceptedTransaction(_) => DbKeyPrefix::AcceptedTransaction,
            DbKey::DropPeer(_) => DbKeyPrefix::DropPeer,
            DbKey::RejectedTransaction(_) => DbKeyPrefix::RejectedTransaction,
            DbKey::EpochHistory(_) => DbKeyPrefix::EpochHistory,
            DbKey::LastEpoch(_) => DbKeyPrefix::LastEpoch,
            DbKey::ClientConfigSignature(_) => DbKeyPrefix::ClientConfigSignature,
            DbKey::ConsensusUpgrade(_) => DbKeyPrefix::ConsensusUpgrade,
        }
    }

    pub open spec fn spec_to_bytes(self) -> Seq<u8> {
        match self {
            DbKey::AcceptedTransaction(k) => k.spec_to_bytes(),
            DbKey::DropPeer(k) => k.spec_to_bytes(),
            DbKey::RejectedTransaction(k) => k.spec_to_bytes(),
            DbKey::EpochHistory(k) => k.spec_to_bytes(),
            DbKey::LastEpoch(k) => k.spec_to_bytes(),
            DbKey::ClientConfigSignature(k) => k.spec_to_bytes(),
            DbKey::ConsensusUpgrade(k) => k.spec_to_bytes(),
        }
    }

    /// The error that reading `data` as a key of any kind gives, if any.
    pub open spec fn spec_error(data: Seq<u8>) -> Option<DecodingError> {
        if data.len() == 0 {
            Some(DecodingError::WrongLength { expected: 1, found: 0 })
        } else if data[0] == 0x02 || data[0] == 0x04 {
            spec_id_key_error(data[0], data)
        } else if data[0] == 0x03 {
            spec_number_key_error(data[0], data, 0xffff)
        } else if data[0] == 0x05 {
            spec_number_key_error(data[0], data, u64::MAX)
        } else if data[0] == 0x06 || data[0] == 0x07 || data[0] == 0x08 {
            spec_unit_key_error(data[0], data)
        } else {
            Some(DecodingError::UnknownPrefix { found: data[0] })
        }
    }

    pub fn kind(&self) -> (k: DbKeyPrefix)
        ensures
            k == self.spec_kind(),
    {
        match self {
            DbKey::AcceptedTransaction(_) => DbKeyPrefix::AcceptedTransaction,
            DbKey::DropPeer(_) => DbKeyPrefix::DropPeer,
            DbKey::RejectedTransaction(_) => DbKeyPrefix::RejectedTransaction,
            DbKey::EpochHistory(_) => DbKeyPrefix::EpochHistory,
            DbKey::LastEpoch(_) => DbKeyPrefix::LastEpoch,
            DbKey::ClientConfigSignature(_) => DbKeyPrefix::ClientConfigSignature,
            DbKey::ConsensusUpgrade(_) => DbKeyPrefix::ConsensusUpgrade,
        }
    }

    pub fn to_bytes(&self) -> (bytes: Vec<u8>)
        ensures
            bytes@ == self.spec_to_bytes(),
    {
        match self {
            DbKey::AcceptedTransaction(k) => k.to_bytes(),
            DbKey::DropPeer(k) => k.to_bytes(),
            DbKey::RejectedTransaction(k) => k.to_bytes(),
            DbKey::EpochHistory(k) => k.to_bytes(),
            DbKey::LastEpoch(k) => k.to_bytes(),
            DbKey::ClientConfigSignature(k) => k.to_bytes(),
            DbKey::ConsensusUpgrade(k) => k.to_bytes(),
        }
    }

    /// Reads a key of whichever kind owns its tag byte. A key of the range
    /// of the modules, or with a tag that no kind owns, is not read here.
    pub fn from_bytes(data: &[u8]) -> (r: Result<DbKey, DecodingError>)
        ensures
            match r {
                Ok(key) => data@ == key.spec_to_bytes() && Self::spec_error(data@) is None,
                Err(e) => Self::spec_error(data@) == Some(e),
            },
    {
        if data.len() == 0 {
            return Err(DecodingError::WrongLength { expected: 1, found: 0 });
        }
        let r = match DbKeyPrefix::from_byte(data[0]) {
            Some(DbKeyPrefix::AcceptedTransaction) => match AcceptedTransactionKey::from_bytes(
                data,
            ) {
                Ok(k) => Ok(DbKey::AcceptedTransaction(k)),
                Err(e) => Err(e),
            },
            Some(DbKeyPrefix::DropPeer) => match DropPeerKey::from_bytes(data) {
                Ok(k) => Ok(DbKey::DropPeer(k)),
                Err(e) => Err(e),
            },
            Some(DbKeyPrefix::RejectedTransaction) => match RejectedTransactionKey::from_bytes(
                data,
            ) {
                Ok(k) => Ok(DbKey::RejectedTransaction(k)),
                Err(e) => Err(e),
            },
            Some(DbKeyPrefix::EpochHistory) => match EpochHistoryKey::from_bytes(data) {
                Ok(k) => Ok(DbKey::EpochHistory(k)),
                Err(e) => Err(e),
            },
            Some(DbKeyPrefix::LastEpoch) => match LastEpochKey::from_bytes(data) {
                Ok(k) => Ok(DbKey::LastEpoch(k)),
                Err(e) => Err(e),
            },
            Some(DbKeyPrefix::ClientConfigSignature) => match ClientConfigSignatureKey::from_bytes(
                data,
            ) {
                Ok(k) => Ok(DbKey::ClientConfigSignature(k)),
                Err(e) => Err(e),
            },
            Some(DbKeyPrefix::ConsensusUpgrade) => match ConsensusUpgradeKey::from_bytes(data) {
                Ok(k) => Ok(DbKey::ConsensusUpgrade(k)),
                Err(e) => Err(e),
            },
            Some(DbKeyPrefix::Module) => Err(DecodingError::UnknownPrefix { found: data[0] }),
            None => {
                proof {
                    let b = data@[0];
                    assert(DbKeyPrefix::AcceptedTransaction.spec_byte() != b);
                    assert(DbKeyPrefix::DropPeer.spec_byte() != b);
                    assert(DbKeyPrefix::RejectedTransaction.spec_byte() != b);
                    assert(DbKeyPrefix::EpochHistory.spec_byte() != b);
                    assert(DbKeyPrefix::LastEpoch.spec_byte() != b);
                    assert(DbKeyPrefix::ClientConfigSignature.spec_byte() != b);
                    assert(DbKeyPrefix::ConsensusUpgrade.spec_byte() != b);
                }
                Err(DecodingError::UnknownPrefix { found: data[0] })
            },
        };
        proof {
            if let Ok(key) = r {
                lemma_key_round_trip(key);
            }
        }
        r
    }
}

/// Reading what was written gives the key that was written.
pub proof fn lemma_key_round_trip(key: DbKey)
    ensures
        DbKey::spec_error(key.spec_to_bytes()) is None,
        key.spec_to_bytes().len() >= 1,
        key.spec_to_bytes()[0] == key.spec_kind().spec_byte(),
{
    let data = key.spec_to_bytes();
    match key {
        DbKey::DropPeer(k) => {
            assert(data.skip(1) =~= spec_varint(k.0.0 as u64) + Seq::<u8>::empty());
            lemma_read_of_written(k.0.0 as u64, Seq::<u8>::empty());
        },
        DbKey::EpochHistory(k) => {
            assert(data.skip(1) =~= spec_varint(k.0) + Seq::<u8>::empty());
            lemma_read_of_written(k.0, Seq::<u8>::empty());
        },
        _ => {},
    }
}

/// The migrations of the records that this module declares: there are none
/// yet, the schema is at its first version.
pub fn get_global_database_migrations() -> (m: MigrationMap)
    ensures
        m@ == Set::<u64>::empty(),
{
    MigrationMap::new()
}

} // verus!
