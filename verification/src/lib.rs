//! Verification logic for an on-ledger component framework over a
//! UTXO-style cell ledger: a self-describing record codec, a
//! singleton-creation protocol, an ownership-conserving balance protocol,
//! and a delegated-dispatch protocol, each a pure function over a read-only
//! transaction snapshot.

pub mod balance;
pub mod cells;
pub mod codec;
pub mod codec_laws;
pub mod dispatch;
pub mod error;
pub mod hash;
pub mod record;
pub mod type_id;
pub mod wire;
