//! A typed access layer in front of an ordered key-value engine: codecs,
//! iteration with bounds and prefix filters, write batches, a secondary
//! index, and the record logic of bulk import and export.
use vstd::prelude::*;

pub mod batch;
pub mod codec;
pub mod commands;
pub mod error;
pub mod index;
pub mod iter;
pub mod order;
pub mod store;

pub use crate::batch::{BatchOp, RocksMapBatch};
pub use crate::codec::{BincodeCodec, KeyCodec, OrderedCodec, OrderedKeyCodec, ValueCodec};
pub use crate::commands::{
    export_command, import_command, ExportPlan, ImportEntry, ImportError, ImportPlan, ImportSource,
};
pub use crate::error::{Error, Result};
pub use crate::index::{IndexExtractor, IndexWrite, SecondaryIndex};
pub use crate::iter::{KeyPrefix, Pull, RocksMapIterator};
pub use vstd::prelude::View;

verus! {

} // verus!
