//! A streaming writer for FST (Fast Signal Trace) waveform files.
//!
//! The writer builds the whole file in memory: the header, the hierarchy
//! and geometry blocks, one or more value-change sections, and finally the
//! header again with its counts filled in. Writing the bytes to a file is
//! left to the caller.
use vstd::prelude::*;

pub mod blocks;
pub mod buffer;
pub mod bytes;
pub mod encode;
pub mod lists;
pub mod section;
pub mod types;
pub mod writer;

pub use lists::{MultiVecLists, SingleVecLists};
pub use types::{
    FstFileType, FstInfo, FstScopeType, FstSignalId, FstSignalType, FstVarDirection, FstVarType,
    FstWriteError,
};
pub use writer::{FstBodyWriter, FstHeaderWriter};

verus! {


} // verus!
