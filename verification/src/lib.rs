//! Offline gadget finder for ROP/JOP/SOP payloads against x86 and x86-64
//! program images.
//!
//! The pipeline: a loader locates executable code regions of an ELF/PE/raw
//! image ([`binary`]); two optional patch passes rewrite compiler-inserted
//! return-thunk and retpoline sites back into the classic instructions they
//! replaced ([`binary`]); a backwards-tail-expansion scanner enumerates every
//! gadget that ends in an interesting tail instruction ([`scan`]); and a
//! deduplicating filter/sort/format stage presents the results ([`pipeline`]).

pub mod binary;
pub mod error;
pub mod gadget;
pub mod rules;
pub mod scan;
pub mod textutil;
pub mod insn;
pub mod pipeline;
pub mod render;
