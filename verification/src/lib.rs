//! Decoding-and-search core of a log-analysis engine.
//!
//! Three pieces: a streaming byte-source abstraction with a
//! load/consume/filter contract (`sources`), a binary log-message decoder
//! for a length-prefixed, multi-header, typed-argument wire format (`dlt`),
//! and a cancellable search-execution protocol over decoded records
//! (`search`).

pub mod dlt;
pub mod search;
pub mod sources;
