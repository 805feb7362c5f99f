//! A low-overhead structured logging core: severity levels and a process-wide
//! level gate, a registry that hands out dense call-site ids, a tagged binary
//! codec for log arguments, and the producer/consumer logic around per-thread
//! single-producer queues.
pub mod codec;
pub mod consumer;
pub mod level;
pub mod producer;
pub mod registry;
pub mod template;

pub use codec::{DecodeCorruption, Loggable, LoggedValue};
pub use consumer::{decode_chunk, drain_reader, Consumer, Drained, LogRecord, SweepReport};
pub use producer::{log_record, EncodingOverflow, LogOutcome, OverflowReports, TLSWrapper};
pub use level::{admits, get_log_level, set_log_level, LogLevel, LogLevelGate};
pub use registry::{
    add_log_line_spec, register_call_site, CallSiteRegistry, FreezeError, LogLineSpec, RawFunc, RegistrationError,
    SiteSlot,
};
pub use template::{parse_format_spec_bytes, split_template, FormatSpec, Piece};
