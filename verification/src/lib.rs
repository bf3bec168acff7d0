//! A signature-based directory scanner core: a signature database parsed
//! from `identifier=hex` lines, literal byte-prefix matching of file
//! contents, an accumulator of flagged paths, a FIFO log sink, and a scanner
//! that processes discovered filesystem entries one by one. Traversal and
//! all I/O stay with the embedding program, which hands entries in as plain
//! values.
pub mod bytes;
pub mod hexcode;
pub mod kvmap;
pub mod logfmt;
pub mod registry;
pub mod scanner;
pub mod sig;
pub mod sink;

pub use registry::{RiskEntry, RiskRegistry};
pub use scanner::{render_findings, ScanEntry, Scanner, ScanStats};
pub use sig::{LoadError, Signature, SignatureStore};
pub use sink::LogSink;
