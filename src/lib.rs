//! Decoding of market-data capture files that carry exchange quote messages,
//! with reconciliation of the embedded accept time and a bounded reordering
//! buffer that re-emits quotes by accept time.
pub mod capture;
pub mod container;
pub mod line;
pub mod quote;
pub mod reorder;
pub mod stamp;

pub use capture::{parse_capture, reorder_messages};
pub use container::{parse_header, read_u32, ByteOrder, ContainerContext, ParseError, Precision};
pub use line::decimal_bytes;
pub use quote::{parse_digits, parse_record, reconcile, QuoteMessage, Record};
pub use reorder::ReorderBuffer;
pub use stamp::Stamp;
