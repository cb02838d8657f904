//! Packet buffers with a self-describing 16-byte header, the formats that
//! fill them, the streams that carry them, and the logs that store them.
//!
//! - [`header`]: the header layout, status codes and header checks.
//! - [`vec_buf`], [`view`]: owned, shared, borrowed and in-place packets.
//! - [`format`], [`bridgeable`]: encoding values into packets and decoding
//!   them, with the status telling success from error.
//! - [`stream`]: framing packets on a byte stream.
//! - [`wal`], [`log_wal`]: the write-ahead log of packets and the segmented
//!   log of execution records.
//! - [`time`], [`typeable`], [`bow`], [`execution`]: values carried in
//!   records.
//! - [`value`], [`value_type`], [`schema`]: dynamically typed values and
//!   rows, the column type a value has, and the schema of rows.
//! - [`arrow_type`]: Arrow's column types and the mapping between them and
//!   the library's.
//! - [`repair`], [`nested_repair`], [`coerce`], [`try_value`]: repairing
//!   values into the types a schema asks for, coercing Rust values into
//!   column values, and taking them back out.
pub mod error;
pub mod header;
pub mod vec_buf;
pub mod view;
pub mod format;
pub mod bridgeable;
pub mod stream;
pub mod wal;
pub mod log_wal;
pub mod time;
pub mod typeable;
pub mod bow;
pub mod execution;
pub mod value;
pub mod repair;
pub mod nested_repair;
pub mod coerce;
pub mod value_type;
pub mod schema;
pub mod try_value;
pub mod arrow_type;
pub mod column;
