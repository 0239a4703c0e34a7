//! CISO (compressed ISO) disc images: the container's byte layout, a compressor that
//! stores each 2 KiB block either raw or raw-deflated, the matching decompressor and
//! an integrity checker.
//!
//! The library works on bytes in memory and is verified with Verus: each function has
//! a contract over byte sequences that says exactly what it returns.  Taken on trust
//! are only the calls into `flate2` (module `codec`), `num_cpus` (module `pipeline`)
//! and `std::path` (module `args`).
//!
//! - `ciso_header`, `layout`, `bytes`: the header, the index table, little-endian words;
//! - `compress`, `serializer`, `queue`, `pipeline`: the compressor and the parts of its
//!   parallel pipeline;
//! - `decompress`, `check`: the decompressor and the integrity checker;
//! - `produced`, `guarantees`, `arrival_order`: what is proved of the files that the
//!   compressor produces;
//! - `args`: the command line.

pub mod args;
pub mod arrival_order;
pub mod bytes;
pub mod check;
pub mod ciso_header;
pub mod codec;
pub mod compress;
pub mod decompress;
pub mod guarantees;
pub mod layout;
pub mod pipeline;
pub mod produced;
pub mod queue;
pub mod serializer;

pub use check::{check_ciso, IntegrityError};
pub use ciso_header::{CisoHeader, HeaderError};
pub use compress::{compress_ciso, CompressError};
pub use decompress::{decompress_ciso, DecompressError};
