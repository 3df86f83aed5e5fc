pub mod content_id;
pub mod error;
pub mod header;
pub mod ipld;
pub mod pb;
pub mod reader;
pub mod section;
pub mod unixfs;
pub mod unixfs_codec;
pub mod utils;
pub mod varint;

pub use content_id::Cid;
pub use error::CarError;
pub use header::CarHeader;
pub use ipld::Ipld;
pub use reader::{new_v1, CarReader};
pub use section::{read_block, read_section, Section};
pub use unixfs::{FileType, Link, UnixFs, UnixTime};
