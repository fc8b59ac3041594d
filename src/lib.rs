pub mod compose;
pub mod error;
pub mod extract;
pub mod header;
pub mod layout;

pub use compose::compose_tau_image;
pub use error::{bail, BuildError, ComposeError, ElfError, GitCloneError};
pub use extract::{elf_to_raw, place_segments, Segment};
pub use header::{calc_spl_header, encode_spl_header, SplError};
pub use layout::{format_writes, platform_partitions, update_writes, DeviceWrite, PartitionEntry};
