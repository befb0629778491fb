//! Raw sectors of a data track.
pub mod ecc;
pub mod image;
pub mod image_bytes_laws;
pub mod msf;
pub mod rebuild_laws;
pub mod sector;
pub mod sector_bytes_laws;
pub mod sector_laws;

use vstd::prelude::*;

verus! {

/// The size of a raw sector.
pub const RAW_SECTOR_SIZE: usize = 2352;

/// The size of a logical block.
pub const LOGICAL_BLOCK_SIZE: usize = 2048;

/// The size of the data area of a Mode 2 sector.
pub const MODE2_DATA_SIZE: usize = 2336;

/// The user data of one logical block.
pub type Block = [u8; LOGICAL_BLOCK_SIZE];

} // verus!
