//! Fixed parameters of the GET electronics and of the frame format.

use vstd::prelude::*;

verus! {

/// Value the meta-type byte of every frame header must carry.
pub const EXPECTED_META_TYPE: u8 = 8;

/// Declared header size of every frame, in 256-byte units.
pub const EXPECTED_HEADER_SIZE: u16 = 1;

/// Size of one item in a partial-mode frame, in bytes.
pub const EXPECTED_ITEM_SIZE_PARTIAL: u16 = 4;

/// Size of one item in a full-mode frame, in bytes.
pub const EXPECTED_ITEM_SIZE_FULL: u16 = 2;

/// Frame-type tag of a partial-mode frame.
pub const EXPECTED_FRAME_TYPE_PARTIAL: u16 = 1;

/// Frame-type tag of a full-mode frame.
pub const EXPECTED_FRAME_TYPE_FULL: u16 = 2;

/// Frames are sized and chunked in units of 256 bytes.
pub const SIZE_UNIT: u32 = 256;

/// Total number of CoBo controllers.
pub const NUMBER_OF_COBOS: u8 = 11;

/// The one controller whose clock is synchronized with the auxiliary DAQ.
pub const COBO_WITH_TIMESTAMP: u8 = 10;

/// AsAd boards per controller.
pub const NUMBER_OF_ASADS: u8 = 4;

/// AGET chips per board; a chip id ranges over `0..=3`.
pub const NUMBER_OF_AGETS: u8 = 4;

/// Channels per chip; a channel ranges over `0..=67`.
pub const NUMBER_OF_CHANNELS: u8 = 68;

/// Samples along one waveform; a time bucket ranges over `0..=511`.
pub const NUMBER_OF_TIME_BUCKETS: u32 = 512;

/// Columns of the per-event output matrix: five coordinates, then one
/// amplitude per time bucket.
pub const NUMBER_OF_MATRIX_COLUMNS: usize = 517;

} // verus!
