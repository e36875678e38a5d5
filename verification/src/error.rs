//! Error types of every decoding and merging stage.
//!
//! Parsing functions of this crate work on complete in-memory buffers, so
//! the conditions that reach them are format faults and short buffers; the
//! variants that carry a `String` report faults of the surrounding file
//! handling, which the caller describes in words.

use vstd::prelude::*;

verus! {

/// A decoded sample failed its range check.
#[derive(Debug, Clone, PartialEq, Eq, Structural)]
pub enum GrawDataError {
    /// Chip id above 3.
    BadAgetID(u8),
    /// Channel above 67.
    BadChannel(u8),
    /// Time bucket above 511.
    BadTimeBucket(u16),
}

/// A frame buffer failed to parse.
#[derive(Debug, Clone, PartialEq, Eq, Structural)]
pub enum GrawFrameError {
    /// The buffer ended before the field being read.
    EndOfBuffer,
    /// Meta-type byte other than 8.
    IncorrectMetaType(u8),
    /// Declared size (in 256-byte units) and buffer length disagree.
    IncorrectFrameSize(u32, u32),
    /// Frame type other than partial (1) or full (2).
    IncorrectFrameType(u16),
    /// Declared header size other than one 256-byte unit.
    IncorrectHeaderSize(u16),
    /// Item size that does not match the frame type.
    IncorrectItemSize(u16),
    /// Declared frame size and the size computed from the item count
    /// disagree; carries the declared and the computed size.
    IncorrectNumberOfItems(u32, u32),
    /// A sample failed its range check in full mode.
    BadDatum(GrawDataError),
}

/// A frame file could not serve the next frame.
#[derive(Debug, Clone)]
pub enum GrawFileError {
    /// The bytes read did not form a frame.
    BadFrame(GrawFrameError),
    /// The file does not exist; carries the path.
    BadFilePath(String),
    /// The file ended; an expected control signal, not a fault.
    EndOfFile,
    /// The read itself failed; carries the description.
    IOError(String),
}

/// A per-board file stack could not advance.
#[derive(Debug, Clone)]
pub enum AsadStackError {
    /// Listing or reading the run directory failed; carries the description.
    IOError(String),
    /// The active file failed.
    FileError(GrawFileError),
    /// No file of the run matches this controller and board.
    NoMatchingFiles,
}

/// The pad map file failed to parse.
#[derive(Debug, Clone)]
pub enum PadMapError {
    /// Reading the file failed; carries the description.
    IOError(String),
    /// A field is not an unsigned decimal integer in range.
    ParsingError,
    /// A line has fewer than five comma-separated fields.
    BadFileFormat,
}

/// Assembling frames into an event failed.
#[derive(Debug, Clone, PartialEq, Eq, Structural)]
pub enum EventError {
    /// A hardware coordinate had no pad; carries controller, board, chip,
    /// channel.
    InvalidHardware(u8, u8, u8, u8),
    /// A frame's event id differs from the event's; carries the frame's and
    /// the event's id.
    MismatchedEventID(u32, u32),
}

/// The event builder was fed out of order.
#[derive(Debug, Clone, PartialEq, Eq, Structural)]
pub enum EventBuilderError {
    /// A frame's event id is below the id under assembly; carries the
    /// frame's and the builder's id.
    EventOutOfOrder(u32, u32),
    /// Assembly itself failed.
    EventError(EventError),
}

/// The merger could not be built or could not advance.
#[derive(Debug, Clone)]
pub enum MergerError {
    /// A file stack failed.
    AsadError(AsadStackError),
    /// No controller-board combination had any file.
    NoFilesError,
    /// A read failed; carries the description.
    IOError(String),
}

/// A ring item buffer failed to parse.
#[derive(Debug, Clone, PartialEq, Eq, Structural)]
pub enum EvtItemError {
    /// The buffer ended before the field being read.
    ItemSizeError,
    /// A physics item's module tags were not in the fixed stack order.
    StackOrderError,
    /// A begin-run title was not valid UTF-8 text.
    BadTitle,
}

/// An event file could not serve the next ring item.
#[derive(Debug, Clone)]
pub enum EvtFileError {
    /// The bytes read did not form a ring item.
    BadItem(EvtItemError),
    /// The file does not exist; carries the path.
    BadFilePath(String),
    /// The file ended.
    EndOfFile,
    /// The read itself failed; carries the description.
    IOError(String),
}

/// The auxiliary file stack could not advance.
#[derive(Debug, Clone)]
pub enum EvtStackError {
    /// Listing or reading the directory failed; carries the description.
    IOError(String),
    /// The active file failed.
    FileError(EvtFileError),
    /// No file of the run matches the auxiliary naming pattern.
    NoMatchingFiles,
}

/// The configuration was unusable.
#[derive(Debug, Clone)]
pub enum ConfigError {
    /// A configured path does not exist; carries the path.
    BadFilePath(String),
    /// Reading the configuration failed; carries the description.
    IOError(String),
    /// The configuration text failed to parse; carries the description.
    ParsingError(String),
}

} // verus!
