//! Reads the state of a word-tile board game from a grayscale screenshot.
//!
//! The crate locates the 15 x 15 board and the rack from the intensity
//! statistics of the screenshot, cuts both into cells of one common size and
//! classifies every cell by matching it against reference bitmaps.  All
//! measurements are exact integer arithmetic over summed-area tables.

pub mod error;
pub mod gray;
pub mod integral;
pub mod layout;
pub mod matching;
pub mod recognizer;
pub mod rect;
pub mod segment;
pub mod select;
pub mod stats;
pub mod text;

pub use error::Error;
pub use gray::GrayImage;
pub use integral::IntegralTable;
pub use layout::{variance, Layout, THRESHOLD};
pub use recognizer::{Board, Ocr, OcrResults, OcrStat};
pub use rect::Rect;
pub use segment::{close, Segment};
