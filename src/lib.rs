//! A reader of RIFF/WAVE audio files: it walks the chunked header, checks
//! the declared format, and decodes the data chunk frame by frame, lazily,
//! from a byte buffer that the opened file owns.
pub mod bytes;
pub mod error;
pub mod formats;
pub mod frames;
pub mod header;
pub mod speakers;
pub mod wavefile;

pub use error::{Fault, WaveError};
pub use formats::Format;
pub use frames::{Frame, Sample};
pub use header::WaveInfo;
pub use speakers::SpeakerPosition;
pub use wavefile::{WaveFile, WaveFileIterator};
