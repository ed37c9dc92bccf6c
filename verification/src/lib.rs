//! Verified core of a small HTTP/FTP download helper with a progress bar:
//! file-name selection, header handling, the resume state file, the
//! progress-event decisions and the download button's state machine.

pub mod bytes;
pub mod decimal;
pub mod header;
pub mod percent;
pub mod location;
pub mod filename;
pub mod state_file;
pub mod events;
pub mod progress_bar;
pub mod download;

pub use download::{http_config, state_file_path, DownloadConfig};
pub use events::{DefaultEventsHandler, HeadersReport, LengthReport, ProgressReport, ChunkReport};
pub use filename::{gen_filename, content_disposition_filename};
pub use header::{prep_headers, RequestHeaders, ResponseHeaders, HeaderError};
pub use location::{DownloadUrl, Protocol, select_protocol};
pub use percent::{decode_percent_encoded_data, DecodeError};
pub use progress_bar::{ClickAction, DownloadProgressBar, DownloadStatus};
pub use state_file::{bytes_on_disk, format_state_line, sum_state_file, StateFileError};
