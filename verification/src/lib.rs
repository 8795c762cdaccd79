//! Extraction and download planning for batch retrieval of attachments from
//! discussion-thread pages.
//!
//! The crate holds the decisions of the pipeline: which links of a page become
//! download targets and under which name each is stored, what a download
//! worker does next after every answer of the file system or the network, and
//! when the scheduler may return. Fetching, file access and threads are left
//! to the caller, which performs the actions these functions hand out.

pub mod args;
pub mod extract;
pub mod number;
pub mod path;
pub mod scheduler;
pub mod target;
pub mod text;
pub mod worker;
pub mod world;
