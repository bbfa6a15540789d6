//! Searching the work folder without stopping the editor.
//!
//! A search of the document in front costs nothing, for its text is at hand. A
//! search of every file under the work folder costs what the folder says, so it
//! goes on elsewhere: what is here decides which files are read, when the search
//! ends, and which question is answered next.
pub mod exclusions;
pub mod hits;
pub mod laws;
pub mod queue;
pub mod run;

pub use exclusions::{exclusion_patterns, is_excluded, Exclusion};
pub use queue::{Heard, JobQueue};
pub use run::{
    hits_in, FileHits, Hit, NeverSuperseded, Search, SearchJob, SearchOutcome, SearchStep,
    Superseded,
};
