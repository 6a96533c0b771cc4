//! Resumable crawl of a code forge's repository listing: a cursor walk over
//! numeric ids, a buffer of candidates flushed in bounded batches, and the
//! language filter that decides which hydrated repositories are stored.
pub mod crawl;
pub mod filter;
pub mod model;

pub use crawl::{Crawl, CrawlView, DEFAULT_PAGE_SIZE, MAX_BATCH};
pub use filter::{count_matches, matching_records, stored_result};
pub use model::{HydratedRecord, Language, StoredResult, Summary};
