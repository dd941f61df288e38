//! Feed synchronization core: fetch-result merging, entry extraction with
//! stable identities, timestamp normalization, and a deduplicating store
//! with read/unread tracking.

pub mod db;
pub mod feed;
pub mod timefmt;
