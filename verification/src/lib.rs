//! Verified core of a periodic recap pipeline.
//!
//! On each cycle the scheduler resolves a watermark (the timestamp of the
//! most recent digest), selects the summaries still pending at or after that
//! watermark, condenses their text into one input for an external
//! summarization service, persists the resulting digest together with the
//! set of summary ids it covers, and finally announces the digest through a
//! webhook payload. Everything that decides or computes lives here with a
//! contract; the driver that performs the actual database queries, the
//! summarization call and the HTTP post stays outside the verified core.

pub mod records;
pub mod pending;
pub mod plan;
pub mod notify;
pub mod store;
pub mod cycle;
pub mod coverage;
