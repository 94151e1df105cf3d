//! Submission acceptance and ranking for a code-golf platform.
//!
//! A user submits source code for a challenge in a language. When the judge
//! accepts it, the code is scored by its length in bytes and may replace the
//! user's stored solution. The stored solutions that still pass form the
//! leaderboard of a challenge and language.
//!
//! - [`score`]: the scoring metric.
//! - [`decision`]: what a judged submission does to the stored record.
//! - [`ranking`]: the leaderboard made from stored records.
//! - [`store`]: the records, one for each user, challenge and language.
//! - [`solution`]: the pages of a challenge, for reading and for posting.
//! - [`redirect`], [`language`]: where a request is sent on to, and the
//!   languages on offer.
//! - [`record`], [`error`], [`text`]: the data, the errors, and text helpers.

mod clock;
pub mod decision;
pub mod error;
pub mod language;
pub mod ranking;
pub mod record;
pub mod redirect;
pub mod score;
pub mod solution;
pub mod store;
pub mod text;
