//! Token accounting for Codex CLI sessions.
//!
//! Session files are read into usage entries, one for each turn (`rollout`, `session`), which
//! are kept in a table (`rows`, `schema`, `sync`) and reported on by day and by month
//! (`daily`, `monthly`); prices are in `pricing`. The conversation of a session is rebuilt in
//! `timeline`.

pub mod conversation_laws;
pub mod daily;
pub mod daily_laws;
pub mod entry;
pub mod json;
pub mod monthly;
pub mod monthly_laws;
pub mod order;
pub mod pricing;
pub mod pricing_laws;
pub mod report_laws;
pub mod rollout;
pub mod row_laws;
pub mod rows;
pub mod schema;
pub mod schema_laws;
pub mod session;
pub mod session_laws;
pub mod setup;
pub mod sync;
pub mod sync_laws;
pub mod text;
pub mod text_laws;
pub mod timeline;
pub mod timeline_laws;
pub mod totals;
pub mod turns;
pub mod whole;
