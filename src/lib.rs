//! Time-tracking client core: identifiers, durations, calendar spans, the
//! reading of two backends' payloads into one model, the reconciliation
//! of time entries, and the freshness rules of the local cache.

pub mod cache;
pub mod config;
pub mod date;
pub mod error;
pub mod everhour;
pub mod ids;
pub mod minutes;
pub mod mite;
pub mod model;
pub mod query;
pub mod reconcile;
pub mod text;

pub use cache::{clear_cache, CachedClient};
pub use config::{default_cache_ttl, ClientType, Config, OutputFormat, Profile, ProjectsCmd, ServicesCommand};
pub use date::Date;
pub use error::AcariError;
pub use ids::{AccountId, CustomerId, Id, ProjectId, ServiceId, TimeEntryId, UserId};
pub use minutes::Minutes;
pub use model::{Account, Customer, Project, Service, TimeEntry, Timestamp, Tracker, User};
pub use query::{DateSpan, Day};
pub use reconcile::{SetCmd, StartCmd};
