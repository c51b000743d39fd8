//! Local on-call roster planning: round-robin assignment over half-open UTC
//! intervals, conflict detection, and safe mutation (swap, split-and-cover).
//!
//! All instants are UTC, held as whole seconds since the Unix epoch; calendar
//! parsing and rendering go through `chrono` behind small trusted wrappers.

pub mod io;
pub mod model;
pub mod notification;
pub mod scheduler;
pub mod storage;
pub mod template;
pub mod timefmt;
pub mod timeline;

pub use model::{Person, PersonId, Role, Roster, Shift, ShiftId, VacationPeriod};
pub use notification::{prepare_reminder, Reminder, ReminderRenderer, TextReminder};
pub use scheduler::{AssignOptions, Conflict, ConflictKind, SchedError, Scheduler};
pub use storage::JsonStorage;
pub use template::{generate_roster, Rules, Slot, Template, TemplateStore};
pub use timeline::{whole_hours, whole_minutes};
