//! Kalendar: the verified core of a keyboard-first terminal calendar.
//!
//! The library holds the calendar's data model, the in-memory demo store, the interface state
//! and its transitions, the week-view layout, the reading of event descriptions and the
//! parsing of the command line. Work that needs a calendar backend, the terminal or the file
//! system is handed back to the caller as plain values.
pub mod app;
pub mod bridge;
pub mod cli;
pub mod config;
pub mod date;
pub mod event_details;
pub mod format;
pub mod geometry;
pub mod keys;
pub mod mock;
pub mod model;
pub mod reducer;
pub mod screen;
pub mod text;
pub mod time;

pub use app::{App, EditorField, EventEditor, Mode, SaveRequest, SearchState, View};
pub use config::{Config, ThemeConfig};
pub use date::{month_grid_start, range_for_month, range_for_week, week_start, Day};
pub use geometry::{layout_day, EventLayout};
pub use mock::MockBackend;
pub use model::{
    Availability, Calendar, CalendarId, CalendarSource, DateRange, DeleteScope, Event, EventId,
    EventPatch, NewEvent, PermissionStatus, Recurrence, RecurrenceScope, RgbColor,
};
pub use time::{local_at, Moment};
