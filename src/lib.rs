//! A personal schedule book: entries with a subject and a half-open time
//! range, kept free of overlaps, with listing, adding and deleting.
pub mod calendar;
pub mod schedule;
pub mod stamp;

pub use calendar::{add_schedule, delete_schedule, AddError, Calendar};
pub use schedule::Schedule;
pub use stamp::Stamp;
