//! A month-grid calendar: the days of a month partitioned into ISO weeks,
//! ordered into rows and rendered into cells, with every step proved against
//! a model of the proleptic Gregorian calendar.

pub mod gregorian;
pub mod date;
pub mod text;
pub mod grid;
pub mod order;
pub mod layout;
pub mod config;
pub mod view;
pub mod calendar;
mod chrono_calls;
mod itertools_calls;

pub use crate::calendar::Calendar;
pub use crate::config::CalendarConfig;
pub use crate::date::CalendarDate;
pub use crate::grid::{GridBuilder, WeekPartition};
pub use crate::order::Week;
pub use crate::view::{CalendarView, Cell, Header, WeekRow};
