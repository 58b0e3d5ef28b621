pub mod date;
pub mod month;
pub mod parsing;
pub mod period;

pub use date::Date;
pub use month::Month;
pub use parsing::{DateOptTime, DateTime, Time};
pub use period::Period;
