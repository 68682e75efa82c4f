//! Terminal dashboard core for a small log of infant care events.

pub mod date;
pub mod models;
pub mod stats;
pub mod terminal;

pub use models::create_event_at;
pub use stats::calculate_daily_poopy_diapers;
pub use stats::calculate_daily_pumped;
pub use stats::calculate_daily_volume;
pub use stats::calculate_daily_wet_diapers;
pub use stats::calculate_monthly_pumped;
pub use stats::calculate_monthly_volume;
pub use stats::calculate_weekly_poopy_diapers;
pub use stats::calculate_weekly_pumped;
pub use stats::calculate_weekly_volume;
pub use stats::calculate_weekly_wet_diapers;
