//! Watches retail fuel prices and words the notification about them.
pub mod clock;
pub mod config;
pub mod effective;
pub mod feed;
pub mod line;
pub mod message;
pub mod numeral;
pub mod price;
pub mod rounding;
pub mod snapshot;
pub mod text;
pub mod tick;
