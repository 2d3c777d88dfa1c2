//! Price tags read from free text, and a cache of exchange rates.
pub mod amount;
pub mod currency;
pub mod words;
pub mod ranking;
pub mod price_in_text;
pub mod rate;
pub mod db;
pub mod table;
