//! Reports the billing cost of a period: computes the reporting date range,
//! parses a billing query response into typed cost records, and formats those
//! records into a notification message.

pub mod amount;
pub mod calendar;
pub mod cost_explorer;
pub mod cost_response_parser;
pub mod date_range;
pub mod error;
pub mod message_builder;
pub mod response;
pub mod test_utils;
pub mod text;
