//! Decision logic of the `SzBot` maintenance bot.

pub mod api;
pub mod api_laws;
pub mod batch;
pub mod format;
pub mod json;
pub mod json_laws;
pub mod letters;
pub mod moment;
pub mod number;
pub mod number_laws;
pub mod request;
pub mod request_laws;
pub mod server;
pub mod service_laws;
pub mod tasks;
pub mod text;
pub mod text_laws;
pub mod titles;
