pub mod kirk_engine;
pub mod kirk_headers;
