//! Guest-side boundary module: a host process and this guest exchange raw
//! address–length pairs. The arena tracks buffer ownership, the codec moves
//! strings and structured payloads across the boundary, the router answers
//! requests, and the ledger formatters build query and summary strings.

mod arena;
mod codec;
mod decimal;
mod http;
mod json;
mod query;
mod transactions;
mod utils;
mod text;

pub use arena::Arena;
pub use arena::BoundaryError;
pub use arena::MemoryBlock;
pub use codec::SCAN_LIMIT;
pub use codec::decode_string_len;
pub use codec::decode_string_nul;
pub use codec::encode_string;
pub use decimal::Decimal;
pub use decimal::add_decimals;
pub use decimal::format_decimal;
pub use decimal::parse_decimal;
pub use http::Request;
pub use http::Response;
pub use http::handle_request;
pub use http::decode_request;
pub use http::encode_response;
pub use http::handle_http_request;
pub use query::generate_balance_query;
pub use transactions::execute_credit_leg;
pub use transactions::execute_debit_leg;
pub use transactions::process_credit_result;
pub use utils::log;
