pub mod error;
pub mod hex;
pub mod text;
pub mod protocol;
pub mod util;
pub mod devices;
pub mod server;
