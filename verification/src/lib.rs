pub mod config;
pub mod controller;
pub mod error;
pub mod order;
pub mod pool;
pub mod session;
pub mod strings;
pub mod utils;
pub mod watcher;

pub use config::Config;
pub use error::CustomError;
pub use order::Order;
pub use pool::Pool;
pub use utils::FtpDirEntry;
pub use watcher::Watcher;
