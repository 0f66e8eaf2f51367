pub mod config;

pub use config::Config;
pub use config::ConfigError;
pub use config::Documents;
pub use config::Models;
