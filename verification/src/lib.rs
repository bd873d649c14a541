pub mod api;
pub mod env;
pub mod watcher;
pub mod store;
pub mod routing;
pub mod hostname;
pub mod lifecycle;
pub mod status;
