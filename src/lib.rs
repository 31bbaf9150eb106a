//! Keeps several versions of installed command-line tools side by side in a
//! registry directory, and switches which version's executables are active by
//! pointing links at them.

pub mod error;
pub mod links;
pub mod listing;
pub mod locator;
pub mod path;
pub mod specifier;
pub mod switcher;
