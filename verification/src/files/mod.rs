//! Which files a promotion considers.
pub mod discovery;
pub mod selector;
