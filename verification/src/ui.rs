//! The screens of the setup application.
pub mod scan;
