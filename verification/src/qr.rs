//! The camera and QR code scanning.
pub mod camera;
pub mod frame;
pub mod scanner;
pub mod scan;
