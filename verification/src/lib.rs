//! Fediiverse bridge: the logic behind installing the OLV (Miiverse) patch,
//! scanning the setup QR code for the OAuth token, and saving the token
//! into OLV's local storage.
#![allow(unused_imports)]

pub mod app_state;
pub mod olv;
pub mod panic_hook;
pub mod qr;
pub mod qr_code;
pub mod ui;

pub use crate::app_state::AppState;
pub use crate::qr_code::{QrCode, QrCodeError};
