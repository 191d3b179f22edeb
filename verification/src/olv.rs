//! Patching OLV (the Miiverse applet): its local storage and its patch downloads.
pub mod local_storage;
pub mod patch;
