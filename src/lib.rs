//! Read-only access to the central directory of a ZIP container.
pub mod pkzip;
