//! Validity windows of medical procedure codes within a hospital case.
//!
//! A procedure counts towards a score for a number of days after it was
//! performed. Procedures of one validity set must not count at the same time:
//! the window of an earlier procedure is shortened so that it ends where the
//! window of the next one begins, and no window reaches past the discharge.
#![allow(non_snake_case)]
#![allow(non_camel_case_types)]

pub mod ablauf;
pub mod anpassung;
pub mod gesetze;
pub mod katalog;
pub mod modell;
pub mod ordnung;
pub mod zeit;
