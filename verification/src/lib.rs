//! Over-the-air updates for a device with two update slots.
//!
//! An uploaded package is unpacked into a staging directory and checked against its
//! metadata (`package`, `digest`, `version`). Applying it copies it into the slot that
//! does not run and records a trial (`slot`, `state`); after the next boot the trial is
//! confirmed or dropped (`update`).
//!
//! The library decides and does not touch the device. An operation takes what was read
//! from the device as plain values and answers with a procedure; `procedure` and `copy`
//! say, one action at a time, how it is carried out. `effects` states what each operation
//! does to the device, `lifecycle` what holds of an update as a whole.

pub mod copy;
pub mod decimal;
pub mod digest;
pub mod effects;
pub mod lifecycle;
pub mod order;
pub mod package;
pub mod procedure;
pub mod slot;
pub mod state;
pub mod text;
pub mod update;
pub mod version;
