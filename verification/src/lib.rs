//! Nearest-satellite ranking over a catalog of mean orbital elements.
//!
//! The crate turns OMM-style catalog records into normalized [`elements::OrbitalElements`],
//! gates them against the near-Earth (SGP4) domain, propagates them through the
//! `sgp4` crate to a TEME state at a requested UTC instant, and ranks the
//! resulting geodetic positions against a ground observer by a distance metric.
//!
//! Floating-point values cannot appear in verified code, so every `f64` that
//! crosses the crate boundary is carried as its IEEE-754 bit pattern in a
//! `u64`, and the catalog fields are additionally modelled as fixed-point
//! integers (nano-units) on which the domain checks are verified exactly.
//! The frame conversions that are pure floating-point arithmetic (TEME to
//! ECEF rotation, the geodetic solve, the haversine formula) live with the
//! caller; the decisions around them — decoding, validation, deep-space
//! rejection, failure isolation and the final deterministic ordering — are
//! verified here.

pub mod bits;
pub mod decode;
pub mod elements;
pub mod errors;
pub mod propagate;
pub mod rank;
pub mod timebase;
