//! A Diameter (RFC 6733) codec: AVPs and messages with a bit-exact wire form, and a
//! dictionary that gives AVP codes their semantic types when decoding.
pub mod avp;
pub mod dictionary;
pub mod errors;
pub mod laws;
pub mod message;
pub mod model;
pub mod values;
pub mod wire;
