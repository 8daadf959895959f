//! Message types of the kind that the generator writes, kept here with the
//! proof that their encoders do what the encoder of a message has to do.

pub mod optional;
pub mod optional2;
