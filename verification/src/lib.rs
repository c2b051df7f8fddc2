//! A multi-persona consensus service: a coordinator registers named
//! responders, dispatches a question to one of them, collects a vote from
//! every responder on the candidate answer, and either finalizes the answer
//! on unanimous acceptance or asks a dissenting responder to revise it,
//! bounded by a fixed round cap.

pub mod coordinator;
pub mod evaluation;
pub mod laws;
