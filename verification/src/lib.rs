//! The request handlers of a newsletter service, as plain functions from decoded
//! input to a response value, with the decoding of the subscription form.
//!
//! Nothing here listens on a socket or speaks HTTP: a host runtime reads the
//! request, hands its decoded parts to these functions, and sends what they return.

pub mod form;
pub mod response;
pub mod routes;
