//! The verified core of a Model Context Protocol server.
//!
//! The library decides; the component around it does the I/O. [`server`] holds
//! the tools. `http_get`, the one that reaches out, rests on three modules:
//! [`guard`] refuses targets that are not to be fetched, [`fetch`] reads URLs and
//! responses, and [`body`] cuts long bodies. [`transport`] and [`telemetry`] turn
//! settings and headers into the configuration of the transport and of the logs.
//! [`ip`] and [`text`] are what the others are built on.
//!
//! What holds of the whole is stated in modules of its own: [`text_laws`] says it
//! of character codes and places, [`ip_laws`] and [`ip_forms`] of the notation of
//! IP addresses, [`ip_ranges`] of addresses as numbers, [`guard_laws`] of the
//! hosts that are refused, and [`fetch_laws`] of URLs and numeric settings.
//!
//! Settings come in as optional strings, one for each environment variable, with
//! `None` where the variable is unset.

pub mod body;
pub mod fetch;
pub mod fetch_laws;
pub mod guard;
pub mod guard_laws;
pub mod ip;
pub mod ip_forms;
pub mod ip_laws;
pub mod ip_ranges;
pub mod server;
pub mod telemetry;
pub mod text;
pub mod text_laws;
pub mod transport;
