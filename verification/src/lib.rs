//! The core of a shared drawing surface.
//!
//! The parts, leaves first:
//!
//! * [`line`]: strokes, and how a raw stroke is reduced to the vertices that
//!   a polyline simplification decided to keep;
//! * [`color`]: colours as the wire writes them, read and written;
//! * [`ws_client`]: the per-connection session, which gathers the stroke in
//!   progress and turns client messages into hub requests, and hub
//!   notifications into client messages;
//! * [`gen_server`]: the hub, the single owner of the stroke history and of
//!   the client registry, written as a transition function from state and
//!   request to next state and the sends that the caller has to perform;
//! * [`rounds`]: what holds of every run of the hub.
//!
//! Nothing here performs I/O or measures geometry. The caller owns the
//! channels and the transport, and does the floating-point work; it hands
//! in plain values and carries out the actions it is handed back.

pub mod color;
pub mod gen_server;
pub mod line;
pub mod rounds;
pub mod ws_client;
