//! Request-orchestration core for serving a fastText text-classification
//! model over a network API.
//!
//! This crate holds the verified logic of the server: normalizing raw text
//! into the form the model's tokenizer expects, stripping the model's
//! internal label prefix from results, flooring the requested top-K,
//! deciding how a batch is dispatched across a bounded worker pool,
//! accumulating the results of a client-streaming session, framing a batch
//! response as bytes, and resolving the configured bind address.
//!
//! The model itself, and every float-valued or I/O-bound edge (the model
//! invocation, the HTTP and RPC transports, the command line), live outside
//! this crate. Confidence scores cross the boundary as the 32-bit IEEE-754
//! bit patterns of the model's `f32` scores, so the verified code carries
//! them exactly, with no loss of precision.

pub mod address;
pub mod batch;
pub mod codec;
pub mod limits;
pub mod options;
pub mod predict;
pub mod session;
pub mod text;

pub use options::PredictOptions;
pub use predict::Prediction;
