//! A client core for a streaming chat service.
//!
//! It assembles a message from an incrementally patched event stream,
//! continues the request when the server cuts a message short, and prepares
//! the proof-of-work token that each gated request carries.
use vstd::prelude::*;

pub mod decoder;
pub mod files;
pub mod frames;
pub mod json;
pub mod message;
pub mod patch;
pub mod session;
pub mod solver;

pub use decoder::FrameDecoder;
pub use files::{guess_mime, mime_for_extension, poll_step, PollStep};
pub use frames::{Fault, SseParser, StreamChunk};
pub use json::Json;
pub use message::{parse_i64, BuildError, Message};
pub use patch::{split_path, PatchError, StreamingMessageBuilder, StreamingUpdate};
pub use session::{Orchestrator, Phase, Request};
pub use solver::{
    proof_token, read_answer_bits, read_status, solve_prefix, Challenge, SolveAction, SolveEvent,
    SolveResponse, SolveSession, SolveState,
};

verus! {

} // verus!
