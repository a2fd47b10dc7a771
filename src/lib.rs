//! Transport and test-execution engine for CAN bus diagnostics.
//!
//! The library holds the logic that can be stated and proved on plain values:
//! bus addresses and raw frames, ISO-TP segmentation and reassembly, the
//! request/response token grammar, the request builder and response matcher,
//! the per-sequence state machine and the walk over a test-suite document.
//! Sockets, files, the signing tool and the document parser stay with the
//! caller, which hands results back as plain values.

pub mod bindings;
pub mod builder;
pub mod can;
pub mod codec;
pub mod command;
pub mod error;
pub mod grammar;
pub mod matcher;
pub mod runner;
pub mod suite;
pub mod text;

pub use bindings::Bindings;
pub use builder::{build_request, external_requests, ExternalOp};
pub use can::{
    receive_isotp_frame, CANFrame, CANSocket, ExtendedId, FlowControlOptions, Id, IsoTpSocket,
    StandardId, EXTENDED_ID_MAX, STANDARD_ID_MAX,
};
pub use codec::{reassemble, segment, MAX_PAYLOAD};
pub use error::Error;
pub use grammar::{
    parse_request_token, parse_request_tokens, parse_response_token, parse_response_tokens,
    RequestToken, ResponseToken,
};
pub use matcher::{is_response_pending, match_response};
pub use runner::{Action, Event, Phase, SequenceRunner, SequenceState, Step};
pub use suite::{parse_id, plan_suite, Addressing, JsonNode, SequencePlan, SuiteItem};
