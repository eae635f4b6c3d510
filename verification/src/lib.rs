//! Decoders for fleet telemetry: frame streams, session tapes, route
//! manifests, alert programs and the archives that bundle them, each with a
//! contract over the values it decodes.
use vstd::prelude::*;

pub mod error;
pub mod strings;
pub mod text;
pub mod checksum;
pub mod reader;
pub mod catalog;
pub mod model;
pub mod frame;
pub mod fields;
pub mod route;
pub mod alert;
pub mod session;
pub mod archive;
pub mod laws;

pub use alert::{parse_alert_program, AlertProgram};
pub use archive::{decode_archive, decode_any, FleetDocument};
pub use error::{Diagnostics, IronfleetError, Result, Severity};
pub use frame::{decode_frame_stream, Frame, FrameKind};
pub use route::{parse_route_manifest, RouteBook};
pub use session::{replay_session_tape, SessionReport};

use crate::archive::spec_decode_any;
use crate::error::ErrorView;

verus! {

/// The diagnostics of any input: those of its report, or the one error that
/// stopped decoding.
pub open spec fn spec_analyze(data: Seq<u8>) -> Seq<ErrorView> {
    match spec_decode_any(data) {
        Ok(r) => r.diagnostics,
        Err(e) => seq![e],
    }
}

/// Decodes `data` whatever its format and collects what went wrong.
pub fn analyze_bytes(data: &[u8]) -> (r: Diagnostics)
    ensures
        r@ == spec_analyze(data@),
{
    let mut diagnostics = Diagnostics::new();
    match decode_any(data) {
        Ok(report) => {
            diagnostics.extend(report.diagnostics);
            assert(diagnostics@ =~= report@.diagnostics);
        },
        Err(err) => {
            diagnostics.push(err);
            assert(diagnostics@ =~= seq![err@]);
        },
    }
    diagnostics
}

} // verus!
