//! httpstat: the decisions and text behind an HTTP timing report. The
//! transfer itself, floating-point timing arithmetic and JSON output are
//! left to the program around this library; it hands in plain values.

mod cli;
mod diagnostics;
mod model;
mod palette;
mod render;
mod response;
mod slo;
mod text;

pub use cli::{color_disabled, Cli, ColorMode, OutputFormat};
pub use diagnostics::{append_tls_warning, assemble_diagnostics, dominant_metric, DominantPhase};
pub use model::{
    request_summary, response_summary, Diagnostic, Exchange, RequestSummary, ResponseSummary,
};
pub use palette::Palette;
pub use render::{render_human, write_httpstat_timeline, PhaseMillis, ViolationRow};
pub use response::{parse_http_version, HeaderLog};
pub use slo::{parse_slo_term, violated_checks, MetricKey, SloTerm};

use vstd::prelude::*;

verus! {

/// Exit status of a run whose SLOs were violated.
pub const EXIT_SLO_VIOLATION: u8 = 4;

/// Version tag of the structured output schema.
pub const JSON_SCHEMA_VERSION: &'static str = "v1";

/// Exit status of a successful run: 0 when every SLO held, and
/// `EXIT_SLO_VIOLATION` when any was violated.
pub fn exit_status(violation_count: usize) -> (r: u8)
    ensures
        r == (if violation_count == 0 { 0u8 } else { EXIT_SLO_VIOLATION }),
{
    if violation_count == 0 {
        0
    } else {
        EXIT_SLO_VIOLATION
    }
}

}
