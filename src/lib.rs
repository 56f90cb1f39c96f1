//! Host information reports (CPU, memory, display adapters) computed from the
//! text of the kernel's information files and of a PCI listing.
use vstd::prelude::*;

pub mod text;
pub mod extract;
pub mod cpu;
pub mod ram;
pub mod gpu;
pub mod dispatch;

verus! {

/// Why a report could not be made.
#[derive(Clone, Debug, PartialEq, Eq)]
pub enum ReportError {
    /// A line that the report prints has no colon between label and value;
    /// the line is given.
    MalformedLine(String),
}

impl ReportError {
    /// The offending line.
    pub open spec fn line_view(&self) -> Seq<char> {
        match self {
            ReportError::MalformedLine(l) => l@,
        }
    }
}

} // verus!
