//! Which detection mechanism of the producer yielded a record.

use vstd::prelude::*;

verus! {

/// The producer's hint on how it came to know of a process.
#[derive(Debug, Clone, Copy, PartialEq, Eq, Structural)]
pub enum CaptureSource {
    /// No mechanism recorded.
    Unset,
    /// The process-creation callback.
    CreateNotify,
    /// The image-load callback.
    ImageLoad,
    /// A later lookup of the image name.
    LocateFallback,
    /// A code this client does not know.
    Unknown,
}

/// The source that a wire code stands for: the four known codes, and
/// `Unknown` for every other.
pub open spec fn spec_capture_source(code: u32) -> CaptureSource {
    if code == 0 {
        CaptureSource::Unset
    } else if code == 1 {
        CaptureSource::CreateNotify
    } else if code == 2 {
        CaptureSource::ImageLoad
    } else if code == 3 {
        CaptureSource::LocateFallback
    } else {
        CaptureSource::Unknown
    }
}

/// The canonical wire code of a source; `Unknown` has 9999.
pub open spec fn spec_source_code(source: CaptureSource) -> u32 {
    match source {
        CaptureSource::Unset => 0,
        CaptureSource::CreateNotify => 1,
        CaptureSource::ImageLoad => 2,
        CaptureSource::LocateFallback => 3,
        CaptureSource::Unknown => 9999,
    }
}

impl From<u32> for CaptureSource {
    fn from(value: u32) -> (source: CaptureSource) {
        match value {
            0 => CaptureSource::Unset,
            1 => CaptureSource::CreateNotify,
            2 => CaptureSource::ImageLoad,
            3 => CaptureSource::LocateFallback,
            _ => CaptureSource::Unknown,
        }
    }
}

impl vstd::std_specs::convert::FromSpecImpl<u32> for CaptureSource {
    open spec fn obeys_from_spec() -> bool {
        true
    }

    open spec fn from_spec(value: u32) -> CaptureSource {
        spec_capture_source(value)
    }
}

impl CaptureSource {
    /// The canonical wire code of this source.
    pub fn code(&self) -> (code: u32)
        ensures
            code == spec_source_code(*self),
    {
        match self {
            CaptureSource::Unset => 0,
            CaptureSource::CreateNotify => 1,
            CaptureSource::ImageLoad => 2,
            CaptureSource::LocateFallback => 3,
            CaptureSource::Unknown => 9999,
        }
    }

    /// Whether the producer named a mechanism that this client knows.
    pub fn is_known(&self) -> (known: bool)
        ensures
            known == (*self != CaptureSource::Unknown),
    {
        !matches!(self, CaptureSource::Unknown)
    }
}

/// Decoding a source's canonical code gives the source back, and a code
/// outside the four known ones always gives `Unknown`.
pub proof fn lemma_source_code_round_trip(source: CaptureSource, code: u32)
    ensures
        spec_capture_source(spec_source_code(source)) == source,
        code > 3 ==> spec_capture_source(code) == CaptureSource::Unknown,
{
}

} // verus!
