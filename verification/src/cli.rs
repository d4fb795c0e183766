use vstd::prelude::*;

verus! {

/// The resize filter chosen on the command line. Resizing itself is done
/// by the image-loading collaborator; this enum only records the choice.
#[derive(Clone, Copy, Debug, PartialEq, Eq, Structural)]
pub enum ResizeFilter {
    Nearest,
    Triangle,
    CatmullRom,
    Gaussian,
    Lanczos3,
}

impl Default for ResizeFilter {
    /// The default filter used when none is chosen.
    fn default() -> (r: ResizeFilter)
        ensures
            r == ResizeFilter::Lanczos3,
    {
        ResizeFilter::Lanczos3
    }
}

/// The parsed command line: the input image, an optional output file (the
/// standard output otherwise), an optional forced width, and the resize
/// filter.
#[derive(Debug)]
pub struct Cli {
    pub filename: String,
    pub output: Option<String>,
    pub width: Option<u32>,
    pub filter: ResizeFilter,
}

} // verus!
