use vstd::prelude::*;

verus! {

/// A decimal digit run did not fit into the integer width it was destined
/// for (`u32` for coordinates and canvas sizes, `u8` for color channels).
#[derive(Clone, Copy, Debug, PartialEq, Eq, Structural)]
pub struct NumberOverflow;

/// What the grammar expected at the position where matching stopped.
#[derive(Clone, Copy, Debug, PartialEq, Eq, Structural)]
pub enum Expected {
    /// `width`, one or more spaces, and a digit run.
    WidthHeader,
    /// `height`, one or more spaces, and a digit run.
    HeightHeader,
    /// `background`, one or more spaces.
    BackgroundHeader,
    /// A bracketed list of digit runs, `[` .. `]`.
    Color,
    /// A single newline.
    Newline,
    /// A `pixel` or `rect` command.
    Command,
    /// Nothing further: trailing text after the command list.
    EndOfInput,
}

/// Why rasterization stopped.
#[derive(Clone, Copy, Debug, PartialEq, Eq, Structural)]
pub enum DrawingError {
    /// A command referenced the point `(x, y)`, which lies outside the canvas.
    OutOfBounds { x: u32, y: u32 },
    /// No pixel buffer exists for this canvas size: a dimension is zero or
    /// `width * height` does not fit in `u32`.
    Canvas { width: u32, height: u32 },
}

/// A failure of the syntactic layer: either the grammar could not be matched,
/// or a color array resolved to a length other than 3 or 4.
#[derive(Clone, Debug, PartialEq, Eq)]
pub enum ParseFailure {
    /// The grammar could not be matched: at byte offset `position`,
    /// `expected` was looked for and not found.
    Syntax { position: usize, expected: Expected },
    /// A color array whose resolved length is neither 3 nor 4,
    /// carried here together with its elements.
    ColorLength { values: Vec<Result<u8, NumberOverflow>> },
}

/// The error taxonomy of the pipeline.
#[derive(Clone, Debug, PartialEq, Eq)]
pub enum CustomError {
    /// The source file was missing or unreadable. Raised only by callers
    /// that do input; no function of this crate constructs it.
    FileNotFound(String),
    /// A structural mismatch against the grammar, or a malformed color array.
    Parsing(ParseFailure),
    /// Rasterization referenced a point outside the buffer, or the buffer
    /// itself could not be made.
    Drawing(DrawingError),
    /// A digit run could not be converted to its target integer width.
    ParseNumberValue(NumberOverflow),
}

pub type CustomResult<T> = Result<T, CustomError>;

/// The mathematical content of a `ParseFailure`.
pub enum SpecParseFailure {
    Syntax { position: int, expected: Expected },
    ColorLength { values: Seq<Result<u8, NumberOverflow>> },
}

/// The mathematical content of a `CustomError`.
pub enum SpecError {
    FileNotFound(Seq<char>),
    Parsing(SpecParseFailure),
    Drawing(DrawingError),
    ParseNumberValue(NumberOverflow),
}

impl SpecError {
    /// A grammar mismatch, as opposed to a malformed color array.
    pub open spec fn is_syntax(self) -> bool {
        match self {
            SpecError::Parsing(SpecParseFailure::Syntax { position: _, expected: _ }) => true,
            _ => false,
        }
    }
}

impl View for ParseFailure {
    type V = SpecParseFailure;

    open spec fn view(&self) -> SpecParseFailure {
        match self {
            ParseFailure::Syntax { position, expected } => SpecParseFailure::Syntax {
                position: *position as int,
                expected: *expected,
            },
            ParseFailure::ColorLength { values } => SpecParseFailure::ColorLength {
                values: values@,
            },
        }
    }
}

impl View for CustomError {
    type V = SpecError;

    open spec fn view(&self) -> SpecError {
        match self {
            CustomError::FileNotFound(s) => SpecError::FileNotFound(s@),
            CustomError::Parsing(p) => SpecError::Parsing(p@),
            CustomError::Drawing(d) => SpecError::Drawing(*d),
            CustomError::ParseNumberValue(n) => SpecError::ParseNumberValue(*n),
        }
    }
}

} // verus!
