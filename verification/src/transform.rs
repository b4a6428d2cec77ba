//! The validator: raw document in, typed document out.
//!
//! Every deferred numeric token is resolved here, short-circuiting at the
//! first failure in document order: width, then height, then background
//! color, then the commands in list order; within a command the color
//! before the coordinates, and within a coordinate pair the first
//! component before the second. A color array resolves to a pixel only if
//! it has 3 values `[r,g,b]` (alpha defaulting to fully opaque) or 4
//! values `[a,r,g,b]`; any other length is a malformed-color error.

use vstd::prelude::*;

use crate::error::CustomError;
use crate::error::CustomResult;
use crate::error::NumberOverflow;
use crate::error::ParseFailure;
use crate::error::SpecError;
use crate::error::SpecParseFailure;
use crate::read::cmds_view;
use crate::read::RawCommand;
use crate::read::SpecRawCommand;
use crate::Command;
use crate::CustomImage;
use crate::ImageFill;
use crate::Pixel;
use crate::SpecImage;

verus! {

/// The default alpha channel: fully opaque.
pub const ALPHA_DEFAULT: u8 = 255;

// ---------------------------------------------------------------------
// The resolution pass, denotationally.
// ---------------------------------------------------------------------

/// What a color array resolves to. Length 3 is `[r,g,b]` with alpha
/// defaulting to 255; length 4 is `[a,r,g,b]`; anything else is a
/// malformed-color error carrying the offending array. Elements are
/// checked in the order they are stored, and the first overflowed one
/// yields a numeric-range error.
pub open spec fn spec_transform_pixel(raw: Seq<Result<u8, NumberOverflow>>) -> Result<
    Pixel,
    SpecError,
> {
    if raw.len() != 3 && raw.len() != 4 {
        Err(SpecError::Parsing(SpecParseFailure::ColorLength { values: raw }))
    } else if raw.len() == 3 {
        match raw[0] {
            Err(e) => Err(SpecError::ParseNumberValue(e)),
            Ok(r) => match raw[1] {
                Err(e) => Err(SpecError::ParseNumberValue(e)),
                Ok(g) => match raw[2] {
                    Err(e) => Err(SpecError::ParseNumberValue(e)),
                    Ok(b) => Ok(Pixel { r, g, b, a: ALPHA_DEFAULT }),
                },
            },
        }
    } else {
        match raw[0] {
            Err(e) => Err(SpecError::ParseNumberValue(e)),
            Ok(a) => match raw[1] {
                Err(e) => Err(SpecError::ParseNumberValue(e)),
                Ok(r) => match raw[2] {
                    Err(e) => Err(SpecError::ParseNumberValue(e)),
                    Ok(g) => match raw[3] {
                        Err(e) => Err(SpecError::ParseNumberValue(e)),
                        Ok(b) => Ok(Pixel { r, g, b, a }),
                    },
                },
            },
        }
    }
}

/// What a coordinate pair resolves to: its two components, the first one
/// checked before the second.
pub open spec fn spec_transform_coordinate(
    raw: (Result<u32, NumberOverflow>, Result<u32, NumberOverflow>),
) -> Result<(u32, u32), SpecError> {
    match raw.0 {
        Err(e) => Err(SpecError::ParseNumberValue(e)),
        Ok(x) => match raw.1 {
            Err(e) => Err(SpecError::ParseNumberValue(e)),
            Ok(y) => Ok((x, y)),
        },
    }
}

/// What one raw command resolves to: its color first, then its
/// coordinates in stored order.
pub open spec fn spec_transform_command(c: SpecRawCommand) -> Result<Command, SpecError> {
    match c {
        SpecRawCommand::DrawPixel { position, color } => match spec_transform_pixel(color) {
            Err(e) => Err(e),
            Ok(px) => match spec_transform_coordinate(position) {
                Err(e) => Err(e),
                Ok(pos) => Ok(Command::DrawPixel { position: pos, color: px }),
            },
        },
        SpecRawCommand::DrawRect { corner_position_1, corner_position_2, color } => {
            match spec_transform_pixel(color) {
                Err(e) => Err(e),
                Ok(px) => match spec_transform_coordinate(corner_position_1) {
                    Err(e) => Err(e),
                    Ok(c1) => match spec_transform_coordinate(corner_position_2) {
                        Err(e) => Err(e),
                        Ok(c2) => Ok(
                            Command::DrawRect {
                                corner_position_1: c1,
                                corner_position_2: c2,
                                color: px,
                            },
                        ),
                    },
                },
            }
        },
    }
}

/// What the command list resolves to from index `k` on, in list order,
/// stopping at the first failure.
pub open spec fn spec_transform_commands_from(cs: Seq<SpecRawCommand>, k: int) -> Result<
    Seq<Command>,
    SpecError,
>
    decreases cs.len() - k,
{
    if k < 0 || k >= cs.len() {
        Ok(Seq::empty())
    } else {
        match spec_transform_command(cs[k]) {
            Err(e) => Err(e),
            Ok(c) => match spec_transform_commands_from(cs, k + 1) {
                Err(e) => Err(e),
                Ok(rest) => Ok(seq![c] + rest),
            },
        }
    }
}

/// What the whole command list resolves to.
pub open spec fn spec_transform_commands(cs: Seq<SpecRawCommand>) -> Result<
    Seq<Command>,
    SpecError,
> {
    spec_transform_commands_from(cs, 0)
}

/// What a whole raw document resolves to, in document order: width, then
/// height, then background color, then the commands.
pub open spec fn spec_transform(
    raw_width: Result<u32, NumberOverflow>,
    raw_height: Result<u32, NumberOverflow>,
    raw_background: Seq<Result<u8, NumberOverflow>>,
    raw_commands: Seq<SpecRawCommand>,
) -> Result<SpecImage, SpecError> {
    match raw_width {
        Err(e) => Err(SpecError::ParseNumberValue(e)),
        Ok(width) => match raw_height {
            Err(e) => Err(SpecError::ParseNumberValue(e)),
            Ok(height) => match spec_transform_pixel(raw_background) {
                Err(e) => Err(e),
                Ok(background) => match spec_transform_commands(raw_commands) {
                    Err(e) => Err(e),
                    Ok(commands) => Ok(SpecImage { width, height, background, commands }),
                },
            },
        },
    }
}

// ---------------------------------------------------------------------
// Laws of the resolution pass.
// ---------------------------------------------------------------------

/// A well-formed color array of length 3 resolves with a fully opaque
/// alpha channel.
pub proof fn lemma_color3_alpha_opaque(raw: Seq<Result<u8, NumberOverflow>>)
    requires
        raw.len() == 3,
        spec_transform_pixel(raw) is Ok,
    ensures
        spec_transform_pixel(raw)->Ok_0.a == ALPHA_DEFAULT,
{
}

/// A color array `[r,g,b]` resolves to exactly that pixel, alpha opaque.
pub proof fn lemma_color3_exact(r: u8, g: u8, b: u8)
    ensures
        spec_transform_pixel(
            seq![Ok::<u8, NumberOverflow>(r), Ok::<u8, NumberOverflow>(g), Ok::<u8, NumberOverflow>(b)],
        ) == Ok::<Pixel, SpecError>(Pixel { r, g, b, a: ALPHA_DEFAULT }),
{
}

/// A color array `[a,r,g,b]` resolves to exactly the pixel `(r,g,b,a)`:
/// alpha stands first in the source text only when it is explicit.
pub proof fn lemma_color4_exact(a: u8, r: u8, g: u8, b: u8)
    ensures
        spec_transform_pixel(
            seq![
                Ok::<u8, NumberOverflow>(a),
                Ok::<u8, NumberOverflow>(r),
                Ok::<u8, NumberOverflow>(g),
                Ok::<u8, NumberOverflow>(b),
            ],
        ) == Ok::<Pixel, SpecError>(Pixel { r, g, b, a }),
{
}

/// A color array whose length is neither 3 nor 4 — say 2, or 5 — raises
/// a malformed-color error carrying the offending array; it is never
/// silently truncated or padded.
pub proof fn lemma_color_bad_length_rejected(raw: Seq<Result<u8, NumberOverflow>>)
    requires
        raw.len() != 3,
        raw.len() != 4,
    ensures
        spec_transform_pixel(raw) == Err::<Pixel, SpecError>(
            SpecError::Parsing(SpecParseFailure::ColorLength { values: raw }),
        ),
{
}

proof fn lemma_transform_commands_from_order(cs: Seq<SpecRawCommand>, k: int)
    requires
        0 <= k <= cs.len(),
        spec_transform_commands_from(cs, k) is Ok,
    ensures
        spec_transform_commands_from(cs, k)->Ok_0.len() == cs.len() - k,
        forall|i: int|
            k <= i < cs.len() ==> spec_transform_command(cs[i]) == Ok::<Command, SpecError>(
                spec_transform_commands_from(cs, k)->Ok_0[i - k],
            ),
    decreases cs.len() - k,
{
    if k < cs.len() {
        lemma_transform_commands_from_order(cs, k + 1);
    }
}

/// Validation preserves command order verbatim: the resolved list is as
/// long as the raw one, and its `i`-th member is the resolution of the
/// `i`-th raw command.
pub proof fn lemma_command_order_preserved(cs: Seq<SpecRawCommand>)
    requires
        spec_transform_commands(cs) is Ok,
    ensures
        spec_transform_commands(cs)->Ok_0.len() == cs.len(),
        forall|i: int|
            0 <= i < cs.len() ==> spec_transform_command(cs[i]) == Ok::<Command, SpecError>(
                spec_transform_commands(cs)->Ok_0[i],
            ),
{
    lemma_transform_commands_from_order(cs, 0);
}

/// An overflowed width or height token is never wrapped or saturated:
/// resolution fails with a numeric-range error before any document is
/// produced.
pub proof fn lemma_overflow_raises_numeric_error(
    raw_width: Result<u32, NumberOverflow>,
    raw_height: Result<u32, NumberOverflow>,
    raw_background: Seq<Result<u8, NumberOverflow>>,
    raw_commands: Seq<SpecRawCommand>,
)
    requires
        raw_width is Err || raw_height is Err,
    ensures
        spec_transform(raw_width, raw_height, raw_background, raw_commands) == Err::<
            SpecImage,
            SpecError,
        >(SpecError::ParseNumberValue(NumberOverflow)),
{
}

// ---------------------------------------------------------------------
// The resolution pass, executably.
// ---------------------------------------------------------------------

/// An element-for-element copy of a token list; the elements are plain
/// copyable values.
fn copy_color_tokens(v: &Vec<Result<u8, NumberOverflow>>) -> (out: Vec<Result<u8, NumberOverflow>>)
    ensures
        out@ == v@,
{
    let mut out: Vec<Result<u8, NumberOverflow>> = Vec::new();
    let mut i: usize = 0;
    while i < v.len()
        invariant
            i <= v@.len(),
            out@ == v@.take(i as int),
        decreases v@.len() - i,
    {
        out.push(v[i]);
        proof {
            assert(v@.take(i + 1) =~= v@.take(i as int).push(v@[i as int]));
        }
        i = i + 1;
    }
    proof {
        assert(v@.take(v@.len() as int) =~= v@);
    }
    out
}

/// Resolve one color array into a pixel.
pub fn transform_raw_pixel(raw: Vec<Result<u8, NumberOverflow>>) -> (r: CustomResult<Pixel>)
    ensures
        match r {
            Ok(px) => spec_transform_pixel(raw@) == Ok::<Pixel, SpecError>(px),
            Err(e) => spec_transform_pixel(raw@) == Err::<Pixel, SpecError>(e@),
        },
{
    let len = raw.len();
    if !(len == 3 || len == 4) {
        return Err(CustomError::Parsing(ParseFailure::ColorLength { values: raw }));
    }
    if len == 3 {
        let r = match raw[0] {
            Err(e) => {
                return Err(CustomError::ParseNumberValue(e));
            },
            Ok(v) => v,
        };
        let g = match raw[1] {
            Err(e) => {
                return Err(CustomError::ParseNumberValue(e));
            },
            Ok(v) => v,
        };
        let b = match raw[2] {
            Err(e) => {
                return Err(CustomError::ParseNumberValue(e));
            },
            Ok(v) => v,
        };
        Ok(Pixel::new(r, g, b, ALPHA_DEFAULT))
    } else {
        let a = match raw[0] {
            Err(e) => {
                return Err(CustomError::ParseNumberValue(e));
            },
            Ok(v) => v,
        };
        let r = match raw[1] {
            Err(e) => {
                return Err(CustomError::ParseNumberValue(e));
            },
            Ok(v) => v,
        };
        let g = match raw[2] {
            Err(e) => {
                return Err(CustomError::ParseNumberValue(e));
            },
            Ok(v) => v,
        };
        let b = match raw[3] {
            Err(e) => {
                return Err(CustomError::ParseNumberValue(e));
            },
            Ok(v) => v,
        };
        Ok(Pixel::new(r, g, b, a))
    }
}

/// Resolve one coordinate pair.
pub fn transform_coordinate(
    raw: (Result<u32, NumberOverflow>, Result<u32, NumberOverflow>),
) -> (r: CustomResult<(u32, u32)>)
    ensures
        match r {
            Ok(xy) => spec_transform_coordinate(raw) == Ok::<(u32, u32), SpecError>(xy),
            Err(e) => spec_transform_coordinate(raw) == Err::<(u32, u32), SpecError>(e@),
        },
{
    match raw.0 {
        Err(e) => Err(CustomError::ParseNumberValue(e)),
        Ok(x) => match raw.1 {
            Err(e) => Err(CustomError::ParseNumberValue(e)),
            Ok(y) => Ok((x, y)),
        },
    }
}

/// Resolve one raw command.
fn transform_raw_command(c: &RawCommand) -> (r: CustomResult<Command>)
    ensures
        match r {
            Ok(cmd) => spec_transform_command(c@) == Ok::<Command, SpecError>(cmd),
            Err(e) => spec_transform_command(c@) == Err::<Command, SpecError>(e@),
        },
{
    match c {
        RawCommand::DrawPixel { position, color } => {
            let px = match transform_raw_pixel(copy_color_tokens(color)) {
                Err(e) => {
                    return Err(e);
                },
                Ok(px) => px,
            };
            let pos = match transform_coordinate(*position) {
                Err(e) => {
                    return Err(e);
                },
                Ok(pos) => pos,
            };
            Ok(Command::DrawPixel { position: pos, color: px })
        },
        RawCommand::DrawRect { corner_position_1, corner_position_2, color } => {
            let px = match transform_raw_pixel(copy_color_tokens(color)) {
                Err(e) => {
                    return Err(e);
                },
                Ok(px) => px,
            };
            let c1 = match transform_coordinate(*corner_position_1) {
                Err(e) => {
                    return Err(e);
                },
                Ok(v) => v,
            };
            let c2 = match transform_coordinate(*corner_position_2) {
                Err(e) => {
                    return Err(e);
                },
                Ok(v) => v,
            };
            Ok(Command::DrawRect { corner_position_1: c1, corner_position_2: c2, color: px })
        },
    }
}

/// Resolve a whole raw document into a validated image description, or
/// fail with the earliest error in document order. No partial document is
/// ever returned, and no bounds check against the canvas happens here:
/// out-of-canvas coordinates surface only at rasterization.
#[verifier::loop_isolation(false)]
pub fn transform_raw(
    raw_width: Result<u32, NumberOverflow>,
    raw_height: Result<u32, NumberOverflow>,
    raw_background: Vec<Result<u8, NumberOverflow>>,
    raw_commands: Vec<RawCommand>,
) -> (r: CustomResult<CustomImage>)
    ensures
        match r {
            Ok(img) => spec_transform(
                raw_width,
                raw_height,
                raw_background@,
                cmds_view(raw_commands@),
            ) == Ok::<SpecImage, SpecError>(img@),
            Err(e) => spec_transform(
                raw_width,
                raw_height,
                raw_background@,
                cmds_view(raw_commands@),
            ) == Err::<SpecImage, SpecError>(e@),
        },
{
    let width = match raw_width {
        Err(e) => {
            return Err(CustomError::ParseNumberValue(e));
        },
        Ok(v) => v,
    };
    let height = match raw_height {
        Err(e) => {
            return Err(CustomError::ParseNumberValue(e));
        },
        Ok(v) => v,
    };
    let background = match transform_raw_pixel(raw_background) {
        Err(e) => {
            return Err(e);
        },
        Ok(v) => v,
    };
    let ghost cs = cmds_view(raw_commands@);
    let mut commands: Vec<Command> = Vec::new();
    let mut i: usize = 0;
    while i < raw_commands.len()
        invariant
            i <= raw_commands@.len(),
            cs == cmds_view(raw_commands@),
            cs.len() == raw_commands@.len(),
            spec_transform_commands_from(cs, i as int) is Ok ==> spec_transform_commands(cs)
                == Ok::<Seq<Command>, SpecError>(
                commands@ + spec_transform_commands_from(cs, i as int)->Ok_0,
            ),
            spec_transform_commands_from(cs, i as int) is Err ==> spec_transform_commands(cs)
                == spec_transform_commands_from(cs, i as int),
        decreases raw_commands@.len() - i,
    {
        proof {
            assert(cs[i as int] == raw_commands@[i as int]@);
        }
        let cmd = match transform_raw_command(&raw_commands[i]) {
            Err(e) => {
                return Err(e);
            },
            Ok(v) => v,
        };
        let ghost old_cmds = commands@;
        commands.push(cmd);
        proof {
            let tail = spec_transform_commands_from(cs, i + 1);
            if tail is Ok {
                assert(old_cmds + (seq![cmd] + tail->Ok_0) =~= commands@ + tail->Ok_0);
            }
        }
        i = i + 1;
    }
    proof {
        assert(spec_transform_commands(cs) == Ok::<Seq<Command>, SpecError>(commands@ + Seq::<
            Command,
        >::empty()));
        assert(commands@ + Seq::<Command>::empty() =~= commands@);
    }
    Ok(CustomImage { width, height, data: ImageFill::Sparse((commands, background)) })
}

} // verus!

