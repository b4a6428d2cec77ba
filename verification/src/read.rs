//! The grammar parser: raw source bytes in, raw document out.
//!
//! The grammar is line oriented and case sensitive:
//!
//! ```text
//! document   := "width" SP uint NL "height" SP uint NL
//!               "background" SP color NL+
//!               command (NL command)*
//! command    := pixel | rect
//! pixel      := "pixel" SP coord SP color
//! rect       := "rect" SP coord SP coord SP color
//! coord      := "(" uint "," uint ")"      ; whitespace optional around comma
//! color      := "[" uint ("," uint)* "]"   ; length checked by the validator
//! uint       := digit+
//! ```
//!
//! Any digit run is accepted here, however long: each numeric token is
//! carried forward as resolved-or-overflowed, and range failures surface
//! only in the validator. The parser fails only on structural mismatch.
//!
//! Every parsing function is written twice: a specification function over
//! `Seq<u8>` that defines the grammar mathematically, and an executable
//! function whose contract says it returns exactly what the specification
//! function denotes.

use vstd::prelude::*;

use crate::error::CustomError;
use crate::error::Expected;
use crate::error::NumberOverflow;
use crate::error::ParseFailure;

verus! {

pub const NL_BYTE: u8 = 10;
pub const CR_BYTE: u8 = 13;
pub const SPACE_BYTE: u8 = 32;
pub const TAB_BYTE: u8 = 9;
pub const COMMA_BYTE: u8 = 44;
pub const LPAREN_BYTE: u8 = 40;
pub const RPAREN_BYTE: u8 = 41;
pub const LBRACKET_BYTE: u8 = 91;
pub const RBRACKET_BYTE: u8 = 93;

// ---------------------------------------------------------------------
// Raw documents: syntax checked, numerically unresolved.
// ---------------------------------------------------------------------

/// A drawing command whose numeric fields are still deferred tokens:
/// resolved values where the digit run fit, `NumberOverflow` where not.
#[derive(Debug, PartialEq, Eq)]
pub enum RawCommand {
    DrawPixel {
        position: (Result<u32, NumberOverflow>, Result<u32, NumberOverflow>),
        color: Vec<Result<u8, NumberOverflow>>,
    },
    DrawRect {
        corner_position_1: (Result<u32, NumberOverflow>, Result<u32, NumberOverflow>),
        corner_position_2: (Result<u32, NumberOverflow>, Result<u32, NumberOverflow>),
        color: Vec<Result<u8, NumberOverflow>>,
    },
}

/// The mathematical content of a `RawCommand`.
pub enum SpecRawCommand {
    DrawPixel {
        position: (Result<u32, NumberOverflow>, Result<u32, NumberOverflow>),
        color: Seq<Result<u8, NumberOverflow>>,
    },
    DrawRect {
        corner_position_1: (Result<u32, NumberOverflow>, Result<u32, NumberOverflow>),
        corner_position_2: (Result<u32, NumberOverflow>, Result<u32, NumberOverflow>),
        color: Seq<Result<u8, NumberOverflow>>,
    },
}

impl View for RawCommand {
    type V = SpecRawCommand;

    open spec fn view(&self) -> SpecRawCommand {
        match self {
            RawCommand::DrawPixel { position, color } => SpecRawCommand::DrawPixel {
                position: *position,
                color: color@,
            },
            RawCommand::DrawRect { corner_position_1, corner_position_2, color } => {
                SpecRawCommand::DrawRect {
                    corner_position_1: *corner_position_1,
                    corner_position_2: *corner_position_2,
                    color: color@,
                }
            },
        }
    }
}

/// The syntax-valid but numerically unverified form of one document.
/// It exists only between the grammar parser and the validator.
#[derive(Debug, PartialEq, Eq)]
pub struct RawDocument {
    pub width: Result<u32, NumberOverflow>,
    pub height: Result<u32, NumberOverflow>,
    pub background: Vec<Result<u8, NumberOverflow>>,
    pub commands: Vec<RawCommand>,
}

/// The mathematical content of a `RawDocument`.
pub struct SpecRawDocument {
    pub width: Result<u32, NumberOverflow>,
    pub height: Result<u32, NumberOverflow>,
    pub background: Seq<Result<u8, NumberOverflow>>,
    pub commands: Seq<SpecRawCommand>,
}

/// The mathematical content of a command list.
pub open spec fn cmds_view(v: Seq<RawCommand>) -> Seq<SpecRawCommand> {
    v.map_values(|c: RawCommand| c@)
}

impl View for RawDocument {
    type V = SpecRawDocument;

    open spec fn view(&self) -> SpecRawDocument {
        SpecRawDocument {
            width: self.width,
            height: self.height,
            background: self.background@,
            commands: cmds_view(self.commands@),
        }
    }
}

// ---------------------------------------------------------------------
// Byte classes and runs.
// ---------------------------------------------------------------------

pub open spec fn is_digit(b: u8) -> bool {
    48 <= b <= 57
}

/// `SP` of the grammar: space or horizontal tab.
pub open spec fn is_space(b: u8) -> bool {
    b == SPACE_BYTE || b == TAB_BYTE
}

/// The whitespace tolerated around the comma of a coordinate or color list.
pub open spec fn is_multispace(b: u8) -> bool {
    b == SPACE_BYTE || b == TAB_BYTE || b == CR_BYTE || b == NL_BYTE
}

/// First position at or after `i` that does not continue a digit run.
pub open spec fn digit_run_end(s: Seq<u8>, i: int) -> int
    decreases s.len() - i,
{
    if 0 <= i < s.len() && is_digit(s[i]) {
        digit_run_end(s, i + 1)
    } else {
        i
    }
}

/// First position at or after `i` that is not a space or tab.
pub open spec fn space_run_end(s: Seq<u8>, i: int) -> int
    decreases s.len() - i,
{
    if 0 <= i < s.len() && is_space(s[i]) {
        space_run_end(s, i + 1)
    } else {
        i
    }
}

/// First position at or after `i` that is not whitespace.
pub open spec fn ms_run_end(s: Seq<u8>, i: int) -> int
    decreases s.len() - i,
{
    if 0 <= i < s.len() && is_multispace(s[i]) {
        ms_run_end(s, i + 1)
    } else {
        i
    }
}

/// First position at or after `i` that is not a newline.
pub open spec fn nl_run_end(s: Seq<u8>, i: int) -> int
    decreases s.len() - i,
{
    if 0 <= i < s.len() && s[i] == NL_BYTE {
        nl_run_end(s, i + 1)
    } else {
        i
    }
}

pub proof fn lemma_digit_run_end_bounds(s: Seq<u8>, i: int)
    requires
        0 <= i <= s.len(),
    ensures
        i <= digit_run_end(s, i) <= s.len(),
    decreases s.len() - i,
{
    if i < s.len() && is_digit(s[i]) {
        lemma_digit_run_end_bounds(s, i + 1);
    }
}

pub proof fn lemma_space_run_end_bounds(s: Seq<u8>, i: int)
    requires
        0 <= i <= s.len(),
    ensures
        i <= space_run_end(s, i) <= s.len(),
    decreases s.len() - i,
{
    if i < s.len() && is_space(s[i]) {
        lemma_space_run_end_bounds(s, i + 1);
    }
}

pub proof fn lemma_ms_run_end_bounds(s: Seq<u8>, i: int)
    requires
        0 <= i <= s.len(),
    ensures
        i <= ms_run_end(s, i) <= s.len(),
    decreases s.len() - i,
{
    if i < s.len() && is_multispace(s[i]) {
        lemma_ms_run_end_bounds(s, i + 1);
    }
}

// ---------------------------------------------------------------------
// Digit runs as numbers.
// ---------------------------------------------------------------------

/// The value of a decimal digit run, read left to right.
pub open spec fn digits_val(d: Seq<u8>) -> nat
    decreases d.len(),
{
    if d.len() == 0 {
        0
    } else {
        (digits_val(d.drop_last()) * 10 + d.last() - 48) as nat
    }
}

/// The deferred `u32` token a digit run resolves to: its value when it
/// fits, the overflow marker when it does not.
pub open spec fn spec_u32_token(d: Seq<u8>) -> Result<u32, NumberOverflow> {
    if digits_val(d) <= u32::MAX {
        Ok(digits_val(d) as u32)
    } else {
        Err(NumberOverflow)
    }
}

/// The deferred `u8` token a digit run resolves to.
pub open spec fn spec_u8_token(d: Seq<u8>) -> Result<u8, NumberOverflow> {
    if digits_val(d) <= u8::MAX {
        Ok(digits_val(d) as u8)
    } else {
        Err(NumberOverflow)
    }
}

/// A digit run whose value exceeds the target `u32` width becomes an
/// overflow token, never a wrapped or saturated value.
pub proof fn lemma_u32_run_overflow_is_err(d: Seq<u8>)
    requires
        digits_val(d) > u32::MAX,
    ensures
        spec_u32_token(d) == Err::<u32, NumberOverflow>(NumberOverflow),
{
}

/// A digit run whose value exceeds the target `u8` width becomes an
/// overflow token, never a wrapped or saturated value.
pub proof fn lemma_u8_run_overflow_is_err(d: Seq<u8>)
    requires
        digits_val(d) > u8::MAX,
    ensures
        spec_u8_token(d) == Err::<u8, NumberOverflow>(NumberOverflow),
{
}

// ---------------------------------------------------------------------
// The grammar, denotationally. Every piece takes the whole input and a
// position and yields what it recognized together with the position just
// past it, or nothing on a structural mismatch.
// ---------------------------------------------------------------------

/// `width` at position `i`.
pub open spec fn at_width_kw(s: Seq<u8>, i: int) -> bool {
    &&& 0 <= i
    &&& i + 5 <= s.len()
    &&& s[i] == 119
    &&& s[i + 1] == 105
    &&& s[i + 2] == 100
    &&& s[i + 3] == 116
    &&& s[i + 4] == 104
}

/// `height` at position `i`.
pub open spec fn at_height_kw(s: Seq<u8>, i: int) -> bool {
    &&& 0 <= i
    &&& i + 6 <= s.len()
    &&& s[i] == 104
    &&& s[i + 1] == 101
    &&& s[i + 2] == 105
    &&& s[i + 3] == 103
    &&& s[i + 4] == 104
    &&& s[i + 5] == 116
}

/// `background` at position `i`.
pub open spec fn at_background_kw(s: Seq<u8>, i: int) -> bool {
    &&& 0 <= i
    &&& i + 10 <= s.len()
    &&& s[i] == 98
    &&& s[i + 1] == 97
    &&& s[i + 2] == 99
    &&& s[i + 3] == 107
    &&& s[i + 4] == 103
    &&& s[i + 5] == 114
    &&& s[i + 6] == 111
    &&& s[i + 7] == 117
    &&& s[i + 8] == 110
    &&& s[i + 9] == 100
}

/// `pixel` at position `i`.
pub open spec fn at_pixel_kw(s: Seq<u8>, i: int) -> bool {
    &&& 0 <= i
    &&& i + 5 <= s.len()
    &&& s[i] == 112
    &&& s[i + 1] == 105
    &&& s[i + 2] == 120
    &&& s[i + 3] == 101
    &&& s[i + 4] == 108
}

/// `rect` at position `i`.
pub open spec fn at_rect_kw(s: Seq<u8>, i: int) -> bool {
    &&& 0 <= i
    &&& i + 4 <= s.len()
    &&& s[i] == 114
    &&& s[i + 1] == 101
    &&& s[i + 2] == 99
    &&& s[i + 3] == 116
}

/// `SP`: one or more spaces.
pub open spec fn sp_sp1(s: Seq<u8>, i: int) -> Option<int> {
    if 0 <= i < s.len() && is_space(s[i]) {
        Some(space_run_end(s, i))
    } else {
        None
    }
}

/// `uint`, resolved to a deferred `u32` token.
pub open spec fn sp_u32_at(s: Seq<u8>, i: int) -> Option<(Result<u32, NumberOverflow>, int)> {
    if 0 <= i < s.len() && is_digit(s[i]) {
        let j = digit_run_end(s, i);
        Some((spec_u32_token(s.subrange(i, j)), j))
    } else {
        None
    }
}

/// `uint`, resolved to a deferred `u8` token.
pub open spec fn sp_u8_at(s: Seq<u8>, i: int) -> Option<(Result<u8, NumberOverflow>, int)> {
    if 0 <= i < s.len() && is_digit(s[i]) {
        let j = digit_run_end(s, i);
        Some((spec_u8_token(s.subrange(i, j)), j))
    } else {
        None
    }
}

/// Zero or more continuations `"," uint` of a color list, whitespace
/// tolerated around the comma. Never fails: it stops, consuming nothing
/// further, at the first position where that shape is absent.
pub open spec fn sp_u8_items_rest(s: Seq<u8>, i: int) -> (Seq<Result<u8, NumberOverflow>>, int)
    decreases s.len() - i,
    via sp_u8_items_rest_decreases
{
    if 0 <= i <= s.len() {
        let j = ms_run_end(s, i);
        if j < s.len() && s[j] == COMMA_BYTE {
            let k = ms_run_end(s, j + 1);
            if k < s.len() && is_digit(s[k]) {
                let m = digit_run_end(s, k);
                let item = spec_u8_token(s.subrange(k, m));
                let (rest, e) = sp_u8_items_rest(s, m);
                (seq![item] + rest, e)
            } else {
                (Seq::empty(), i)
            }
        } else {
            (Seq::empty(), i)
        }
    } else {
        (Seq::empty(), i)
    }
}

#[via_fn]
proof fn sp_u8_items_rest_decreases(s: Seq<u8>, i: int) {
    if 0 <= i <= s.len() {
        lemma_ms_run_end_bounds(s, i);
        let j = ms_run_end(s, i);
        if j < s.len() && s[j] == COMMA_BYTE {
            lemma_ms_run_end_bounds(s, j + 1);
            let k = ms_run_end(s, j + 1);
            if k < s.len() && is_digit(s[k]) {
                lemma_digit_run_end_bounds(s, k + 1);
            }
        }
    }
}

pub proof fn lemma_sp_u8_items_rest_bounds(s: Seq<u8>, i: int)
    requires
        0 <= i <= s.len(),
    ensures
        i <= sp_u8_items_rest(s, i).1 <= s.len(),
    decreases s.len() - i,
{
    lemma_ms_run_end_bounds(s, i);
    let j = ms_run_end(s, i);
    if j < s.len() && s[j] == COMMA_BYTE {
        lemma_ms_run_end_bounds(s, j + 1);
        let k = ms_run_end(s, j + 1);
        if k < s.len() && is_digit(s[k]) {
            lemma_digit_run_end_bounds(s, k + 1);
            let m = digit_run_end(s, k);
            lemma_sp_u8_items_rest_bounds(s, m);
        }
    }
}

/// `color`: a bracketed, comma separated list of digit runs, each carried
/// as a deferred `u8` token. The list may be empty; its length is not
/// checked here.
pub open spec fn sp_color(s: Seq<u8>, i: int) -> Option<(Seq<Result<u8, NumberOverflow>>, int)> {
    if 0 <= i < s.len() && s[i] == LBRACKET_BYTE {
        let i1 = i + 1;
        if i1 < s.len() && is_digit(s[i1]) {
            let m = digit_run_end(s, i1);
            let first = spec_u8_token(s.subrange(i1, m));
            let (rest, e) = sp_u8_items_rest(s, m);
            if e < s.len() && s[e] == RBRACKET_BYTE {
                Some((seq![first] + rest, e + 1))
            } else {
                None
            }
        } else {
            if i1 < s.len() && s[i1] == RBRACKET_BYTE {
                Some((Seq::empty(), i1 + 1))
            } else {
                None
            }
        }
    } else {
        None
    }
}

/// `coord`: exactly two `uint`s in parentheses, whitespace tolerated
/// around the comma, each carried as a deferred `u32` token.
pub open spec fn sp_coord(s: Seq<u8>, i: int) -> Option<
    ((Result<u32, NumberOverflow>, Result<u32, NumberOverflow>), int),
> {
    if 0 <= i < s.len() && s[i] == LPAREN_BYTE {
        match sp_u32_at(s, i + 1) {
            None => None,
            Some((t1, p)) => {
                let j = ms_run_end(s, p);
                if j < s.len() && s[j] == COMMA_BYTE {
                    let k = ms_run_end(s, j + 1);
                    match sp_u32_at(s, k) {
                        None => None,
                        Some((t2, q)) => {
                            if q < s.len() && s[q] == RPAREN_BYTE {
                                Some(((t1, t2), q + 1))
                            } else {
                                None
                            }
                        },
                    }
                } else {
                    None
                }
            },
        }
    } else {
        None
    }
}

/// `pixel SP coord SP color`.
pub open spec fn sp_pixel_cmd(s: Seq<u8>, i: int) -> Option<(SpecRawCommand, int)> {
    if at_pixel_kw(s, i) {
        match sp_sp1(s, i + 5) {
            None => None,
            Some(j) => match sp_coord(s, j) {
                None => None,
                Some((position, p)) => match sp_sp1(s, p) {
                    None => None,
                    Some(q) => match sp_color(s, q) {
                        None => None,
                        Some((color, e)) => Some(
                            (SpecRawCommand::DrawPixel { position, color }, e),
                        ),
                    },
                },
            },
        }
    } else {
        None
    }
}

/// `rect SP coord SP coord SP color`.
pub open spec fn sp_rect_cmd(s: Seq<u8>, i: int) -> Option<(SpecRawCommand, int)> {
    if at_rect_kw(s, i) {
        match sp_sp1(s, i + 4) {
            None => None,
            Some(j) => match sp_coord(s, j) {
                None => None,
                Some((corner_position_1, p)) => match sp_sp1(s, p) {
                    None => None,
                    Some(q) => match sp_coord(s, q) {
                        None => None,
                        Some((corner_position_2, p2)) => match sp_sp1(s, p2) {
                            None => None,
                            Some(q2) => match sp_color(s, q2) {
                                None => None,
                                Some((color, e)) => Some(
                                    (
                                        SpecRawCommand::DrawRect {
                                            corner_position_1,
                                            corner_position_2,
                                            color,
                                        },
                                        e,
                                    ),
                                ),
                            },
                        },
                    },
                },
            },
        }
    } else {
        None
    }
}

/// `command := pixel | rect`. The two keywords differ in their first
/// byte, so the choice is deterministic.
pub open spec fn sp_command(s: Seq<u8>, i: int) -> Option<(SpecRawCommand, int)> {
    if at_pixel_kw(s, i) {
        sp_pixel_cmd(s, i)
    } else {
        sp_rect_cmd(s, i)
    }
}

pub proof fn lemma_sp_sp1_bounds(s: Seq<u8>, i: int)
    requires
        sp_sp1(s, i) is Some,
    ensures
        i < sp_sp1(s, i)->Some_0 <= s.len(),
{
    lemma_space_run_end_bounds(s, i + 1);
}

pub proof fn lemma_sp_u32_at_bounds(s: Seq<u8>, i: int)
    requires
        sp_u32_at(s, i) is Some,
    ensures
        i < sp_u32_at(s, i)->Some_0.1 <= s.len(),
{
    lemma_digit_run_end_bounds(s, i + 1);
}

pub proof fn lemma_sp_color_bounds(s: Seq<u8>, i: int)
    requires
        sp_color(s, i) is Some,
    ensures
        i < sp_color(s, i)->Some_0.1 <= s.len(),
{
    let i1 = i + 1;
    if i1 < s.len() && is_digit(s[i1]) {
        lemma_digit_run_end_bounds(s, i1 + 1);
        let m = digit_run_end(s, i1);
        lemma_sp_u8_items_rest_bounds(s, m);
    }
}

pub proof fn lemma_sp_coord_bounds(s: Seq<u8>, i: int)
    requires
        sp_coord(s, i) is Some,
    ensures
        i < sp_coord(s, i)->Some_0.1 <= s.len(),
{
    let (t1, p) = sp_u32_at(s, i + 1)->Some_0;
    lemma_sp_u32_at_bounds(s, i + 1);
    let j = ms_run_end(s, p);
    lemma_ms_run_end_bounds(s, p);
    let k = ms_run_end(s, j + 1);
    lemma_ms_run_end_bounds(s, j + 1);
    lemma_sp_u32_at_bounds(s, k);
}

pub proof fn lemma_sp_command_bounds(s: Seq<u8>, i: int)
    requires
        sp_command(s, i) is Some,
    ensures
        i < sp_command(s, i)->Some_0.1 <= s.len(),
{
    if at_pixel_kw(s, i) {
        let j = sp_sp1(s, i + 5)->Some_0;
        lemma_sp_sp1_bounds(s, i + 5);
        let (position, p) = sp_coord(s, j)->Some_0;
        lemma_sp_coord_bounds(s, j);
        let q = sp_sp1(s, p)->Some_0;
        lemma_sp_sp1_bounds(s, p);
        lemma_sp_color_bounds(s, q);
    } else {
        let j = sp_sp1(s, i + 4)->Some_0;
        lemma_sp_sp1_bounds(s, i + 4);
        let (c1, p) = sp_coord(s, j)->Some_0;
        lemma_sp_coord_bounds(s, j);
        let q = sp_sp1(s, p)->Some_0;
        lemma_sp_sp1_bounds(s, p);
        let (c2, p2) = sp_coord(s, q)->Some_0;
        lemma_sp_coord_bounds(s, q);
        let q2 = sp_sp1(s, p2)->Some_0;
        lemma_sp_sp1_bounds(s, p2);
        lemma_sp_color_bounds(s, q2);
    }
}

/// The command list, from position `i` to the end of the input: commands
/// separated by exactly one newline — a blank line between commands is a
/// mismatch — with trailing newlines tolerated before the end, and the
/// list as a whole allowed to be empty.
pub open spec fn sp_commands(s: Seq<u8>, i: int) -> Option<Seq<SpecRawCommand>>
    decreases s.len() - i,
    via sp_commands_decreases
{
    if i == s.len() {
        Some(Seq::empty())
    } else {
        match sp_command(s, i) {
            None => None,
            Some((c, j)) => {
                if j == s.len() {
                    Some(seq![c])
                } else if s[j] == NL_BYTE {
                    let k = j + 1;
                    if k == s.len() {
                        Some(seq![c])
                    } else if s[k] == NL_BYTE {
                        if nl_run_end(s, k) == s.len() {
                            Some(seq![c])
                        } else {
                            None
                        }
                    } else {
                        match sp_commands(s, k) {
                            None => None,
                            Some(rest) => Some(seq![c] + rest),
                        }
                    }
                } else {
                    None
                }
            },
        }
    }
}

#[via_fn]
proof fn sp_commands_decreases(s: Seq<u8>, i: int) {
    if i != s.len() && sp_command(s, i) is Some {
        lemma_sp_command_bounds(s, i);
    }
}

// ---------------------------------------------------------------------
// The executable lexers. Each one returns exactly what its specification
// function denotes.
// ---------------------------------------------------------------------

/// Walk past spaces and tabs.
#[verifier::loop_isolation(false)]
fn skip_spaces(s: &[u8], i: usize) -> (j: usize)
    requires
        i <= s@.len(),
    ensures
        j == space_run_end(s@, i as int),
        i <= j <= s@.len(),
{
    let mut k = i;
    while k < s.len() && (s[k] == SPACE_BYTE || s[k] == TAB_BYTE)
        invariant
            i <= k <= s@.len(),
            space_run_end(s@, i as int) == space_run_end(s@, k as int),
        decreases s@.len() - k,
    {
        k = k + 1;
    }
    k
}

/// Walk past whitespace of any kind.
#[verifier::loop_isolation(false)]
fn skip_ms(s: &[u8], i: usize) -> (j: usize)
    requires
        i <= s@.len(),
    ensures
        j == ms_run_end(s@, i as int),
        i <= j <= s@.len(),
{
    let mut k = i;
    while k < s.len() && (s[k] == SPACE_BYTE || s[k] == TAB_BYTE || s[k] == CR_BYTE || s[k]
        == NL_BYTE)
        invariant
            i <= k <= s@.len(),
            ms_run_end(s@, i as int) == ms_run_end(s@, k as int),
        decreases s@.len() - k,
    {
        k = k + 1;
    }
    k
}

/// Walk past newlines.
#[verifier::loop_isolation(false)]
fn skip_nls(s: &[u8], i: usize) -> (j: usize)
    requires
        i <= s@.len(),
    ensures
        j == nl_run_end(s@, i as int),
        i <= j <= s@.len(),
{
    let mut k = i;
    while k < s.len() && s[k] == NL_BYTE
        invariant
            i <= k <= s@.len(),
            nl_run_end(s@, i as int) == nl_run_end(s@, k as int),
        decreases s@.len() - k,
    {
        k = k + 1;
    }
    k
}

/// Walk one digit run, computing its value and whether that value is too
/// large for `u32`. The run itself may be arbitrarily long.
#[verifier::loop_isolation(false)]
fn scan_digits(s: &[u8], i: usize) -> (r: (usize, u32, bool))
    requires
        i < s@.len(),
        is_digit(s@[i as int]),
    ensures
        ({
            let (j, val, over) = r;
            let run = s@.subrange(i as int, j as int);
            &&& j == digit_run_end(s@, i as int)
            &&& i < j <= s@.len()
            &&& (over <==> digits_val(run) > u32::MAX)
            &&& (!over ==> val == digits_val(run))
        }),
{
    let mut k = i;
    let mut val: u32 = 0;
    let mut over = false;
    while k < s.len() && 48 <= s[k] && s[k] <= 57
        invariant
            i <= k <= s@.len(),
            digit_run_end(s@, i as int) == digit_run_end(s@, k as int),
            over <==> digits_val(s@.subrange(i as int, k as int)) > u32::MAX,
            !over ==> val == digits_val(s@.subrange(i as int, k as int)),
        decreases s@.len() - k,
    {
        let d = s[k] - 48;
        proof {
            let kk = k as int;
            let w = s@.subrange(i as int, kk + 1);
            assert(w.drop_last() =~= s@.subrange(i as int, kk));
            assert(w.last() == s@[kk]);
            assert(digits_val(w) == (digits_val(w.drop_last()) * 10 + w.last() - 48) as nat);
        }
        if !over {
            let nv: u64 = (val as u64) * 10 + (d as u64);
            if nv > u32::MAX as u64 {
                over = true;
            } else {
                val = nv as u32;
            }
        }
        k = k + 1;
    }
    proof {
        lemma_digit_run_end_bounds(s@, i as int + 1);
    }
    (k, val, over)
}

/// One digit run as a deferred `u32` token.
fn scan_u32_token(s: &[u8], i: usize) -> (r: (Result<u32, NumberOverflow>, usize))
    requires
        i < s@.len(),
        is_digit(s@[i as int]),
    ensures
        sp_u32_at(s@, i as int) == Some((r.0, r.1 as int)),
        i < r.1 <= s@.len(),
{
    let (j, val, over) = scan_digits(s, i);
    if over {
        (Err(NumberOverflow), j)
    } else {
        (Ok(val), j)
    }
}

/// One digit run as a deferred `u8` token.
fn scan_u8_token(s: &[u8], i: usize) -> (r: (Result<u8, NumberOverflow>, usize))
    requires
        i < s@.len(),
        is_digit(s@[i as int]),
    ensures
        sp_u8_at(s@, i as int) == Some((r.0, r.1 as int)),
        i < r.1 <= s@.len(),
{
    let (j, val, over) = scan_digits(s, i);
    if over || val > 255 {
        (Err(NumberOverflow), j)
    } else {
        (Ok(val as u8), j)
    }
}

/// `SP`: one or more spaces.
fn lex_sp1(s: &[u8], i: usize) -> (r: Option<usize>)
    requires
        i <= s@.len(),
    ensures
        match r {
            Some(j) => sp_sp1(s@, i as int) == Some(j as int) && i < j <= s@.len(),
            None => sp_sp1(s@, i as int) is None,
        },
{
    if i < s.len() && (s[i] == SPACE_BYTE || s[i] == TAB_BYTE) {
        let j = skip_spaces(s, i);
        proof {
            lemma_space_run_end_bounds(s@, i as int + 1);
        }
        Some(j)
    } else {
        None
    }
}

/// `color`: a bracketed, comma separated list of deferred `u8` tokens.
fn lex_color(s: &[u8], i: usize) -> (r: Option<(Vec<Result<u8, NumberOverflow>>, usize)>)
    requires
        i <= s@.len(),
    ensures
        match r {
            Some(v) => sp_color(s@, i as int) == Some((v.0@, v.1 as int)) && i < v.1 <= s@.len(),
            None => sp_color(s@, i as int) is None,
        },
{
    if i < s.len() && s[i] == LBRACKET_BYTE {
        let i1 = i + 1;
        if i1 < s.len() && 48 <= s[i1] && s[i1] <= 57 {
            let (first, m) = scan_u8_token(s, i1);
            let mut v: Vec<Result<u8, NumberOverflow>> = Vec::new();
            v.push(first);
            let mut cur = m;
            loop
                invariant
                    m <= cur <= s@.len(),
                    v@.len() >= 1,
                    v@[0] == first,
                    sp_u8_items_rest(s@, m as int) == (
                        v@.skip(1) + sp_u8_items_rest(s@, cur as int).0,
                        sp_u8_items_rest(s@, cur as int).1,
                    ),
                ensures
                    m <= cur <= s@.len(),
                    sp_u8_items_rest(s@, m as int).1 == cur as int,
                    v@ == seq![first] + sp_u8_items_rest(s@, m as int).0,
                decreases s@.len() - cur,
            {
                let j = skip_ms(s, cur);
                if !(j < s.len() && s[j] == COMMA_BYTE) {
                    proof {
                        assert(v@.skip(1) + sp_u8_items_rest(s@, cur as int).0 =~= v@.skip(1));
                        assert(seq![first] + v@.skip(1) =~= v@);
                    }
                    break ;
                }
                let k = skip_ms(s, j + 1);
                if !(k < s.len() && 48 <= s[k] && s[k] <= 57) {
                    proof {
                        assert(v@.skip(1) + sp_u8_items_rest(s@, cur as int).0 =~= v@.skip(1));
                        assert(seq![first] + v@.skip(1) =~= v@);
                    }
                    break ;
                }
                let (tok, m2) = scan_u8_token(s, k);
                let ghost old_v = v@;
                v.push(tok);
                proof {
                    let (rest2, e2) = sp_u8_items_rest(s@, m2 as int);
                    assert(sp_u8_items_rest(s@, cur as int) == (
                        seq![tok] + rest2,
                        e2,
                    ));
                    assert(v@.skip(1) + rest2 =~= old_v.skip(1) + (seq![tok] + rest2));
                }
                cur = m2;
            }
            if cur < s.len() && s[cur] == RBRACKET_BYTE {
                Some((v, cur + 1))
            } else {
                None
            }
        } else if i1 < s.len() && s[i1] == RBRACKET_BYTE {
            Some((Vec::new(), i1 + 1))
        } else {
            None
        }
    } else {
        None
    }
}

/// `coord`: two deferred `u32` tokens in parentheses.
fn lex_coord(s: &[u8], i: usize) -> (r: Option<
    ((Result<u32, NumberOverflow>, Result<u32, NumberOverflow>), usize),
>)
    requires
        i <= s@.len(),
    ensures
        match r {
            Some(v) => sp_coord(s@, i as int) == Some((v.0, v.1 as int)) && i < v.1 <= s@.len(),
            None => sp_coord(s@, i as int) is None,
        },
{
    if i < s.len() && s[i] == LPAREN_BYTE {
        let i1 = i + 1;
        if i1 < s.len() && 48 <= s[i1] && s[i1] <= 57 {
            let (t1, p) = scan_u32_token(s, i1);
            let j = skip_ms(s, p);
            if j < s.len() && s[j] == COMMA_BYTE {
                let k = skip_ms(s, j + 1);
                if k < s.len() && 48 <= s[k] && s[k] <= 57 {
                    let (t2, q) = scan_u32_token(s, k);
                    if q < s.len() && s[q] == RPAREN_BYTE {
                        Some(((t1, t2), q + 1))
                    } else {
                        None
                    }
                } else {
                    None
                }
            } else {
                None
            }
        } else {
            None
        }
    } else {
        None
    }
}

/// The grammar as executable code, continued: keyword checks.
fn is_width_kw(s: &[u8], i: usize) -> (r: bool)
    requires
        i <= s@.len(),
    ensures
        r == at_width_kw(s@, i as int),
{
    s.len() - i >= 5 && s[i] == 119 && s[i + 1] == 105 && s[i + 2] == 100 && s[i + 3] == 116 && s[i
        + 4] == 104
}

fn is_height_kw(s: &[u8], i: usize) -> (r: bool)
    requires
        i <= s@.len(),
    ensures
        r == at_height_kw(s@, i as int),
{
    s.len() - i >= 6 && s[i] == 104 && s[i + 1] == 101 && s[i + 2] == 105 && s[i + 3] == 103 && s[i
        + 4] == 104 && s[i + 5] == 116
}

fn is_background_kw(s: &[u8], i: usize) -> (r: bool)
    requires
        i <= s@.len(),
    ensures
        r == at_background_kw(s@, i as int),
{
    s.len() - i >= 10 && s[i] == 98 && s[i + 1] == 97 && s[i + 2] == 99 && s[i + 3] == 107 && s[i
        + 4] == 103 && s[i + 5] == 114 && s[i + 6] == 111 && s[i + 7] == 117 && s[i + 8] == 110
        && s[i + 9] == 100
}

fn is_pixel_kw(s: &[u8], i: usize) -> (r: bool)
    requires
        i <= s@.len(),
    ensures
        r == at_pixel_kw(s@, i as int),
{
    s.len() - i >= 5 && s[i] == 112 && s[i + 1] == 105 && s[i + 2] == 120 && s[i + 3] == 101 && s[i
        + 4] == 108
}

fn is_rect_kw(s: &[u8], i: usize) -> (r: bool)
    requires
        i <= s@.len(),
    ensures
        r == at_rect_kw(s@, i as int),
{
    s.len() - i >= 4 && s[i] == 114 && s[i + 1] == 101 && s[i + 2] == 99 && s[i + 3] == 116
}

/// One command, `pixel` or `rect`.
fn lex_command(s: &[u8], i: usize) -> (r: Option<(RawCommand, usize)>)
    requires
        i <= s@.len(),
    ensures
        match r {
            Some(v) => sp_command(s@, i as int) == Some((v.0@, v.1 as int)) && i < v.1 <= s@.len(),
            None => sp_command(s@, i as int) is None,
        },
{
    let n = s.len();
    if is_pixel_kw(s, i) {
        match lex_sp1(s, i + 5) {
            None => None,
            Some(j) => match lex_coord(s, j) {
                None => None,
                Some((position, p)) => match lex_sp1(s, p) {
                    None => None,
                    Some(q) => match lex_color(s, q) {
                        None => None,
                        Some((color, e)) => Some((RawCommand::DrawPixel { position, color }, e)),
                    },
                },
            },
        }
    } else if is_rect_kw(s, i) {
        match lex_sp1(s, i + 4) {
            None => None,
            Some(j) => match lex_coord(s, j) {
                None => None,
                Some((corner_position_1, p)) => match lex_sp1(s, p) {
                    None => None,
                    Some(q) => match lex_coord(s, q) {
                        None => None,
                        Some((corner_position_2, p2)) => match lex_sp1(s, p2) {
                            None => None,
                            Some(q2) => match lex_color(s, q2) {
                                None => None,
                                Some((color, e)) => Some(
                                    (
                                        RawCommand::DrawRect {
                                            corner_position_1,
                                            corner_position_2,
                                            color,
                                        },
                                        e,
                                    ),
                                ),
                            },
                        },
                    },
                },
            },
        }
    } else {
        None
    }
}

proof fn lemma_cmds_view_push(v: Seq<RawCommand>, c: RawCommand)
    ensures
        cmds_view(v.push(c)) == cmds_view(v).push(c@),
{
    assert(cmds_view(v.push(c)) =~= cmds_view(v).push(c@));
}

/// The command list: commands separated by exactly one newline, trailing
/// newlines tolerated, the list as a whole allowed to be empty. On a
/// mismatch the returned position and expectation describe it.
fn lex_commands(s: &[u8], i: usize) -> (r: Result<Vec<RawCommand>, (usize, Expected)>)
    requires
        i <= s@.len(),
    ensures
        match r {
            Ok(v) => sp_commands(s@, i as int) == Some(cmds_view(v@)),
            Err(e) => sp_commands(s@, i as int) is None,
        },
{
    let mut v: Vec<RawCommand> = Vec::new();
    let mut cur = i;
    if cur == s.len() {
        proof {
            assert(cmds_view(v@) =~= Seq::<SpecRawCommand>::empty());
        }
        return Ok(v);
    }
    loop
        invariant
            i <= cur < s@.len(),
            sp_commands(s@, cur as int) is Some ==> sp_commands(s@, i as int) == Some(
                cmds_view(v@) + sp_commands(s@, cur as int)->Some_0,
            ),
            sp_commands(s@, cur as int) is None ==> sp_commands(s@, i as int) is None,
        decreases s@.len() - cur,
    {
        match lex_command(s, cur) {
            None => {
                return Err((cur, Expected::Command));
            },
            Some((c, j)) => {
                let ghost old_v = v@;
                v.push(c);
                proof {
                    lemma_cmds_view_push(old_v, c);
                }
                if j == s.len() {
                    proof {
                        assert(sp_commands(s@, cur as int) == Some(seq![c@]));
                        assert(cmds_view(old_v) + seq![c@] =~= cmds_view(v@));
                    }
                    return Ok(v);
                }
                if s[j] != NL_BYTE {
                    return Err((j, Expected::Newline));
                }
                let k = j + 1;
                if k == s.len() {
                    proof {
                        assert(sp_commands(s@, cur as int) == Some(seq![c@]));
                        assert(cmds_view(old_v) + seq![c@] =~= cmds_view(v@));
                    }
                    return Ok(v);
                }
                if s[k] == NL_BYTE {
                    let e = skip_nls(s, k);
                    if e == s.len() {
                        proof {
                            assert(sp_commands(s@, cur as int) == Some(seq![c@]));
                            assert(cmds_view(old_v) + seq![c@] =~= cmds_view(v@));
                        }
                        return Ok(v);
                    }
                    return Err((e, Expected::EndOfInput));
                }
                proof {
                    let rest_opt = sp_commands(s@, k as int);
                    if rest_opt is Some {
                        assert(sp_commands(s@, cur as int) == Some(
                            seq![c@] + rest_opt->Some_0,
                        ));
                        assert(cmds_view(old_v) + (seq![c@] + rest_opt->Some_0) =~= cmds_view(v@)
                            + rest_opt->Some_0);
                    }
                }
                cur = k;
            },
        }
    }
}

/// The whole document. `None` is a structural mismatch; trailing bytes
/// that continue past the command list are a mismatch as well.
pub open spec fn sp_document(s: Seq<u8>) -> Option<SpecRawDocument> {
    if at_width_kw(s, 0) {
        match sp_sp1(s, 5) {
            None => None,
            Some(i1) => match sp_u32_at(s, i1) {
                None => None,
                Some((width, i2)) => {
                    if i2 < s.len() && s[i2] == NL_BYTE && at_height_kw(s, i2 + 1) {
                        match sp_sp1(s, i2 + 7) {
                            None => None,
                            Some(i3) => match sp_u32_at(s, i3) {
                                None => None,
                                Some((height, i4)) => {
                                    if i4 < s.len() && s[i4] == NL_BYTE && at_background_kw(
                                        s,
                                        i4 + 1,
                                    ) {
                                        match sp_sp1(s, i4 + 11) {
                                            None => None,
                                            Some(i5) => match sp_color(s, i5) {
                                                None => None,
                                                Some((background, i6)) => {
                                                    if i6 < s.len() && s[i6] == NL_BYTE {
                                                        let i7 = nl_run_end(s, i6);
                                                        match sp_commands(s, i7) {
                                                            None => None,
                                                            Some(commands) => Some(
                                                                SpecRawDocument {
                                                                    width,
                                                                    height,
                                                                    background,
                                                                    commands,
                                                                },
                                                            ),
                                                        }
                                                    } else {
                                                        None
                                                    }
                                                },
                                            },
                                        }
                                    } else {
                                        None
                                    }
                                },
                            },
                        }
                    } else {
                        None
                    }
                },
            },
        }
    } else {
        None
    }
}

/// Parse raw source bytes into a `RawDocument`.
///
/// On success the result is exactly the document the grammar denotes for
/// this input; on failure the grammar does not match the input, and the
/// error is a syntax error naming a position and what was expected there.
pub fn read_content(input: &[u8]) -> (r: Result<RawDocument, CustomError>)
    ensures
        match r {
            Ok(d) => sp_document(input@) == Some(d@),
            Err(e) => sp_document(input@) is None && e@.is_syntax(),
        },
{
    let s = input;
    let n = s.len();
    if !is_width_kw(s, 0) {
        return Err(CustomError::Parsing(ParseFailure::Syntax {
            position: 0,
            expected: Expected::WidthHeader,
        }));
    }
    let i1 = match lex_sp1(s, 5) {
        None => {
            return Err(CustomError::Parsing(ParseFailure::Syntax {
                position: 5,
                expected: Expected::WidthHeader,
            }));
        },
        Some(j) => j,
    };
    let (width, i2) = if i1 < n && 48 <= s[i1] && s[i1] <= 57 {
        scan_u32_token(s, i1)
    } else {
        return Err(CustomError::Parsing(ParseFailure::Syntax {
            position: i1,
            expected: Expected::WidthHeader,
        }));
    };
    if !(i2 < n && s[i2] == NL_BYTE) {
        return Err(CustomError::Parsing(ParseFailure::Syntax {
            position: i2,
            expected: Expected::Newline,
        }));
    }
    if !is_height_kw(s, i2 + 1) {
        return Err(CustomError::Parsing(ParseFailure::Syntax {
            position: i2 + 1,
            expected: Expected::HeightHeader,
        }));
    }
    let i3 = match lex_sp1(s, i2 + 7) {
        None => {
            return Err(CustomError::Parsing(ParseFailure::Syntax {
                position: i2 + 7,
                expected: Expected::HeightHeader,
            }));
        },
        Some(j) => j,
    };
    let (height, i4) = if i3 < n && 48 <= s[i3] && s[i3] <= 57 {
        scan_u32_token(s, i3)
    } else {
        return Err(CustomError::Parsing(ParseFailure::Syntax {
            position: i3,
            expected: Expected::HeightHeader,
        }));
    };
    if !(i4 < n && s[i4] == NL_BYTE) {
        return Err(CustomError::Parsing(ParseFailure::Syntax {
            position: i4,
            expected: Expected::Newline,
        }));
    }
    if !is_background_kw(s, i4 + 1) {
        return Err(CustomError::Parsing(ParseFailure::Syntax {
            position: i4 + 1,
            expected: Expected::BackgroundHeader,
        }));
    }
    let i5 = match lex_sp1(s, i4 + 11) {
        None => {
            return Err(CustomError::Parsing(ParseFailure::Syntax {
                position: i4 + 11,
                expected: Expected::BackgroundHeader,
            }));
        },
        Some(j) => j,
    };
    let (background, i6) = match lex_color(s, i5) {
        None => {
            return Err(CustomError::Parsing(ParseFailure::Syntax {
                position: i5,
                expected: Expected::Color,
            }));
        },
        Some(v) => v,
    };
    if !(i6 < n && s[i6] == NL_BYTE) {
        return Err(CustomError::Parsing(ParseFailure::Syntax {
            position: i6,
            expected: Expected::Newline,
        }));
    }
    let i7 = skip_nls(s, i6);
    let commands = match lex_commands(s, i7) {
        Err((position, expected)) => {
            return Err(CustomError::Parsing(ParseFailure::Syntax { position, expected }));
        },
        Ok(v) => v,
    };
    Ok(RawDocument { width, height, background, commands })
}

} // verus!
