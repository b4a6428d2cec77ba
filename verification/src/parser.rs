//! The front half of the pipeline as one call: parse the source text,
//! then resolve every deferred numeric token, yielding a validated image
//! description or the earliest error.

use vstd::prelude::*;

use crate::error::CustomResult;
use crate::error::SpecError;
use crate::read::read_content;
use crate::read::sp_document;
use crate::transform::spec_transform;
use crate::transform::transform_raw;
use crate::CustomImage;
use crate::SpecImage;

verus! {

/// What parsing-then-validating denotes for a given input: nothing when
/// the grammar does not match, and otherwise the outcome of resolving
/// the raw document it denotes.
pub open spec fn spec_parse_file(s: Seq<u8>) -> Option<Result<SpecImage, SpecError>> {
    match sp_document(s) {
        None => None,
        Some(m) => Some(spec_transform(m.width, m.height, m.background, m.commands)),
    }
}

/// Parse source bytes and validate the result.
///
/// When the grammar matches, the outcome — document or semantic error —
/// is exactly what `spec_parse_file` denotes; when it does not, the
/// result is a syntax error.
pub fn parse_file(input: &[u8]) -> (r: CustomResult<CustomImage>)
    ensures
        match r {
            Ok(img) => spec_parse_file(input@) == Some(Ok::<SpecImage, SpecError>(img@)),
            Err(e) => match spec_parse_file(input@) {
                None => e@.is_syntax(),
                Some(out) => out == Err::<SpecImage, SpecError>(e@),
            },
        },
        r is Ok <==> (spec_parse_file(input@) matches Some(out2) && out2 is Ok),
{
    let d = match read_content(input) {
        Err(e) => {
            return Err(e);
        },
        Ok(d) => d,
    };
    transform_raw(d.width, d.height, d.background, d.commands)
}

/// Parsing and validating is deterministic: the result is a function of
/// the input text alone, so re-running on identical text yields
/// bit-identical documents. Together with the contract of `parse_file`,
/// which pins each run's result to `spec_parse_file`, this says two runs
/// on the same text cannot disagree.
pub proof fn lemma_parse_file_deterministic(text: Seq<u8>, img1: SpecImage, img2: SpecImage)
    requires
        spec_parse_file(text) == Some(Ok::<SpecImage, SpecError>(img1)),
        spec_parse_file(text) == Some(Ok::<SpecImage, SpecError>(img2)),
    ensures
        img1 == img2,
{
}

} // verus!
