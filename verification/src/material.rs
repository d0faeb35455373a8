//! One-shot derivation of the key material from the two documents: the
//! indices from the script, the verification key from the page, its base64
//! decoding, and the animation inputs. The floating-point animation replay
//! that turns these inputs into the animation key lives outside the
//! library; its result comes back through [`ClientTransaction::new`].

use vstd::prelude::*;
use vstd::string::StringSliceAdditionalSpecFns;
use vstd::utf8::decode_utf8;
use crate::encoding::base64_decoded;
use crate::error::Error;
use crate::extract::spec_indices;
use crate::extract::spec_verification_key;
use crate::extract::VkOutcome;
use crate::frames::spec_animation_inputs;
use crate::frames::AnimationInputs;
use crate::frames::InputsOutcome;
use crate::transaction::ClientTransaction;

verus! {

/// The verified half of the derived secret: the decoded key bytes and the
/// inputs of the animation replay.
#[derive(Debug)]
pub struct DerivedMaterial {
    pub key_bytes: Vec<u8>,
    pub inputs: AnimationInputs,
}

/// What deriving the key material from the two documents finds.
pub enum MaterialOutcome {
    /// Key bytes, frame coordinates, frame-time factors.
    Material(Seq<u8>, Seq<i32>, Seq<u8>),
    /// The script has no key-byte index patterns.
    NoIndices,
    /// The page has no verification meta tag.
    VkNoTag,
    /// The meta tag has no content attribute.
    VkNoContent,
    /// The content attribute has no closing quote.
    VkNoQuote,
    /// The verification key is not valid base64.
    BadKey,
    /// Assembling the animation inputs failed.
    Inputs(InputsOutcome),
}

/// The whole derivation, stage by stage: indices, verification key, key
/// bytes, animation inputs. The first unmet precondition halts it.
pub open spec fn spec_material(h: Seq<u8>, j: Seq<u8>) -> MaterialOutcome {
    let ids = spec_indices(j);
    if ids.len() == 0 {
        MaterialOutcome::NoIndices
    } else {
        match spec_verification_key(h) {
            VkOutcome::NoTag => MaterialOutcome::VkNoTag,
            VkOutcome::NoContent => MaterialOutcome::VkNoContent,
            VkOutcome::NoQuote => MaterialOutcome::VkNoQuote,
            VkOutcome::Key(kb) => {
                match base64_decoded(decode_utf8(kb)) {
                    None => MaterialOutcome::BadKey,
                    Some(key) => {
                        match spec_animation_inputs(key, h, ids[0] as int, ids.drop_first()) {
                            InputsOutcome::Inputs(frame, factors) => MaterialOutcome::Material(
                                key,
                                frame,
                                factors,
                            ),
                            o => MaterialOutcome::Inputs(o),
                        }
                    },
                }
            },
        }
    }
}

impl ClientTransaction {
    /// Derives the key material from the entry page and the script bundle:
    /// everything [`ClientTransaction::new`] needs except the animation
    /// key, which the caller computes by replaying the animation on the
    /// returned inputs.
    pub fn derive_material(home_page_html: &str, ondemand_js: &str) -> (r: Result<
        DerivedMaterial,
        Error,
    >)
        requires
            home_page_html.spec_bytes().len() <= usize::MAX / 8,
        ensures
            ({
                let o = spec_material(home_page_html.spec_bytes(), ondemand_js.spec_bytes());
                match r {
                    Ok(m) => o == MaterialOutcome::Material(
                        m.key_bytes@,
                        m.inputs.frame@,
                        m.inputs.factors@,
                    ),
                    Err(e) => match e {
                        Error::MissingKey(m) => (o is NoIndices && m@ == "key byte indices"@) || (
                        o is VkNoTag && m@ == "twitter-site-verification meta tag"@) || (
                        o is VkNoContent && m@ == "content attribute"@) || (o
                            == MaterialOutcome::Inputs(InputsOutcome::NoFrames) && m@
                            == "animation frames"@),
                        Error::Parse(m) => (o is VkNoQuote && m@ == "malformed content attribute"@)
                            || (o == MaterialOutcome::Inputs(InputsOutcome::KeyTooShortRow) && m@
                            == "key too short for row selection"@) || (o == MaterialOutcome::Inputs(
                            InputsOutcome::KeyTooShort,
                        ) && m@ == "key too short for frame selection"@) || (o
                            == MaterialOutcome::Inputs(InputsOutcome::BadIndex) && m@
                            == "frame index out of bounds"@) || (o == MaterialOutcome::Inputs(
                            InputsOutcome::RowOutOfBounds,
                        ) && m@ == "row index out of bounds"@),
                        Error::Base64(_) => o is BadKey,
                        _ => false,
                    },
                }
            }),
    {
        let ids = match Self::parse_indices(ondemand_js) {
            Ok(p) => p,
            Err(e) => {
                return Err(e);
            },
        };
        let row_index = ids.0;
        let key_byte_indices = ids.1;
        let key = match Self::verification_key(home_page_html) {
            Ok(k) => k,
            Err(e) => {
                return Err(e);
            },
        };
        proof {
            broadcast use vstd::utf8::encode_utf8_valid_utf8;

            vstd::utf8::encode_utf8_decode_utf8(key@);
        }
        let key_bytes = match Self::decode_key(key.as_str()) {
            Ok(b) => b,
            Err(e) => {
                return Err(e);
            },
        };
        let inputs = match Self::animation_key_inputs(
            key_bytes.as_slice(),
            home_page_html,
            row_index,
            key_byte_indices.as_slice(),
        ) {
            Ok(a) => a,
            Err(e) => {
                return Err(e);
            },
        };
        Ok(DerivedMaterial { key_bytes, inputs })
    }
}

} // verus!
