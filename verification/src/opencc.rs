//! Simplified-to-Traditional (Taiwan) Chinese text conversion.
//!
//! Chinese output is normalized to Traditional Chinese with OpenCC's
//! `s2twp` configuration (Taiwan standard characters plus Taiwan vocabulary
//! substitutions, e.g. 软件→軟體, 信息→資訊). Non-Chinese text passes through
//! unchanged.
use ferrous_opencc::config::BuiltinConfig;
use ferrous_opencc::OpenCC;
use vstd::prelude::*;

verus! {

/// `ferrous_opencc::OpenCC`, a loaded conversion chain, carried opaque: no
/// claim is made of what it holds.
#[verifier::external_type_specification]
#[verifier::external_body]
pub struct ExOpenCC(OpenCC);

/// The text that OpenCC's embedded `s2twp` conversion chain makes of `text`.
pub uninterp spec fn s2twp_text(text: Seq<char>) -> Seq<char>;

/// A converter built from OpenCC's embedded `s2twp` configuration.
pub struct S2twpConverter {
    converter: OpenCC,
}

/// Calls `OpenCC::from_config(BuiltinConfig::S2twp)`. That call reads only
/// the configuration and dictionaries embedded in `ferrous-opencc`
/// (`EMBEDDED_CONFIGS` and the embedded FST dictionaries), never a file, so
/// its outcome is fixed when the crate is built; the embedded `s2twp`
/// configuration is present and parses, so the call succeeds. Claims
/// that a converter comes back.
#[verifier::external_body]
fn load_s2twp() -> (r: Option<S2twpConverter>)
    ensures
        r is Some,
{
    match OpenCC::from_config(BuiltinConfig::S2twp) {
        Ok(converter) => Some(S2twpConverter { converter }),
        Err(_) => None,
    }
}

/// Calls `OpenCC::convert` on a converter of the `s2twp` configuration;
/// claims that the result is [`s2twp_text`] of the input, a function of the
/// input alone since the dictionaries are embedded.
#[verifier::external_body]
fn convert_s2twp(converter: &S2twpConverter, text: &str) -> (r: String)
    ensures
        r@ == s2twp_text(text@),
{
    converter.converter.convert(text)
}

impl S2twpConverter {
    /// Loads the embedded `s2twp` configuration.
    pub fn load() -> (r: Option<Self>)
        ensures
            r is Some,
    {
        load_s2twp()
    }

    /// Converts `text` to Traditional Chinese (Taiwan standard + phrases).
    pub fn convert(&self, text: &str) -> (r: String)
        ensures
            r@ == s2twp_text(text@),
    {
        convert_s2twp(self, text)
    }
}

/// Converts `text` with `converter`, or returns it unchanged without one.
pub fn traditional_or_unchanged(converter: Option<&S2twpConverter>, text: &str) -> (r: String)
    ensures
        match converter {
            Some(_) => r@ == s2twp_text(text@),
            None => r@ == text@,
        },
{
    match converter {
        Some(c) => c.convert(text),
        None => text.to_owned(),
    }
}

/// Converts `text` to Traditional Chinese (Taiwan standard + phrases) using
/// OpenCC's `s2twp` configuration.
pub fn to_traditional(text: &str) -> (r: String)
    ensures
        r@ == s2twp_text(text@),
{
    let converter = S2twpConverter::load();
    match &converter {
        Some(c) => traditional_or_unchanged(Some(c), text),
        None => traditional_or_unchanged(None, text),
    }
}

} // verus!
