//! The supported source languages.

pub mod rust;

use vstd::prelude::*;
use vstd::string::*;
use crate::error::{ErrorKind, LaibraryError};
use self::rust::RustAnalyser;

verus! {

/// Whether there is an analyser for the language called `language`. Rust,
/// written `rust`, is the one supported language.
pub open spec fn is_supported(language: Seq<char>) -> bool {
    language == "rust"@
}

/// The analyser for the language called `language`; for any other name
/// than `rust` the failure that names the language.
pub fn get_analyser(language: &str) -> (analyser: Result<RustAnalyser, LaibraryError>)
    ensures
        is_supported(language@) ==> analyser is Ok,
        !is_supported(language@) ==> (analyser matches Err(error) && error.spec_kind()
            == ErrorKind::UnsupportedLanguage && error.detail() == language@),
{
    if language.eq("rust") {
        Ok(RustAnalyser)
    } else {
        Err(LaibraryError::UnsupportedLanguage(language.to_owned()))
    }
}

} // verus!
