//! The exclusion predicate: a compiled pattern tested against basenames.
//! The pattern engine itself is the regex crate, behind trusted items; the
//! library only relies on compilation and matching being functions of the
//! pattern source and the tested bytes.

use vstd::prelude::*;

use crate::TarError;

verus! {

use vstd::utf8::valid_utf8;

#[verifier::external_type_specification]
#[verifier::external_body]
pub struct ExRegex(regex::Regex);

#[verifier::external_type_specification]
#[verifier::external_body]
pub struct ExRegexError(regex::Error);

/// Whether the regex engine accepts `pattern` as a regular expression:
/// `Regex::new` succeeds on exactly these sources.
pub uninterp spec fn regex_compiles(pattern: Seq<char>) -> bool;

/// Whether the regular expression compiled from `pattern` matches somewhere
/// in the text whose UTF-8 bytes are `text`. Fixed by the two arguments
/// alone; its definition is the regex crate's.
pub uninterp spec fn regex_match(pattern: Seq<char>, text: Seq<u8>) -> bool;

/// Relies on std's `str::from_utf8`: it accepts exactly the valid UTF-8
/// byte sequences.
#[verifier::external_body]
pub fn utf8_check(text: &Vec<u8>) -> (r: bool)
    ensures
        r == valid_utf8(text@),
{
    std::str::from_utf8(text.as_slice()).is_ok()
}

/// One exclusion pattern: the compiled engine beside its source text. Both
/// fields stay private, so nothing can pair an engine with another
/// pattern's source; the contracts speak of the source through `src`.
pub struct Pattern {
    re: regex::Regex,
    source: String,
}

impl Pattern {
    /// The pattern's source text.
    pub closed spec fn src(&self) -> Seq<char> {
        self.source@
    }

    /// Relies on regex's `Regex::new`: it succeeds on exactly the sources
    /// the engine accepts, and on success the stored source is the input.
    #[verifier::external_body]
    fn new_raw(source: &str) -> (r: Result<Pattern, regex::Error>)
        ensures
            r is Ok <==> regex_compiles(source@),
            r matches Ok(p) ==> p.src() == source@,
    {
        match regex::Regex::new(source) {
            Ok(re) => Ok(Pattern { re, source: source.to_owned() }),
            Err(e) => Err(e),
        }
    }

    /// Relies on regex's `Regex::is_match`, applied to the UTF-8 decoding of
    /// `text`: the result depends on the pattern source and the text alone.
    #[verifier::external_body]
    pub fn is_match(&self, text: &Vec<u8>) -> (r: bool)
        requires
            valid_utf8(text@),
        ensures
            r == regex_match(self.src(), text@),
    {
        self.re.is_match(std::str::from_utf8(text.as_slice()).unwrap())
    }
}

/// Compiles one exclusion pattern: success on exactly the sources the
/// engine accepts; an expression it rejects is an invalid external input.
pub fn parse_regex(source: &str) -> (r: Result<Pattern, TarError>)
    ensures
        r is Ok <==> regex_compiles(source@),
        r matches Ok(p) ==> p.src() == source@,
        r matches Err(e) ==> e == TarError::Configuration,
{
    match Pattern::new_raw(source) {
        Ok(p) => Ok(p),
        Err(_) => Err(TarError::Configuration),
    }
}

} // verus!
