use vstd::prelude::*;
use vstd::string::*;

use crate::error::EncodingError;

verus! {

/// The block compression applied to a page's value buffer.
#[derive(Debug, Clone, Copy, PartialEq, Eq, Structural)]
pub enum CompressionScheme {
    Uncompressed,
    Zstd,
}

/// The stable name under which a scheme is stored.
pub open spec fn scheme_name(s: CompressionScheme) -> Seq<char> {
    match s {
        CompressionScheme::Uncompressed => "none"@,
        CompressionScheme::Zstd => "zstd"@,
    }
}

/// The scheme stored under `name`, if any.
pub open spec fn scheme_named(name: Seq<char>) -> Option<CompressionScheme> {
    if name == "none"@ {
        Some(CompressionScheme::Uncompressed)
    } else if name == "zstd"@ {
        Some(CompressionScheme::Zstd)
    } else {
        None
    }
}

/// The message carried by the error for an unknown scheme name.
pub open spec fn unknown_scheme_message(name: Seq<char>) -> Seq<char> {
    "Unknown compression scheme: "@ + name
}

impl CompressionScheme {
    /// The name of the scheme, as stored in page metadata.
    pub fn to_string(&self) -> (r: String)
        ensures
            r@ == scheme_name(*self),
    {
        match self {
            CompressionScheme::Zstd => String::from_str("zstd"),
            CompressionScheme::Uncompressed => String::from_str("none"),
        }
    }
}

fn same_chars(a: &str, b: &str) -> (r: bool)
    ensures
        r == (a@ == b@),
{
    let n = a.unicode_len();
    if n != b.unicode_len() {
        return false;
    }
    let mut i: usize = 0;
    while i < n
        invariant
            n == a@.len(),
            n == b@.len(),
            i <= n,
            forall|j: int| 0 <= j < i ==> a@[j] == b@[j],
        decreases n - i,
    {
        if a.get_char(i) != b.get_char(i) {
            return false;
        }
        i = i + 1;
    }
    assert(a@ =~= b@);
    true
}

/// Reads a scheme from its stored name. Only `"none"` and `"zstd"` are
/// known, compared case-sensitively.
pub fn parse_compression_scheme(scheme: &str) -> (r: Result<CompressionScheme, EncodingError>)
    ensures
        match scheme_named(scheme@) {
            Some(s) => r == Ok::<CompressionScheme, EncodingError>(s),
            None => r matches Err(EncodingError::InvalidInput(m)) && m@ == unknown_scheme_message(
                scheme@,
            ),
        },
{
    if same_chars(scheme, "none") {
        Ok(CompressionScheme::Uncompressed)
    } else if same_chars(scheme, "zstd") {
        Ok(CompressionScheme::Zstd)
    } else {
        let mut message = String::from_str("Unknown compression scheme: ");
        message.append(scheme);
        Err(EncodingError::InvalidInput(message))
    }
}

/// Every scheme is read back from its own name: parsing is the exact
/// inverse of naming.
pub proof fn lemma_scheme_name_round_trip(s: CompressionScheme)
    ensures
        scheme_named(scheme_name(s)) == Some(s),
{
    reveal_strlit("none");
    reveal_strlit("zstd");
    assert("none"@[0] != "zstd"@[0]);
}

/// A name that is read as a scheme is that scheme's own name.
pub proof fn lemma_scheme_named_is_name(name: Seq<char>)
    requires
        scheme_named(name) is Some,
    ensures
        scheme_name(scheme_named(name)->Some_0) == name,
{
}

} // verus!
