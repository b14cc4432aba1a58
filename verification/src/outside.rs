//! The few calls into other crates and into parts of std that vstd does not
//! describe. Each item here is trusted: its contract is believed, not proved.
use vstd::prelude::*;
use rand::Rng;

verus! {

/// Calls `rand::thread_rng().gen_range(0..bound)`. The crate documents that
/// the value lies in the half-open range and that an empty range panics, so
/// the bound must be positive. Which value comes back is left open: it is
/// drawn at random.
#[verifier::external_body]
pub(crate) fn random_below(bound: u32) -> (r: u32)
    requires
        bound > 0,
    ensures
        r < bound,
{
    rand::thread_rng().gen_range(0..bound)
}

/// Calls `chrono::Local::now()` and renders it with its `Display` impl.
/// The text depends on the clock and on the machine's time zone, so nothing
/// is claimed of it.
#[verifier::external_body]
pub(crate) fn local_now_text() -> (r: String)
{
    chrono::Local::now().to_string()
}

/// Calls `String::push`, which appends one character.
#[verifier::external_body]
pub(crate) fn push_char(s: &mut String, c: char)
    ensures
        final(s)@ == old(s)@.push(c),
{
    s.push(c);
}

/// Names what `str::to_lowercase` returns for a text: the text with every
/// character replaced by its Unicode lowercase mapping. The mapping takes
/// tables to state, so only its name is used.
pub uninterp spec fn lowercase_of(s: Seq<char>) -> Seq<char>;

/// Calls `str::to_lowercase`; its result is named by `lowercase_of`. A text
/// of small ASCII letters only is its own lowercase equivalent.
#[verifier::external_body]
pub(crate) fn lowercase(s: &str) -> (r: String)
    ensures
        r@ == lowercase_of(s@),
        (forall|i: int| 0 <= i < s@.len() ==> 'a' <= #[trigger] s@[i] && s@[i] <= 'z') ==> r@ == s@,
{
    s.to_lowercase()
}

/// Names what `format!("{:?}", s)` gives for a text: the text in double
/// quotes with the characters that `char::escape_debug` names escaped.
pub uninterp spec fn debug_of(s: Seq<char>) -> Seq<char>;

/// Formats a text with `Debug`; its result is named by `debug_of`.
#[verifier::external_body]
pub(crate) fn debug_text(s: &str) -> (r: String)
    ensures
        r@ == debug_of(s@),
{
    format!("{:?}", s)
}

/// Names what `format!("{:?}", Path::new(s))` gives for a text: the path's
/// `Debug` form, in double quotes with escapes.
pub uninterp spec fn path_debug_of(s: Seq<char>) -> Seq<char>;

/// Formats a text taken as a `std::path::Path` with `Debug`; its result is
/// named by `path_debug_of`.
#[verifier::external_body]
pub(crate) fn path_debug_text(s: &str) -> (r: String)
    ensures
        r@ == path_debug_of(s@),
{
    format!("{:?}", std::path::Path::new(s))
}

/// Names what `Path::new(path).file_stem()` gives for a text: the last
/// component of the path without its extension, `None` where the path has
/// no file name.
pub uninterp spec fn file_stem_of(path: Seq<char>) -> Option<Seq<char>>;

/// Calls `std::path::Path::file_stem` on the path written `path`; the stem
/// is handed back as text. Its result is named by `file_stem_of`.
#[verifier::external_body]
pub(crate) fn file_stem_text(path: &str) -> (r: Option<String>)
    ensures
        match r {
            Some(n) => file_stem_of(path@) == Some(n@),
            None => file_stem_of(path@) is None,
        },
{
    std::path::Path::new(path).file_stem().map(|s| s.to_string_lossy().into_owned())
}

} // verus!
