//! The native path handle.
//!
//! An `OsPath` keeps a `std::path::PathBuf` cache of its canonical form so
//! that it can be handed to real filesystem APIs.  The handle is opaque to
//! verification, so its text is given a name, [`pathbuf_text`], and each
//! trusted wrapper states what the named text is afterwards, exactly as
//! the standard library documents it for this platform's rules.

use vstd::prelude::*;

verus! {

#[verifier::external_type_specification]
#[verifier::external_body]
pub struct ExPathBuf(std::path::PathBuf);

#[verifier::external_type_specification]
#[verifier::external_body]
pub struct ExPath(std::path::Path);

/// The characters a `PathBuf` holds, as `Path::to_string_lossy` reads
/// them.  A `PathBuf` is a plain owned string of path text, so this is a
/// function of the value alone; for the handles this library builds the
/// text is valid and the lossy reading is exact.
pub uninterp spec fn pathbuf_text(p: std::path::PathBuf) -> Seq<char>;

/// The characters a borrowed `Path` slice holds.
pub uninterp spec fn path_text(p: &std::path::Path) -> Seq<char>;

/// Relies on `PathBuf::new`: makes the empty native path handle.
#[verifier::external_body]
pub(crate) fn pathbuf_new() -> (r: std::path::PathBuf)
    ensures
        pathbuf_text(r) == Seq::<char>::empty(),
{
    std::path::PathBuf::new()
}

/// Relies on `PathBuf::push`, under this platform's rules: an absolute
/// fragment (one starting with `/`) replaces the whole text; any other
/// fragment is appended, preceded by a separator unless the text is empty
/// or already ends with one.  Appending the ASCII separator and valid
/// text commutes with the lossy reading that names the handle's text.
#[verifier::external_body]
pub(crate) fn pathbuf_push(p: &mut std::path::PathBuf, s: &str)
    ensures
        pathbuf_text(*final(p)) == (if s@.len() > 0 && s@[0] == '/' {
            s@
        } else if pathbuf_text(*old(p)).len() == 0 || pathbuf_text(*old(p)).last() == '/' {
            pathbuf_text(*old(p)) + s@
        } else {
            pathbuf_text(*old(p)) + seq!['/'] + s@
        }),
{
    p.push(s);
}

/// Relies on `PathBuf::clone`: the copy holds the same text.
pub assume_specification[ <std::path::PathBuf as Clone>::clone ](
    p: &std::path::PathBuf,
) -> (r: std::path::PathBuf)
    ensures
        pathbuf_text(r) == pathbuf_text(*p),
;

/// Relies on `PathBuf::as_path`: the borrowed slice holds the entire
/// text of the handle.
#[verifier::external_body]
pub(crate) fn pathbuf_as_path<'a>(p: &'a std::path::PathBuf) -> (r: &'a std::path::Path)
    ensures
        path_text(r) == pathbuf_text(*p),
{
    p.as_path()
}

/// Relies on `Path::to_string_lossy`: the handle's text, exactly as the
/// name [`pathbuf_text`] denotes it, handed back for re-parsing.
#[verifier::external_body]
pub(crate) fn pathbuf_to_text(p: &std::path::PathBuf) -> (r: String)
    ensures
        r@ == pathbuf_text(*p),
{
    p.to_string_lossy().to_string()
}

/// Relies on `Path::exists`: asks the host filesystem whether anything
/// lives at the handle's path.  The answer depends on the machine's disk,
/// so nothing is stated of it.
#[verifier::external_body]
pub(crate) fn pathbuf_exists(p: &std::path::PathBuf) -> bool {
    p.exists()
}

} // verus!
