//! Locations are plain strings with `/` separators. Joining is the library's
//! own logic; logical normalization (dropping `.` and resolving `..`) is done
//! by the `relative-path` crate behind a trusted wrapper, and resolution
//! against the working directory by `path-absolutize`.

use vstd::prelude::*;
use vstd::string::StrSliceExecFns;
use vstd::string::StringExecFns;
use path_absolutize::Absolutize;

verus! {

/// `rel` appended to `base`: an absolute `rel` replaces `base`; otherwise the
/// two are joined with a single `/` between them.
pub open spec fn join_of(base: Seq<char>, rel: Seq<char>) -> Seq<char> {
    if rel.len() > 0 && rel[0] == '/' {
        rel
    } else if base.len() == 0 {
        rel
    } else if base[base.len() - 1] == '/' {
        base + rel
    } else {
        base + seq!['/'] + rel
    }
}

/// Joins `rel` onto `base` as `join_of` describes.
pub fn join_paths(base: &str, rel: &str) -> (r: String)
    ensures
        r@ == join_of(base@, rel@),
{
    let rel_len = rel.unicode_len();
    if rel_len > 0 && rel.get_char(0) == '/' {
        return String::from_str(rel);
    }
    let base_len = base.unicode_len();
    if base_len == 0 {
        return String::from_str(rel);
    }
    if base.get_char(base_len - 1) == '/' {
        crate::text::concat_str(base, rel)
    } else {
        let mut r = String::from_str(base);
        crate::text::push_char(&mut r, '/');
        r.append(rel);
        proof {
            assert(r@ =~= base@ + seq!['/'] + rel@);
        }
        r
    }
}

/// The logical normal form of a relative path: `.` segments dropped and `..`
/// segments resolved against what precedes them.
pub uninterp spec fn normalize_of(path: Seq<char>) -> Seq<char>;

/// Relies on `relative_path::RelativePath::normalize`: a logical cleanup of
/// `.` and `..` segments whose result depends on the path string alone, and
/// which is documented to turn a path of only `.` segments into the empty
/// path.
#[verifier::external_body]
pub(crate) fn normalize_rel(path: &str) -> (r: String)
    ensures
        r@ == normalize_of(path@),
        path@ =~= "."@ ==> r@ =~= Seq::<char>::empty(),
        path@ =~= "./"@ ==> r@ =~= Seq::<char>::empty(),
{
    relative_path::RelativePath::new(path).normalize().into_string()
}

/// Relies on `path_absolutize::Absolutize::absolutize`: resolves a path
/// against the process working directory. The result depends on the
/// environment, so nothing is claimed of its value; `None` stands for an
/// unreadable working directory or a non-Unicode result.
#[verifier::external_body]
pub(crate) fn absolutize_path(path: &str) -> (r: Option<String>)
{
    match std::path::Path::new(path).absolutize() {
        Ok(p) => match p.to_str() {
            Some(s) => Some(s.to_string()),
            None => None,
        },
        Err(_) => None,
    }
}

} // verus!
