//! Path comparison: how a recorded path and the original location of a trash
//! entry are brought to a common form, and when one lies inside the other.

use vstd::prelude::*;
use crate::text::{ascii_lower, last_char, lower_case, lowercase, push_char, replace_char};

verus! {

/// How the file system of a platform compares paths.
#[derive(Clone, Copy, Debug, PartialEq, Eq, Structural)]
pub enum PathStyle {
    /// Paths are compared as written.
    CaseSensitive,
    /// Letter case is ignored and `\` separates components as `/` does.
    CaseInsensitive,
}

/// The one separator that compared paths use.
pub const SEPARATOR: char = '/';

/// The separator that case-insensitive platforms accept besides [`SEPARATOR`].
pub const ALTERNATE_SEPARATOR: char = '\\';

/// `path` with every separator written as [`SEPARATOR`].
pub open spec fn with_one_separator(path: Seq<char>) -> Seq<char> {
    crate::text::with_char_replaced(path, ALTERNATE_SEPARATOR, SEPARATOR)
}

/// The form under which a path is compared.
pub open spec fn normalized(path: Seq<char>, style: PathStyle) -> Seq<char> {
    match style {
        PathStyle::CaseSensitive => path,
        PathStyle::CaseInsensitive => lower_case(with_one_separator(path)),
    }
}

/// Brings `path` to the form under which `style` compares paths.
pub fn normalize_path(path: &str, style: PathStyle) -> (out: String)
    ensures
        out@ == normalized(path@, style),
{
    match style {
        PathStyle::CaseSensitive => path.to_owned(),
        PathStyle::CaseInsensitive => {
            let slashed = replace_char(path, ALTERNATE_SEPARATOR, SEPARATOR);
            lowercase(slashed.as_str())
        },
    }
}

/// Asks the standard library whether `c` separates path components here.
///
/// Trusted: stands for `std::path::is_separator`. The answer depends on the
/// platform the program was built for, so nothing is claimed of it.
#[verifier::external_body]
fn separates_components(c: char) -> bool {
    std::path::is_separator(c)
}

/// The style of the platform this program runs on: case-insensitive exactly
/// where a backslash separates path components.
pub fn host_path_style() -> PathStyle {
    path_style_where(separates_components(ALTERNATE_SEPARATOR))
}

/// The style of a platform, told by whether a backslash separates path
/// components there: where it does, letter case is ignored as well; where it
/// does not, paths are compared as written.
pub fn path_style_where(backslash_separates: bool) -> (style: PathStyle)
    ensures
        style == if backslash_separates {
            PathStyle::CaseInsensitive
        } else {
            PathStyle::CaseSensitive
        },
{
    if backslash_separates {
        PathStyle::CaseInsensitive
    } else {
        PathStyle::CaseSensitive
    }
}

/// Normalizes `path` for comparison on the platform this program runs on.
pub fn normalize_path_for_comparison(path: &str) -> (out: String)
    ensures
        out@ == normalized(path@, PathStyle::CaseSensitive) || out@ == normalized(
            path@,
            PathStyle::CaseInsensitive,
        ),
{
    normalize_path(path, host_path_style())
}

/// Where letter case is ignored, it does not matter which separator a path was
/// written with: two paths that differ in that alone are compared as one.
pub proof fn lemma_separators_do_not_matter(one: Seq<char>, other: Seq<char>)
    requires
        one.len() == other.len(),
        forall|i: int|
            0 <= i < one.len() ==> one[i] == other[i] || ((one[i] == SEPARATOR || one[i]
                == ALTERNATE_SEPARATOR) && (other[i] == SEPARATOR || other[i]
                == ALTERNATE_SEPARATOR)),
    ensures
        normalized(one, PathStyle::CaseInsensitive) == normalized(other, PathStyle::CaseInsensitive),
{
    assert(with_one_separator(one) =~= with_one_separator(other));
}

/// The character under which a character of an ASCII path is compared where
/// letter case is ignored.
pub open spec fn folded(c: char) -> char {
    ascii_lower(if c == ALTERNATE_SEPARATOR { SEPARATOR } else { c })
}

/// Where letter case is ignored, two paths within ASCII are compared as one
/// exactly when they are equally long and differ, place by place, at most in
/// the case of a letter or in which separator stands there.
pub proof fn lemma_ascii_paths_compare_folded(one: Seq<char>, other: Seq<char>)
    requires
        vstd::utf8::is_ascii_chars(one),
        vstd::utf8::is_ascii_chars(other),
    ensures
        normalized(one, PathStyle::CaseInsensitive) == normalized(other, PathStyle::CaseInsensitive)
            <==> one.len() == other.len() && forall|i: int|
            0 <= i < one.len() ==> folded(#[trigger] one[i]) == folded(other[i]),
{
    let a = with_one_separator(one);
    let b = with_one_separator(other);
    assert(vstd::utf8::is_ascii_chars(a)) by {
        assert forall|i: int| 0 <= i < a.len() implies '\0' <= #[trigger] a[i] <= '\u{7f}' by {
            assert('\0' <= one[i] <= '\u{7f}');
        }
    }
    assert(vstd::utf8::is_ascii_chars(b)) by {
        assert forall|i: int| 0 <= i < b.len() implies '\0' <= #[trigger] b[i] <= '\u{7f}' by {
            assert('\0' <= other[i] <= '\u{7f}');
        }
    }
    let na = normalized(one, PathStyle::CaseInsensitive);
    let nb = normalized(other, PathStyle::CaseInsensitive);
    assert(na.len() == one.len() && nb.len() == other.len());
    assert forall|i: int| 0 <= i < one.len() implies na[i] == folded(#[trigger] one[i]) by {}
    assert forall|i: int| 0 <= i < other.len() implies nb[i] == folded(#[trigger] other[i]) by {}
    if one.len() == other.len() && forall|i: int|
        0 <= i < one.len() ==> folded(#[trigger] one[i]) == folded(other[i]) {
        assert(na =~= nb);
    }
    if na == nb {
        assert forall|i: int| 0 <= i < one.len() implies folded(#[trigger] one[i]) == folded(
            other[i],
        ) by {
            assert(na[i] == nb[i]);
        }
    }
}

/// A normalized path read as a directory: it ends in exactly the separator it
/// had, or in one appended separator.
pub open spec fn directory_prefix(path: Seq<char>) -> Seq<char> {
    if path.len() > 0 && path.last() == SEPARATOR {
        path
    } else {
        path.push(SEPARATOR)
    }
}

/// Does the normalized path `candidate` lie inside the directory that the
/// normalized path `directory` names?
pub open spec fn lies_inside(candidate: Seq<char>, directory: Seq<char>) -> bool {
    directory_prefix(directory).is_prefix_of(candidate)
}

/// Computes [`directory_prefix`].
pub fn as_directory_prefix(path: &str) -> (out: String)
    ensures
        out@ == directory_prefix(path@),
{
    let mut out = path.to_owned();
    match last_char(path) {
        Some(c) => {
            if c != SEPARATOR {
                push_char(&mut out, SEPARATOR);
            }
        },
        None => {
            push_char(&mut out, SEPARATOR);
        },
    }
    out
}

/// A directory never claims a sibling whose name merely begins with its own:
/// whatever lies inside `directory` continues, right after the directory's
/// path, with a separator.
pub proof fn lemma_inside_needs_separator(candidate: Seq<char>, directory: Seq<char>)
    requires
        lies_inside(candidate, directory),
        !(directory.len() > 0 && directory.last() == SEPARATOR),
    ensures
        directory.is_prefix_of(candidate),
        candidate.len() > directory.len(),
        candidate[directory.len() as int] == SEPARATOR,
{
    let prefix = directory.push(SEPARATOR);
    assert(candidate.subrange(0, prefix.len() as int) == prefix);
    assert(candidate.subrange(0, prefix.len() as int)[directory.len() as int] == prefix[
        directory.len() as int
    ]);
    assert(candidate.subrange(0, directory.len() as int) =~= directory) by {
        assert forall|i: int| 0 <= i < directory.len() implies candidate[i] == directory[i] by {
            assert(candidate.subrange(0, prefix.len() as int)[i] == prefix[i]);
        }
    }
}

/// The guard against prefix collisions: a path that extends `directory` by
/// anything but a separator is not inside it.
pub proof fn lemma_sibling_is_not_inside(candidate: Seq<char>, directory: Seq<char>)
    requires
        !(directory.len() > 0 && directory.last() == SEPARATOR),
        candidate.len() <= directory.len() || candidate[directory.len() as int] != SEPARATOR,
    ensures
        !lies_inside(candidate, directory),
{
    if lies_inside(candidate, directory) {
        lemma_inside_needs_separator(candidate, directory);
    }
}

/// A path is never inside itself, and never inside a longer one.
pub proof fn lemma_inside_is_longer(candidate: Seq<char>, directory: Seq<char>)
    requires
        lies_inside(candidate, directory),
    ensures
        candidate.len() >= directory.len(),
        candidate != directory || (directory.len() > 0 && directory.last() == SEPARATOR),
{
    if !(directory.len() > 0 && directory.last() == SEPARATOR) {
        lemma_inside_needs_separator(candidate, directory);
    }
}

} // verus!
