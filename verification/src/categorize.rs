//! Sorting a file path into a category: source, build artifact, binary
//! asset or metadata.

use vstd::prelude::*;
use crate::model::FileCategory;
use crate::paths::{file_name_chars, file_name_or_empty};
use crate::text::{chars_of, contains, contains_chars, ends_with, ends_with_chars};

verus! {

/// What `str::to_lowercase` returns for a text: its Unicode lowercase form.
pub uninterp spec fn spec_lowercase(s: Seq<char>) -> Seq<char>;

/// An ASCII character.
pub open spec fn is_ascii_char(c: char) -> bool {
    (c as u32) < 128
}

/// The lowercase form of an ASCII character: `A` to `Z` become `a` to `z`, every other
/// character stays.
pub open spec fn ascii_lower(c: char) -> char {
    if 'A' <= c && c <= 'Z' {
        ((c as u32) + 32) as char
    } else {
        c
    }
}

/// Trusted: `str::to_lowercase`. The contract names its result; of an ASCII text it
/// states that each character is lowercased on its own, `A` to `Z` becoming `a` to `z`
/// (the Unicode lowercase mapping of ASCII, which maps every character to one). The
/// mapping of other characters is left unstated.
#[verifier::external_body]
pub(crate) fn to_lowercase(s: &str) -> (r: String)
    ensures
        r@ == spec_lowercase(s@),
        (forall|i: int| 0 <= i < s@.len() ==> is_ascii_char(#[trigger] s@[i])) ==> r@
            == s@.map_values(|c: char| ascii_lower(c)),
{
    s.to_lowercase()
}

/// A lowercased path lies under a build-output or dependency directory.
pub open spec fn in_artifact_dir(lower: Seq<char>) -> bool {
    ||| contains(lower, "node_modules/"@)
    ||| contains(lower, "vendor/"@)
    ||| contains(lower, "dist/"@)
    ||| contains(lower, "build/"@)
    ||| contains(lower, ".git/"@)
}

/// A lowercased path has the extension of a generated file.
pub open spec fn has_artifact_ext(lower: Seq<char>) -> bool {
    ||| ends_with(lower, ".min.js"@)
    ||| ends_with(lower, ".min.css"@)
    ||| ends_with(lower, ".map"@)
    ||| ends_with(lower, ".bundle.js"@)
    ||| ends_with(lower, ".chunk.js"@)
}

/// A lowercased path has the extension of an image, font, media file or archive.
pub open spec fn has_asset_ext(lower: Seq<char>) -> bool {
    ||| ends_with(lower, ".png"@)
    ||| ends_with(lower, ".jpg"@)
    ||| ends_with(lower, ".jpeg"@)
    ||| ends_with(lower, ".gif"@)
    ||| ends_with(lower, ".svg"@)
    ||| ends_with(lower, ".ico"@)
    ||| ends_with(lower, ".webp"@)
    ||| ends_with(lower, ".bmp"@)
    ||| ends_with(lower, ".tiff"@)
    ||| ends_with(lower, ".woff"@)
    ||| ends_with(lower, ".woff2"@)
    ||| ends_with(lower, ".ttf"@)
    ||| ends_with(lower, ".eot"@)
    ||| ends_with(lower, ".otf"@)
    ||| ends_with(lower, ".mp3"@)
    ||| ends_with(lower, ".mp4"@)
    ||| ends_with(lower, ".wav"@)
    ||| ends_with(lower, ".ogg"@)
    ||| ends_with(lower, ".webm"@)
    ||| ends_with(lower, ".zip"@)
    ||| ends_with(lower, ".tar"@)
    ||| ends_with(lower, ".gz"@)
}

/// A lowercased file name is one of the readme, changelog or license files.
pub open spec fn is_metadata_name(name: Seq<char>) -> bool {
    ||| name == "readme.txt"@
    ||| name == "readme.md"@
    ||| name == "changelog.md"@
    ||| name == "changelog.txt"@
    ||| name == "license.txt"@
    ||| name == "license.md"@
    ||| name == "license"@
}

/// A lowercased path has the extension of a translation file.
pub open spec fn has_translation_ext(lower: Seq<char>) -> bool {
    ||| ends_with(lower, ".pot"@)
    ||| ends_with(lower, ".po"@)
    ||| ends_with(lower, ".mo"@)
}

/// The category of a path, given its lowercase form; the first rule that applies decides.
pub open spec fn category_of_lowercase(lower: Seq<char>) -> FileCategory {
    if in_artifact_dir(lower) || has_artifact_ext(lower) {
        FileCategory::Artifact
    } else if has_asset_ext(lower) {
        FileCategory::Asset
    } else if is_metadata_name(file_name_or_empty(lower)) || has_translation_ext(lower) {
        FileCategory::Metadata
    } else {
        FileCategory::Source
    }
}

/// The category of a path.
pub open spec fn category_of(path: Seq<char>) -> FileCategory {
    category_of_lowercase(spec_lowercase(path))
}

fn has(x: &Vec<char>, p: &str) -> (b: bool)
    ensures
        b == contains(x@, p@),
{
    contains_chars(x, &chars_of(p))
}

fn ends(x: &Vec<char>, p: &str) -> (b: bool)
    ensures
        b == ends_with(x@, p@),
{
    ends_with_chars(x, &chars_of(p))
}

fn same(x: &Vec<char>, p: &str) -> (b: bool)
    ensures
        b == (x@ == p@),
{
    crate::paths::chars_eq(x, &chars_of(p))
}

/// The category of a path that is already in lowercase.
pub fn categorize_lowercase(lower: &str) -> (c: FileCategory)
    ensures
        c == category_of_lowercase(lower@),
{
    let l = chars_of(lower);
    if has(&l, "node_modules/") || has(&l, "vendor/") || has(&l, "dist/") || has(&l, "build/")
        || has(&l, ".git/") {
        return FileCategory::Artifact;
    }
    if ends(&l, ".min.js") || ends(&l, ".min.css") || ends(&l, ".map") || ends(&l, ".bundle.js")
        || ends(&l, ".chunk.js") {
        return FileCategory::Artifact;
    }
    if ends(&l, ".png") || ends(&l, ".jpg") || ends(&l, ".jpeg") || ends(&l, ".gif") || ends(
        &l,
        ".svg",
    ) || ends(&l, ".ico") || ends(&l, ".webp") || ends(&l, ".bmp") || ends(&l, ".tiff") || ends(
        &l,
        ".woff",
    ) || ends(&l, ".woff2") || ends(&l, ".ttf") || ends(&l, ".eot") || ends(&l, ".otf") || ends(
        &l,
        ".mp3",
    ) || ends(&l, ".mp4") || ends(&l, ".wav") || ends(&l, ".ogg") || ends(&l, ".webm") || ends(
        &l,
        ".zip",
    ) || ends(&l, ".tar") || ends(&l, ".gz") {
        return FileCategory::Asset;
    }
    let name = file_name_chars(&l);
    if same(&name, "readme.txt") || same(&name, "readme.md") || same(&name, "changelog.md")
        || same(&name, "changelog.txt") || same(&name, "license.txt") || same(&name, "license.md")
        || same(&name, "license") {
        return FileCategory::Metadata;
    }
    if ends(&l, ".pot") || ends(&l, ".po") || ends(&l, ".mo") {
        return FileCategory::Metadata;
    }
    FileCategory::Source
}

/// The category of a file path, decided on its lowercase form: a path under
/// `node_modules/`, `vendor/`, `dist/`, `build/` or `.git/`, or with a minified,
/// bundled or source-map extension, is an artifact; an image, font, media or archive
/// extension makes an asset; readme, changelog and license files and translation
/// files are metadata; everything else is source.
pub fn categorize_file(path: &str) -> (c: FileCategory)
    ensures
        c == category_of(path@),
        (forall|i: int| 0 <= i < path@.len() ==> is_ascii_char(#[trigger] path@[i])) ==> c
            == category_of_lowercase(path@.map_values(|ch: char| ascii_lower(ch))),
{
    let lower = to_lowercase(path);
    categorize_lowercase(lower.as_str())
}


} // verus!
