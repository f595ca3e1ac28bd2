//! Reading the header of a WordPress plugin's main file.
//!
//! A header field is a line of the form `Name: value`, optionally inside a comment
//! block with a leading `*`. The field name is matched without regard to case; the
//! value runs to the end of its line and is trimmed.

use vstd::prelude::*;
use crate::paths::{file_name_chars, file_name_or_empty};
use crate::text::{
    append_str, chars_of, ends_with, ends_with_chars, is_whitespace, is_ws, slice_chars,
    string_from_chars, string_views, trim, trim_chars,
};

verus! {

// ---------------------------------------------------------------------------
// Specification of a header field
// ---------------------------------------------------------------------------

/// The first position at or after `i` that is not whitespace.
pub open spec fn skip_ws(s: Seq<char>, i: int) -> int
    decreases s.len() - i,
{
    if 0 <= i < s.len() && is_ws(s[i]) {
        skip_ws(s, i + 1)
    } else {
        i
    }
}

/// `c` matches the pattern character `p` without regard to case, as Unicode simple
/// case folding relates them: an ASCII letter matches its other case, `s` also matches
/// `ſ` (U+017F) and `k` also matches the Kelvin sign (U+212A).
pub open spec fn ci_eq(c: char, p: char) -> bool {
    ||| c == p
    ||| ('a' <= p && p <= 'z' && (c as u32) + 32 == (p as u32))
    ||| (p == 's' && c == '\u{17F}')
    ||| (p == 'k' && c == '\u{212A}')
}

/// The field name `name` (in lowercase) occurs at position `i`, without regard to case.
pub open spec fn ci_match_at(s: Seq<char>, i: int, name: Seq<char>) -> bool {
    0 <= i && i + name.len() <= s.len() && forall|k: int|
        0 <= k < name.len() ==> ci_eq(#[trigger] s[i + k], name[k])
}

/// The end of the line that contains position `g`: the next `'\n'` or the end of the text.
pub open spec fn line_end(s: Seq<char>, g: int) -> int
    decreases s.len() - g,
{
    if 0 <= g < s.len() && s[g] != '\n' {
        line_end(s, g + 1)
    } else {
        g
    }
}

/// Where the value starts: the last position from `e` back to `d` that holds a character
/// other than `'\n'` (whitespace before the value is taken greedily, giving back only what
/// the value needs).
pub open spec fn value_start(s: Seq<char>, d: int, e: int) -> Option<int>
    decreases e - d + 1,
{
    if e < d {
        None
    } else if e < s.len() && s[e] != '\n' {
        Some(e)
    } else {
        value_start(s, d, e - 1)
    }
}

/// The raw value of field `name` in a match that starts at position `p`: whitespace, an
/// optional `*`, whitespace, the name, whitespace, `:`, whitespace, and the rest of a line
/// that is not empty.
pub open spec fn header_at(s: Seq<char>, p: int, name: Seq<char>) -> Option<Seq<char>> {
    let a = skip_ws(s, p);
    let q = if a < s.len() && s[a] == '*' {
        skip_ws(s, a + 1)
    } else {
        a
    };
    if !ci_match_at(s, q, name) {
        None
    } else {
        let c = skip_ws(s, q + name.len());
        if !(c < s.len() && s[c] == ':') {
            None
        } else {
            match value_start(s, c + 1, skip_ws(s, c + 1)) {
                Some(g) => Some(s.subrange(g, line_end(s, g))),
                None => None,
            }
        }
    }
}

/// A line starts at `p`.
pub open spec fn is_line_start(s: Seq<char>, p: int) -> bool {
    p == 0 || (0 < p <= s.len() && s[p - 1] == '\n')
}

/// The raw value of the first match of field `name` at a line start from `p` on.
pub open spec fn first_header(s: Seq<char>, name: Seq<char>, p: int) -> Option<Seq<char>>
    decreases s.len() + 1 - p,
{
    if p < 0 || p > s.len() {
        None
    } else if is_line_start(s, p) && header_at(s, p, name) is Some {
        header_at(s, p, name)
    } else {
        first_header(s, name, p + 1)
    }
}

/// The value of field `name`: the first match, trimmed, unless that leaves nothing.
pub open spec fn field_value(s: Seq<char>, name: Seq<char>) -> Option<Seq<char>> {
    match first_header(s, name, 0) {
        Some(m) => if trim(m).len() > 0 {
            Some(trim(m))
        } else {
            None
        },
        None => None,
    }
}

/// A field value, or the empty text when the field is missing.
pub open spec fn value_or_empty(v: Option<Seq<char>>) -> Seq<char> {
    match v {
        Some(x) => x,
        None => seq![],
    }
}

// ---------------------------------------------------------------------------
// Executable matching
// ---------------------------------------------------------------------------

fn skip_ws_exec(s: &Vec<char>, i: usize) -> (r: usize)
    requires
        i <= s.len(),
    ensures
        r == skip_ws(s@, i as int),
        i <= r <= s.len(),
{
    let mut k = i;
    while k < s.len() && is_whitespace(s[k])
        invariant
            i <= k <= s.len(),
            skip_ws(s@, i as int) == skip_ws(s@, k as int),
        decreases s.len() - k,
    {
        k += 1;
    }
    k
}

fn ci_eq_exec(c: char, p: char) -> (b: bool)
    ensures
        b == ci_eq(c, p),
{
    c == p || ('a' <= p && p <= 'z' && (c as u32) + 32 == (p as u32)) || (p == 's' && c
        == '\u{17F}') || (p == 'k' && c == '\u{212A}')
}

fn ci_match_exec(s: &Vec<char>, i: usize, name: &Vec<char>) -> (b: bool)
    ensures
        b == ci_match_at(s@, i as int, name@),
{
    if i > s.len() || name.len() > s.len() - i {
        return false;
    }
    let mut k: usize = 0;
    while k < name.len()
        invariant
            i + name.len() <= s.len(),
            k <= name.len(),
            forall|j: int| 0 <= j < k ==> ci_eq(#[trigger] s@[i + j], name@[j]),
        decreases name.len() - k,
    {
        if !ci_eq_exec(s[i + k], name[k]) {
            return false;
        }
        k += 1;
    }
    true
}

fn line_end_exec(s: &Vec<char>, g: usize) -> (r: usize)
    requires
        g <= s.len(),
    ensures
        r == line_end(s@, g as int),
        g <= r <= s.len(),
{
    let mut k = g;
    while k < s.len() && s[k] != '\n'
        invariant
            g <= k <= s.len(),
            line_end(s@, g as int) == line_end(s@, k as int),
        decreases s.len() - k,
    {
        k += 1;
    }
    k
}

fn value_start_exec(s: &Vec<char>, d: usize, e: usize) -> (r: Option<usize>)
    requires
        d <= e,
        e <= s.len(),
    ensures
        match r {
            Some(g) => value_start(s@, d as int, e as int) == Some(g as int) && g < s.len(),
            None => value_start(s@, d as int, e as int) is None,
        },
{
    let mut k = e;
    loop
        invariant
            d <= k <= e <= s.len(),
            value_start(s@, d as int, e as int) == value_start(s@, d as int, k as int),
        decreases k,
    {
        if k < s.len() && s[k] != '\n' {
            return Some(k);
        }
        if k == d {
            assert(value_start(s@, d as int, d - 1) is None);
            return None;
        }
        k -= 1;
    }
}

fn header_at_exec(s: &Vec<char>, p: usize, name: &Vec<char>) -> (r: Option<Vec<char>>)
    requires
        p <= s.len(),
    ensures
        match r {
            Some(v) => header_at(s@, p as int, name@) == Some(v@),
            None => header_at(s@, p as int, name@) is None,
        },
{
    let a = skip_ws_exec(s, p);
    let q = if a < s.len() && s[a] == '*' { skip_ws_exec(s, a + 1) } else { a };
    if !ci_match_exec(s, q, name) {
        return None;
    }
    let c = skip_ws_exec(s, q + name.len());
    if !(c < s.len() && s[c] == ':') {
        return None;
    }
    let e = skip_ws_exec(s, c + 1);
    match value_start_exec(s, c + 1, e) {
        Some(g) => {
            let end = line_end_exec(s, g);
            Some(slice_chars(s, g, end))
        },
        None => None,
    }
}

fn first_header_exec(s: &Vec<char>, name: &Vec<char>) -> (r: Option<Vec<char>>)
    ensures
        match r {
            Some(v) => first_header(s@, name@, 0) == Some(v@),
            None => first_header(s@, name@, 0) is None,
        },
{
    let mut p: usize = 0;
    while p < s.len()
        invariant
            p <= s.len(),
            first_header(s@, name@, 0) == first_header(s@, name@, p as int),
        decreases s.len() - p,
    {
        let start = p == 0 || s[p - 1] == '\n';
        if start {
            match header_at_exec(s, p, name) {
                Some(v) => {
                    return Some(v);
                },
                None => {},
            }
        }
        p += 1;
    }
    let start = p == 0 || s[p - 1] == '\n';
    if start {
        match header_at_exec(s, p, name) {
            Some(v) => {
                return Some(v);
            },
            None => {},
        }
    }
    assert(first_header(s@, name@, p + 1) is None);
    None
}

/// The value of a header field, trimmed, if the field is present with a value.
fn field_value_exec(s: &Vec<char>, name: &str) -> (r: Option<Vec<char>>)
    ensures
        match r {
            Some(v) => field_value(s@, name@) == Some(v@),
            None => field_value(s@, name@) is None,
        },
{
    let n = chars_of(name);
    match first_header_exec(s, &n) {
        Some(m) => {
            let t = trim_chars(&m);
            if t.len() > 0 {
                Some(t)
            } else {
                None
            }
        },
        None => None,
    }
}

// ---------------------------------------------------------------------------
// Plugin metadata
// ---------------------------------------------------------------------------

/// What a plugin's main file says about it, and where it is.
#[derive(Clone, Debug)]
pub struct PluginMeta {
    pub slug: String,
    pub name: String,
    pub version: String,
    pub text_domain: String,
    pub dir: String,
    pub main_file: String,
}

/// The metadata that a main file with `content`, in directory `dir`, yields: none
/// without a `Plugin Name` field; otherwise the slug is the directory's name, and a
/// missing `Version` or `Text Domain` is empty.
pub open spec fn header_meta_ok(m: PluginMeta, main_file: Seq<char>, dir: Seq<char>, content: Seq<char>) -> bool {
    &&& field_value(content, "plugin name"@) == Some(m.name@)
    &&& m.version@ == value_or_empty(field_value(content, "version"@))
    &&& m.text_domain@ == value_or_empty(field_value(content, "text domain"@))
    &&& m.slug@ == file_name_or_empty(dir)
    &&& m.dir@ == dir
    &&& m.main_file@ == main_file
}

fn field_or_empty(s: &Vec<char>, name: &str) -> (r: String)
    ensures
        r@ == value_or_empty(field_value(s@, name@)),
{
    match field_value_exec(s, name) {
        Some(v) => string_from_chars(&v),
        None => String::new(),
    }
}

/// Reads the plugin header in the content of the file `main_file`, which lies in
/// directory `dir`. Without a `Plugin Name` field the file is no plugin's main file.
pub fn parse_plugin_header(main_file: &str, dir: &str, content: &str) -> (r: Option<PluginMeta>)
    ensures
        match r {
            Some(m) => header_meta_ok(m, main_file@, dir@, content@),
            None => field_value(content@, "plugin name"@) is None,
        },
{
    let s = chars_of(content);
    let name = match field_value_exec(&s, "plugin name") {
        Some(n) => string_from_chars(&n),
        None => {
            return None;
        },
    };
    let d = chars_of(dir);
    let slug = string_from_chars(&file_name_chars(&d));
    Some(
        PluginMeta {
            slug,
            name,
            version: field_or_empty(&s, "version"),
            text_domain: field_or_empty(&s, "text domain"),
            dir: dir.to_owned(),
            main_file: main_file.to_owned(),
        },
    )
}


// ---------------------------------------------------------------------------
// Finding plugins
// ---------------------------------------------------------------------------

/// `rel` joined onto `base` as `Path::join` does it on Unix: an absolute `rel` replaces
/// `base`; otherwise a `/` separates them unless `base` is empty or already ends with one.
pub open spec fn join_path(base: Seq<char>, rel: Seq<char>) -> Seq<char> {
    if rel.len() > 0 && rel[0] == '/' {
        rel
    } else if base.len() == 0 || base.last() == '/' {
        base + rel
    } else {
        base + seq!['/'] + rel
    }
}

/// Joins a path onto another.
pub fn join(base: &str, rel: &str) -> (r: String)
    ensures
        r@ == join_path(base@, rel@),
{
    let b = chars_of(base);
    let r = chars_of(rel);
    if r.len() > 0 && r[0] == '/' {
        return rel.to_owned();
    }
    let mut v = slice_chars(&b, 0, b.len());
    assert(v@ =~= b@);
    if !(b.len() == 0 || b[b.len() - 1] == '/') {
        v.push('/');
    }
    crate::text::extend_chars(&mut v, &r);
    assert(v@ =~= join_path(base@, rel@));
    string_from_chars(&v)
}

/// Why a plugin or the plugins directory was not found.
#[derive(Clone, Copy, Debug, PartialEq, Eq, Structural)]
pub enum LookupError {
    /// None of the places a plugins directory may be is a directory.
    PluginsDirNotFound,
    /// None of the places the plugin may be is a directory.
    PluginNotFound,
    /// No PHP file of the directory has a plugin header.
    NoPluginHeader,
}

/// The first candidate that is a directory, as told by `is_dir` (one flag per candidate,
/// missing flags counting as no).
pub open spec fn first_dir(cands: Seq<Seq<char>>, is_dir: Seq<bool>) -> Option<Seq<char>>
    decreases cands.len(),
{
    if cands.len() == 0 || is_dir.len() == 0 {
        None
    } else if is_dir[0] {
        Some(cands[0])
    } else {
        first_dir(cands.drop_first(), is_dir.drop_first())
    }
}

/// The first candidate that is a directory.
fn first_existing(cands: &Vec<String>, is_dir: &Vec<bool>) -> (r: Option<String>)
    ensures
        match r {
            Some(c) => first_dir(string_views(cands@), is_dir@) == Some(c@),
            None => first_dir(string_views(cands@), is_dir@) is None,
        },
{
    let ghost cv = string_views(cands@);
    let mut i: usize = 0;
    assert(cv.skip(0) =~= cv && is_dir@.skip(0) =~= is_dir@);
    while i < cands.len() && i < is_dir.len()
        invariant
            i <= cands.len(),
            cv == string_views(cands@),
            cv.len() == cands.len(),
            i <= is_dir.len(),
            first_dir(cv, is_dir@) == first_dir(cv.skip(i as int), is_dir@.skip(i as int)),
        decreases cands.len() - i,
    {
        assert(cv.skip(i as int).drop_first() =~= cv.skip(i + 1));
        assert(is_dir@.skip(i as int).drop_first() =~= is_dir@.skip(i + 1));
        if is_dir[i] {
            return Some(cands[i].clone());
        }
        i += 1;
    }
    assert(cv.skip(i as int).len() == 0 || is_dir@.skip(i as int).len() == 0);
    None
}

/// Where the plugins directory of a WordPress installation at `path` may be, in order:
/// `wp-content/plugins`, then `plugins`, then `path` itself.
pub open spec fn plugins_dir_candidates_of(path: Seq<char>) -> Seq<Seq<char>> {
    seq![join_path(path, "wp-content/plugins"@), join_path(path, "plugins"@), path]
}

/// The places to look for the plugins directory of the installation at `path`.
pub fn plugins_dir_candidates(path: &str) -> (r: Vec<String>)
    ensures
        string_views(r@) == plugins_dir_candidates_of(path@),
{
    let mut r: Vec<String> = Vec::new();
    r.push(join(path, "wp-content/plugins"));
    r.push(join(path, "plugins"));
    r.push(path.to_owned());
    assert(string_views(r@) =~= plugins_dir_candidates_of(path@));
    r
}

/// The plugins directory of the installation at `path`: the first of its candidates that
/// `is_dir` marks as a directory.
pub fn find_plugins_dir(path: &str, is_dir: &Vec<bool>) -> (r: Result<String, LookupError>)
    ensures
        match r {
            Ok(d) => first_dir(plugins_dir_candidates_of(path@), is_dir@) == Some(d@),
            Err(e) => first_dir(plugins_dir_candidates_of(path@), is_dir@) is None && e
                == LookupError::PluginsDirNotFound,
        },
{
    match first_existing(&plugins_dir_candidates(path), is_dir) {
        Some(d) => Ok(d),
        None => Err(LookupError::PluginsDirNotFound),
    }
}

/// Where a plugin named by `arg` may be, in order: `arg` itself when it is absolute;
/// `arg` under the base directory; then `wp-content/plugins/<arg>` under the base
/// directory and each of its ancestors, nearest first (`ancestors` starts with the base
/// directory itself).
pub open spec fn plugin_path_candidates_of(
    arg: Seq<char>,
    base: Seq<char>,
    ancestors: Seq<Seq<char>>,
) -> Seq<Seq<char>> {
    (if arg.len() > 0 && arg[0] == '/' {
        seq![arg]
    } else {
        seq![]
    }) + seq![join_path(base, arg)] + ancestors.map_values(
        |a: Seq<char>| join_path(join_path(a, "wp-content/plugins"@), arg),
    )
}

/// The places to look for the plugin named by `arg`.
pub fn plugin_path_candidates(arg: &str, base: &str, ancestors: &Vec<String>) -> (r: Vec<String>)
    ensures
        string_views(r@) == plugin_path_candidates_of(arg@, base@, string_views(ancestors@)),
{
    let a = chars_of(arg);
    let mut r: Vec<String> = Vec::new();
    if a.len() > 0 && a[0] == '/' {
        r.push(arg.to_owned());
    }
    r.push(join(base, arg));
    let ghost head = string_views(r@);
    let ghost av = string_views(ancestors@);
    let mut i: usize = 0;
    while i < ancestors.len()
        invariant
            i <= ancestors.len(),
            av == string_views(ancestors@),
            string_views(r@) == head + av.take(i as int).map_values(
                |x: Seq<char>| join_path(join_path(x, "wp-content/plugins"@), arg@),
            ),
        decreases ancestors.len() - i,
    {
        let c = join(join(ancestors[i].as_str(), "wp-content/plugins").as_str(), arg);
        let ghost before = string_views(r@);
        r.push(c);
        assert(string_views(r@) =~= before.push(c@));
        assert(av.take(i + 1).map_values(
            |x: Seq<char>| join_path(join_path(x, "wp-content/plugins"@), arg@),
        ) =~= av.take(i as int).map_values(
            |x: Seq<char>| join_path(join_path(x, "wp-content/plugins"@), arg@),
        ).push(c@));
        i += 1;
    }
    assert(av.take(ancestors.len() as int) =~= av);
    assert(string_views(r@) =~= plugin_path_candidates_of(arg@, base@, av));
    r
}

/// The directory of the plugin named by `arg`: the first of its candidates that `is_dir`
/// marks as a directory.
pub fn resolve_plugin_path(arg: &str, base: &str, ancestors: &Vec<String>, is_dir: &Vec<bool>) -> (r:
    Result<String, LookupError>)
    ensures
        match r {
            Ok(d) => first_dir(
                plugin_path_candidates_of(arg@, base@, string_views(ancestors@)),
                is_dir@,
            ) == Some(d@),
            Err(e) => first_dir(
                plugin_path_candidates_of(arg@, base@, string_views(ancestors@)),
                is_dir@,
            ) is None && e == LookupError::PluginNotFound,
        },
{
    match first_existing(&plugin_path_candidates(arg, base, ancestors), is_dir) {
        Some(d) => Ok(d),
        None => Err(LookupError::PluginNotFound),
    }
}

/// A file name whose extension, as `Path::extension` reads it, is `php`: it ends with
/// `.php` after at least one other character.
pub open spec fn is_php_name(name: Seq<char>) -> bool {
    name.len() > 4 && ends_with(name, ".php"@)
}

/// Whether a file of this name is a PHP file.
pub fn is_php_file(name: &str) -> (b: bool)
    ensures
        b == is_php_name(name@),
{
    let n = chars_of(name);
    n.len() > 4 && ends_with_chars(&n, &chars_of(".php"))
}

/// A PHP file of a plugin directory, read.
#[derive(Clone, Debug)]
pub struct PhpFile {
    pub path: String,
    pub content: String,
}

/// The index of the first file with a `Plugin Name` field.
pub open spec fn first_with_header(files: Seq<PhpFile>, from: int) -> Option<int>
    decreases files.len() - from,
{
    if from < 0 || from >= files.len() {
        None
    } else if field_value(files[from].content@, "plugin name"@) is Some {
        Some(from)
    } else {
        first_with_header(files, from + 1)
    }
}

/// The plugin in directory `dir`, given its PHP files in the order the directory lists
/// them: the first one with a plugin header is the main file; an error when none has one.
pub fn discover_plugin(dir: &str, files: &Vec<PhpFile>) -> (r: Result<PluginMeta, LookupError>)
    ensures
        match r {
            Ok(m) => first_with_header(files@, 0) matches Some(k) && header_meta_ok(
                m,
                files@[k].path@,
                dir@,
                files@[k].content@,
            ),
            Err(e) => first_with_header(files@, 0) is None && e == LookupError::NoPluginHeader,
        },
{
    let mut i: usize = 0;
    while i < files.len()
        invariant
            i <= files.len(),
            first_with_header(files@, 0) == first_with_header(files@, i as int),
        decreases files.len() - i,
    {
        match parse_plugin_header(files[i].path.as_str(), dir, files[i].content.as_str()) {
            Some(m) => {
                return Ok(m);
            },
            None => {},
        }
        i += 1;
    }
    Err(LookupError::NoPluginHeader)
}

} // verus!
