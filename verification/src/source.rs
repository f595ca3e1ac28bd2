//! Upstream plugins on wordpress.org: the addresses an archive is downloaded from,
//! what each archive entry becomes once the top directory is stripped, the reading of
//! the plugin-information reply, and the list of released versions in version order.

use vstd::prelude::*;
use crate::text::{append_str, chars_of, slice_chars, str_eq, string_from_chars, string_views};

verus! {

// ---------------------------------------------------------------------------
// Archive entries
// ---------------------------------------------------------------------------

/// What follows the first `/` of an archive path, or nothing when there is no `/`.
pub open spec fn strip_top(s: Seq<char>) -> Seq<char>
    decreases s.len(),
{
    if s.len() == 0 {
        seq![]
    } else if s[0] == '/' {
        s.drop_first()
    } else {
        strip_top(s.drop_first())
    }
}

/// An archive path relative to the plugin's top directory: what follows the first `/`,
/// or the empty text when there is no `/`.
pub fn strip_top_dir(zip_path: &str) -> (r: String)
    ensures
        r@ == strip_top(zip_path@),
{
    let s = chars_of(zip_path);
    let mut i: usize = 0;
    assert(s@.skip(0) =~= s@);
    while i < s.len() && s[i] != '/'
        invariant
            i <= s.len(),
            strip_top(s@) == strip_top(s@.skip(i as int)),
        decreases s.len() - i,
    {
        assert(s@.skip(i as int).drop_first() =~= s@.skip(i + 1));
        i += 1;
    }
    if i == s.len() {
        assert(s@.skip(i as int) =~= Seq::<char>::empty());
        String::new()
    } else {
        assert(s@.skip(i as int).drop_first() =~= s@.subrange(i + 1, s.len() as int));
        string_from_chars(&slice_chars(&s, i + 1, s.len()))
    }
}

/// An entry under the top directory `top` (a name without `/`) is extracted at its path
/// relative to that directory.
pub proof fn lemma_strip_top_relative(top: Seq<char>, rel: Seq<char>)
    requires
        !top.contains('/'),
    ensures
        strip_top(top + seq!['/'] + rel) == rel,
    decreases top.len(),
{
    let s = top + seq!['/'] + rel;
    if top.len() == 0 {
        assert(s[0] == '/');
        assert(s.drop_first() =~= rel);
    } else {
        assert(top[0] != '/');
        assert(s[0] == top[0]);
        assert(!top.drop_first().contains('/')) by {
            if top.drop_first().contains('/') {
                let k = choose|k: int| 0 <= k < top.drop_first().len() && top.drop_first()[k] == '/';
                assert(top[k + 1] == '/');
            }
        }
        assert(s.drop_first() =~= top.drop_first() + seq!['/'] + rel);
        lemma_strip_top_relative(top.drop_first(), rel);
    }
}

/// What extracting one archive entry does.
#[derive(Clone, Debug, PartialEq, Eq)]
pub enum EntryAction {
    /// The entry is the top directory itself (or lies outside any directory): nothing.
    Skip,
    /// Create the directory at this relative path.
    Directory(String),
    /// Write the file at this relative path.
    File(String),
}

/// The entry's name ends with `/`, the mark of a directory entry.
pub open spec fn is_dir_entry(name: Seq<char>) -> bool {
    name.len() > 0 && name.last() == '/'
}

/// What to do with the archive entry `name`: nothing when its relative path is empty,
/// otherwise create a directory (for a name that ends with `/`) or write a file there.
pub fn entry_action(name: &str) -> (r: EntryAction)
    ensures
        match r {
            EntryAction::Skip => strip_top(name@).len() == 0,
            EntryAction::Directory(p) => strip_top(name@).len() > 0 && is_dir_entry(name@) && p@
                == strip_top(name@),
            EntryAction::File(p) => strip_top(name@).len() > 0 && !is_dir_entry(name@) && p@
                == strip_top(name@),
        },
{
    let rel = strip_top_dir(name);
    let n = chars_of(name);
    let rc = chars_of(rel.as_str());
    if rc.len() == 0 {
        EntryAction::Skip
    } else if n.len() > 0 && n[n.len() - 1] == '/' {
        EntryAction::Directory(rel)
    } else {
        EntryAction::File(rel)
    }
}

/// An archive entry as plain values.
pub open spec fn entry_view(e: (String, Option<Vec<u8>>)) -> (Seq<char>, Option<Seq<u8>>) {
    (
        e.0@,
        match e.1 {
            Some(d) => Some(d@),
            None => None,
        },
    )
}

/// The entries of an archive as plain values, when it could be opened.
pub open spec fn zip_view(r: Option<Vec<(String, Option<Vec<u8>>)>>) -> Option<
    Seq<(Seq<char>, Option<Seq<u8>>)>,
> {
    match r {
        Some(v) => Some(v@.map_values(|e: (String, Option<Vec<u8>>)| entry_view(e))),
        None => None,
    }
}

/// What the `zip` crate reads from an archive: each entry in order, with its name and its
/// contents (none when they cannot be read); nothing when the bytes do not open as an
/// archive or an entry cannot be found.
pub uninterp spec fn spec_zip_entries(bytes: Seq<u8>) -> Option<Seq<(Seq<char>, Option<Seq<u8>>)>>;

/// Trusted: `zip::ZipArchive::new` over the bytes, then `by_index` and `name` for each
/// entry in order, and `read_to_end` of its contents; a failure to open the archive or to
/// find an entry gives nothing, a failure to read an entry's contents gives no contents
/// for it. The contract names the result; the archive format is left unstated.
#[verifier::external_body]
fn zip_entries(bytes: &Vec<u8>) -> (r: Option<Vec<(String, Option<Vec<u8>>)>>)
    ensures
        zip_view(r) == spec_zip_entries(bytes@),
{
    let mut archive = zip::ZipArchive::new(std::io::Cursor::new(bytes.as_slice())).ok()?;
    let mut entries = Vec::new();
    for i in 0..archive.len() {
        let mut file = archive.by_index(i).ok()?;
        let mut data = Vec::new();
        let read = std::io::Read::read_to_end(&mut file, &mut data).ok().map(|_| data);
        entries.push((file.name().to_string(), read));
    }
    Some(entries)
}

/// One step of extracting an archive: a directory to create, or a file to write with
/// its contents, at a path relative to the plugin's top directory.
#[derive(Clone, Debug, PartialEq, Eq)]
pub struct ExtractEntry {
    pub path: String,
    pub is_dir: bool,
    pub contents: Vec<u8>,
}

/// Why an archive could not be extracted.
#[derive(Clone, Copy, Debug, PartialEq, Eq, Structural)]
pub enum ExtractError {
    /// The bytes do not open as an archive, or an entry cannot be found.
    NotAnArchive,
    /// The contents of a file to be written cannot be read.
    UnreadableEntry,
}

/// The steps for archive entries, in order: each entry at its path relative to the top
/// directory, a directory when its name ends with `/` (nothing to read), a file with its
/// contents otherwise; entries with an empty relative path are left out unread. Nothing
/// when a file to be written cannot be read.
pub open spec fn entry_plan(es: Seq<(Seq<char>, Option<Seq<u8>>)>) -> Option<
    Seq<(Seq<char>, bool, Seq<u8>)>,
>
    decreases es.len(),
{
    if es.len() == 0 {
        Some(seq![])
    } else {
        match entry_plan(es.drop_last()) {
            None => None,
            Some(rest) => {
                let (name, data) = es.last();
                if strip_top(name).len() == 0 {
                    Some(rest)
                } else if is_dir_entry(name) {
                    Some(rest.push((strip_top(name), true, Seq::<u8>::empty())))
                } else {
                    match data {
                        Some(d) => Some(rest.push((strip_top(name), false, d))),
                        None => None,
                    }
                }
            },
        }
    }
}

/// Once a plan fails, no longer run of entries has one.
proof fn lemma_entry_plan_stays_failed(es: Seq<(Seq<char>, Option<Seq<u8>>)>, k: int, m: int)
    requires
        0 <= k <= m <= es.len(),
        entry_plan(es.take(k)) is None,
    ensures
        entry_plan(es.take(m)) is None,
    decreases m - k,
{
    if k < m {
        lemma_entry_plan_stays_failed(es, k, m - 1);
        assert(es.take(m).drop_last() =~= es.take(m - 1));
    }
}

/// The steps as plain values.
pub open spec fn plan_view(v: Seq<ExtractEntry>) -> Seq<(Seq<char>, bool, Seq<u8>)> {
    v.map_values(|e: ExtractEntry| (e.path@, e.is_dir, e.contents@))
}

/// What extracting the downloaded archive `bytes` does: for each entry in order, create
/// its directory or write its file, relative to the top directory; an error when the
/// bytes do not open as an archive, or when a file to be written cannot be read.
pub fn extraction_plan(bytes: &Vec<u8>) -> (r: Result<Vec<ExtractEntry>, ExtractError>)
    ensures
        spec_zip_entries(bytes@) is None <==> r == Err::<Vec<ExtractEntry>, ExtractError>(
            ExtractError::NotAnArchive,
        ),
        match spec_zip_entries(bytes@) {
            Some(es) => match entry_plan(es) {
                Some(pl) => r matches Ok(v) && plan_view(v@) == pl,
                None => r == Err::<Vec<ExtractEntry>, ExtractError>(ExtractError::UnreadableEntry),
            },
            None => true,
        },
{
    let entries = match zip_entries(bytes) {
        Some(es) => es,
        None => {
            return Err(ExtractError::NotAnArchive);
        },
    };
    let ghost es = entries@.map_values(|e: (String, Option<Vec<u8>>)| entry_view(e));
    let n = entries.len();
    let mut rest = entries;
    let mut plan: Vec<ExtractEntry> = Vec::new();
    let mut i: usize = 0;
    assert(es.take(0) =~= Seq::<(Seq<char>, Option<Seq<u8>>)>::empty());
    while rest.len() > 0
        invariant
            i + rest.len() == n,
            es.len() == n,
            spec_zip_entries(bytes@) == Some(es),
            forall|k: int| 0 <= k < rest.len() ==> entry_view(#[trigger] rest@[k]) == es[i + k],
            entry_plan(es.take(i as int)) == Some(plan_view(plan@)),
        decreases rest.len(),
    {
        let ghost before = rest@;
        assert(entry_view(before[0]) == es[i + 0]);
        let (name, data) = rest.remove(0);
        assert(entry_view((name, data)) == es[i as int]);
        assert forall|k: int| 0 <= k < rest.len() implies entry_view(#[trigger] rest@[k]) == es[i
            + 1 + k] by {
            assert(rest@[k] == before[k + 1]);
            assert(entry_view(before[k + 1]) == es[i + (k + 1)]);
        }
        proof {
            assert(es.take(i + 1).drop_last() =~= es.take(i as int));
            assert(es.take(i + 1).last() == es[i as int]);
        }
        let ghost pv = plan_view(plan@);
        match entry_action(name.as_str()) {
            EntryAction::Skip => {},
            EntryAction::Directory(p) => {
                plan.push(ExtractEntry { path: p, is_dir: true, contents: Vec::new() });
                assert(plan_view(plan@) =~= pv.push((strip_top(name@), true, Seq::<u8>::empty())));
            },
            EntryAction::File(p) => {
                match data {
                    Some(d) => {
                        assert(es[i as int].1 == Some(d@));
                        plan.push(ExtractEntry { path: p, is_dir: false, contents: d });
                        assert(plan_view(plan@) =~= pv.push((strip_top(name@), false, es[i as int].1->0)));
                    },
                    None => {
                        proof {
                            lemma_entry_plan_stays_failed(es, i + 1, n as int);
                            assert(es.take(n as int) =~= es);
                        }
                        return Err(ExtractError::UnreadableEntry);
                    },
                }
            },
        }
        i += 1;
    }
    assert(es.take(n as int) =~= es);
    Ok(plan)
}

/// What a download's HTTP status means.
#[derive(Clone, Copy, Debug, PartialEq, Eq, Structural)]
pub enum DownloadStatus {
    /// A success status: the body is the archive.
    Ready,
    /// 404: no archive for this plugin or version.
    NotFound,
    /// Any other status.
    Failed,
}

/// 404 means no such archive; a 2xx status means the body is the archive; any other
/// status is a failure.
pub open spec fn download_status_of(code: u16) -> DownloadStatus {
    if code == 404 {
        DownloadStatus::NotFound
    } else if 200 <= code && code < 300 {
        DownloadStatus::Ready
    } else {
        DownloadStatus::Failed
    }
}

/// What the HTTP status of a download means.
pub fn download_status(code: u16) -> (s: DownloadStatus)
    ensures
        s == download_status_of(code),
{
    if code == 404 {
        DownloadStatus::NotFound
    } else if 200 <= code && code < 300 {
        DownloadStatus::Ready
    } else {
        DownloadStatus::Failed
    }
}

// ---------------------------------------------------------------------------
// Download addresses
// ---------------------------------------------------------------------------

/// Where wordpress.org serves plugin archives.
pub open spec fn download_base() -> Seq<char> {
    "https://downloads.wordpress.org/plugin/"@
}

/// The archives to try, in order: the given version's, then the current release's; only
/// the current release's when no version is known.
pub open spec fn download_urls_of(slug: Seq<char>, version: Seq<char>) -> Seq<Seq<char>> {
    if version.len() == 0 {
        seq![download_base() + slug + ".zip"@]
    } else {
        seq![download_base() + slug + "."@ + version + ".zip"@, download_base() + slug + ".zip"@]
    }
}

/// The version an archive is fetched for: the requested one, else the installed one.
pub open spec fn fetch_version(requested: Option<Seq<char>>, installed: Seq<char>) -> Seq<char> {
    match requested {
        Some(v) => v,
        None => installed,
    }
}

/// The addresses to try, in order, for the archive of plugin `slug` at the requested
/// version, or at the installed version when none is requested.
pub fn download_urls(slug: &str, requested: Option<&str>, installed: &str) -> (r: Vec<String>)
    ensures
        string_views(r@) == download_urls_of(
            slug@,
            fetch_version(
                match requested {
                    Some(v) => Some(v@),
                    None => None,
                },
                installed@,
            ),
        ),
{
    let ver: &str = match requested {
        Some(v) => v,
        None => installed,
    };
    let mut latest: Vec<char> = Vec::new();
    append_str(&mut latest, "https://downloads.wordpress.org/plugin/");
    append_str(&mut latest, slug);
    append_str(&mut latest, ".zip");
    let vc = chars_of(ver);
    let mut r: Vec<String> = Vec::new();
    if vc.len() > 0 {
        let mut pinned: Vec<char> = Vec::new();
        append_str(&mut pinned, "https://downloads.wordpress.org/plugin/");
        append_str(&mut pinned, slug);
        append_str(&mut pinned, ".");
        append_str(&mut pinned, ver);
        append_str(&mut pinned, ".zip");
        r.push(string_from_chars(&pinned));
    }
    r.push(string_from_chars(&latest));
    assert(string_views(r@) =~= download_urls_of(slug@, ver@));
    r
}

/// The address of the plugin information that wordpress.org gives for `slug`, with
/// its list of versions.
pub open spec fn info_url_of(slug: Seq<char>) -> Seq<char> {
    "https://api.wordpress.org/plugins/info/1.2/?action=plugin_information&slug="@ + slug
        + "&fields=versions"@
}

/// The address to ask for the information on plugin `slug`.
pub fn info_url(slug: &str) -> (r: String)
    ensures
        r@ == info_url_of(slug@),
{
    let mut u: Vec<char> = Vec::new();
    append_str(&mut u, "https://api.wordpress.org/plugins/info/1.2/?action=plugin_information&slug=");
    append_str(&mut u, slug);
    append_str(&mut u, "&fields=versions");
    string_from_chars(&u)
}


// ---------------------------------------------------------------------------
// Version numbers
// ---------------------------------------------------------------------------

/// An ASCII decimal digit.
pub open spec fn is_digit(c: char) -> bool {
    '0' <= c && c <= '9'
}

/// Every character is a decimal digit.
pub open spec fn all_digits(s: Seq<char>) -> bool {
    forall|i: int| 0 <= i < s.len() ==> is_digit(#[trigger] s[i])
}

/// The number that a run of decimal digits writes.
pub open spec fn digits_value(s: Seq<char>) -> nat
    decreases s.len(),
{
    if s.len() == 0 {
        0
    } else {
        digits_value(s.drop_last()) * 10 + ((s.last() as int) - ('0' as int)) as nat
    }
}

/// How `u64` reads a text: an optional `+`, then one or more decimal digits whose value
/// fits in 64 bits.
pub open spec fn parse_u64_of(s: Seq<char>) -> Option<u64> {
    let d = if s.len() > 0 && s[0] == '+' {
        s.drop_first()
    } else {
        s
    };
    if d.len() > 0 && all_digits(d) && digits_value(d) <= u64::MAX {
        Some(digits_value(d) as u64)
    } else {
        None
    }
}

/// A prefix of a run of digits writes no larger a number than the whole run.
proof fn lemma_digits_prefix(s: Seq<char>, k: int)
    requires
        all_digits(s),
        0 <= k <= s.len(),
    ensures
        digits_value(s.take(k)) <= digits_value(s),
    decreases s.len(),
{
    if k < s.len() {
        assert(s.drop_last().take(k) =~= s.take(k));
        lemma_digits_prefix(s.drop_last(), k);
    } else {
        assert(s.take(k) =~= s);
    }
}

/// Reads a number the way `u64` parses text.
fn parse_u64(part: &Vec<char>) -> (r: Option<u64>)
    ensures
        r == parse_u64_of(part@),
{
    let start: usize = if part.len() > 0 && part[0] == '+' { 1 } else { 0 };
    let ghost d = part@.subrange(start as int, part.len() as int);
    assert(d =~= (if part@.len() > 0 && part@[0] == '+' { part@.drop_first() } else { part@ }));
    if start == part.len() {
        return None;
    }
    let mut v: u64 = 0;
    let mut i: usize = start;
    assert(d.take(0) =~= Seq::<char>::empty());
    while i < part.len()
        invariant
            start <= i <= part.len(),
            start < part.len(),
            d == part@.subrange(start as int, part.len() as int),
            d == (if part@.len() > 0 && part@[0] == '+' { part@.drop_first() } else { part@ }),
            all_digits(d.take(i - start)),
            v as nat == digits_value(d.take(i - start)),
        decreases part.len() - i,
    {
        let c = part[i];
        if !('0' <= c && c <= '9') {
            assert(!is_digit(d[i - start]));
            return None;
        }
        let ghost t = d.take(i - start + 1);
        assert(t.drop_last() =~= d.take(i - start));
        assert(t.last() == c);
        let dig: u64 = ((c as u32) - 48) as u64;
        match v.checked_mul(10) {
            Some(m) => match m.checked_add(dig) {
                Some(n) => {
                    v = n;
                },
                None => {
                    proof {
                        if all_digits(d) {
                            lemma_digits_prefix(d, i - start + 1);
                        }
                    }
                    return None;
                },
            },
            None => {
                proof {
                    if all_digits(d) {
                        lemma_digits_prefix(d, i - start + 1);
                    }
                }
                return None;
            },
        }
        i += 1;
        assert(all_digits(d.take(i - start)));
    }
    assert(d.take(i - start) =~= d);
    Some(v)
}

/// A separator between the parts of a version: `.` or `-`.
pub open spec fn is_version_sep(c: char) -> bool {
    c == '.' || c == '-'
}

/// The parts of `cur + s` between separators, `cur` being the part read so far.
pub open spec fn version_parts_from(s: Seq<char>, cur: Seq<char>) -> Seq<Seq<char>>
    decreases s.len(),
{
    if s.len() == 0 {
        seq![cur]
    } else if is_version_sep(s[0]) {
        seq![cur] + version_parts_from(s.drop_first(), seq![])
    } else {
        version_parts_from(s.drop_first(), cur.push(s[0]))
    }
}

/// The numbers of the parts that read as numbers, in order.
pub open spec fn parsed_parts(ps: Seq<Seq<char>>) -> Seq<u64>
    decreases ps.len(),
{
    if ps.len() == 0 {
        seq![]
    } else {
        let rest = parsed_parts(ps.drop_last());
        match parse_u64_of(ps.last()) {
            Some(n) => rest.push(n),
            None => rest,
        }
    }
}

/// The sort key of a version: the numbers among its `.`- and `-`-separated parts;
/// parts that are not numbers are left out.
pub open spec fn version_key(v: Seq<char>) -> Seq<u64> {
    parsed_parts(version_parts_from(v, seq![]))
}

/// The sort key of a version.
pub fn version_key_of(v: &str) -> (k: Vec<u64>)
    ensures
        k@ == version_key(v@),
{
    let s = chars_of(v);
    let mut cur: Vec<char> = Vec::new();
    let mut keys: Vec<u64> = Vec::new();
    let ghost mut done: Seq<Seq<char>> = seq![];
    let mut i: usize = 0;
    assert(s@.skip(0) =~= s@);
    while i < s.len()
        invariant
            i <= s.len(),
            version_parts_from(s@, seq![]) == done + version_parts_from(s@.skip(i as int), cur@),
            keys@ == parsed_parts(done),
        decreases s.len() - i,
    {
        let c = s[i];
        assert(s@.skip(i as int).drop_first() =~= s@.skip(i + 1));
        if c == '.' || c == '-' {
            let p = parse_u64(&cur);
            proof {
                assert(done.push(cur@).drop_last() =~= done);
                assert(done + (seq![cur@] + version_parts_from(s@.skip(i + 1), seq![])) =~= done.push(
                    cur@,
                ) + version_parts_from(s@.skip(i + 1), seq![]));
                done = done.push(cur@);
            }
            match p {
                Some(n) => keys.push(n),
                None => {},
            }
            cur = Vec::new();
            assert(cur@ =~= Seq::<char>::empty());
        } else {
            cur.push(c);
        }
        i += 1;
    }
    assert(s@.skip(i as int) =~= Seq::<char>::empty());
    let p = parse_u64(&cur);
    proof {
        assert(done.push(cur@).drop_last() =~= done);
        assert(done + seq![cur@] =~= done.push(cur@));
    }
    match p {
        Some(n) => keys.push(n),
        None => {},
    }
    keys
}

// ---------------------------------------------------------------------------
// The order of versions
// ---------------------------------------------------------------------------

/// Lexicographic order on sort keys: the first differing number decides, and a key
/// that is a proper prefix of another comes first.
pub open spec fn key_lt(a: Seq<u64>, b: Seq<u64>) -> bool
    decreases a.len(),
{
    if a.len() == 0 {
        b.len() > 0
    } else if b.len() == 0 {
        false
    } else if a[0] != b[0] {
        a[0] < b[0]
    } else {
        key_lt(a.drop_first(), b.drop_first())
    }
}

/// No key comes before itself.
pub proof fn lemma_key_lt_irreflexive(a: Seq<u64>)
    ensures
        !key_lt(a, a),
    decreases a.len(),
{
    if a.len() > 0 {
        lemma_key_lt_irreflexive(a.drop_first());
    }
}

/// The order on keys is transitive.
pub proof fn lemma_key_lt_transitive(a: Seq<u64>, b: Seq<u64>, c: Seq<u64>)
    requires
        key_lt(a, b),
        key_lt(b, c),
    ensures
        key_lt(a, c),
    decreases a.len(),
{
    if a.len() > 0 && b.len() > 0 && c.len() > 0 && a[0] == b[0] && b[0] == c[0] {
        lemma_key_lt_transitive(a.drop_first(), b.drop_first(), c.drop_first());
    }
}

/// Of two different keys, one comes before the other.
pub proof fn lemma_key_lt_total(a: Seq<u64>, b: Seq<u64>)
    requires
        a != b,
    ensures
        key_lt(a, b) || key_lt(b, a),
    decreases a.len(),
{
    if a.len() == 0 {
        if b.len() == 0 {
            assert(a =~= b);
        }
    } else if b.len() == 0 {
    } else if a[0] == b[0] {
        if a.drop_first() == b.drop_first() {
            assert(a =~= seq![a[0]] + a.drop_first());
            assert(b =~= seq![b[0]] + b.drop_first());
        }
        lemma_key_lt_total(a.drop_first(), b.drop_first());
    }
}

/// No two keys come each before the other.
pub proof fn lemma_key_lt_asymmetric(a: Seq<u64>, b: Seq<u64>)
    requires
        key_lt(a, b),
    ensures
        !key_lt(b, a),
{
    if key_lt(b, a) {
        lemma_key_lt_transitive(a, b, a);
        lemma_key_lt_irreflexive(a);
    }
}

/// Whether key `a` comes before key `b`.
pub fn key_less(a: &Vec<u64>, b: &Vec<u64>) -> (r: bool)
    ensures
        r == key_lt(a@, b@),
{
    let mut i: usize = 0;
    assert(a@.skip(0) =~= a@ && b@.skip(0) =~= b@);
    while i < a.len() && i < b.len() && a[i] == b[i]
        invariant
            i <= a.len(),
            i <= b.len(),
            key_lt(a@, b@) == key_lt(a@.skip(i as int), b@.skip(i as int)),
        decreases a.len() - i,
    {
        assert(a@.skip(i as int).drop_first() =~= a@.skip(i + 1));
        assert(b@.skip(i as int).drop_first() =~= b@.skip(i + 1));
        i += 1;
    }
    if i == a.len() {
        i < b.len()
    } else if i == b.len() {
        false
    } else {
        a[i] < b[i]
    }
}

/// Inserts version `v` into `t` after every version whose key does not come after its
/// own: one step of a stable sort.
pub open spec fn insert_version(t: Seq<Seq<char>>, v: Seq<char>) -> Seq<Seq<char>>
    decreases t.len(),
{
    if t.len() == 0 {
        seq![v]
    } else if key_lt(version_key(v), version_key(t.last())) {
        insert_version(t.drop_last(), v).push(t.last())
    } else {
        t.push(v)
    }
}

/// The versions stably sorted by their keys: versions with equal keys keep their order.
pub open spec fn sort_versions(s: Seq<Seq<char>>) -> Seq<Seq<char>>
    decreases s.len(),
{
    if s.len() == 0 {
        seq![]
    } else {
        insert_version(sort_versions(s.drop_last()), s.last())
    }
}

/// Versions in ascending order of their keys.
pub open spec fn versions_ordered(s: Seq<Seq<char>>) -> bool {
    forall|i: int, j: int|
        0 <= i < j < s.len() ==> !key_lt(version_key(#[trigger] s[j]), version_key(#[trigger] s[i]))
}

/// Inserting at the place found by scanning from the back is `insert_version`.
proof fn lemma_insert_at(t: Seq<Seq<char>>, v: Seq<char>, j: int)
    requires
        0 <= j <= t.len(),
        forall|k: int| j <= k < t.len() ==> key_lt(version_key(v), version_key(#[trigger] t[k])),
        j > 0 ==> !key_lt(version_key(v), version_key(t[j - 1])),
    ensures
        insert_version(t, v) == t.insert(j, v),
    decreases t.len(),
{
    if t.len() == 0 {
        assert(t.insert(j, v) =~= seq![v]);
    } else if j == t.len() {
        assert(t.insert(j, v) =~= t.push(v));
    } else {
        assert(key_lt(version_key(v), version_key(t[t.len() - 1])));
        lemma_insert_at(t.drop_last(), v, j);
        assert(t.drop_last().insert(j, v).push(t.last()) =~= t.insert(j, v));
    }
}

/// The released versions among the keys of a version list: all but `trunk`.
pub open spec fn released(keys: Seq<Seq<char>>) -> Seq<Seq<char>>
    decreases keys.len(),
{
    if keys.len() == 0 {
        seq![]
    } else if keys.last() == "trunk"@ {
        released(keys.drop_last())
    } else {
        released(keys.drop_last()).push(keys.last())
    }
}

/// `trunk` is never a released version; every other key is, in its order.
pub proof fn lemma_released_without_trunk(keys: Seq<Seq<char>>)
    ensures
        !released(keys).contains("trunk"@),
        released(keys) == keys.filter(|k: Seq<char>| k != "trunk"@),
    decreases keys.len(),
{
    reveal(Seq::filter);
    if keys.len() > 0 {
        lemma_released_without_trunk(keys.drop_last());
        if keys.last() != "trunk"@ {
            let r = released(keys);
            assert(r == released(keys.drop_last()).push(keys.last()));
            assert(!r.contains("trunk"@)) by {
                if r.contains("trunk"@) {
                    let k = choose|k: int| 0 <= k < r.len() && r[k] == "trunk"@;
                    if k < r.len() - 1 {
                        assert(released(keys.drop_last())[k] == "trunk"@);
                    }
                }
            }
        }
    } else {
        assert(keys.filter(|k: Seq<char>| k != "trunk"@) =~= Seq::<Seq<char>>::empty());
    }
}

/// The released versions of a version list, stably sorted by their keys.
pub fn order_versions(keys: &Vec<String>) -> (r: Vec<String>)
    ensures
        string_views(r@) == sort_versions(released(string_views(keys@))),
        versions_ordered(string_views(r@)),
        !string_views(r@).contains("trunk"@),
{
    proof {
        let rel = released(string_views(keys@));
        lemma_sort_versions(rel);
        lemma_released_without_trunk(string_views(keys@));
        vstd::seq_lib::to_multiset_contains(rel, "trunk"@);
        vstd::seq_lib::to_multiset_contains(sort_versions(rel), "trunk"@);
    }
    let ghost kv = string_views(keys@);
    let mut names: Vec<String> = Vec::new();
    let mut nkeys: Vec<Vec<u64>> = Vec::new();
    let ghost mut seen: Seq<Seq<char>> = seq![];
    let mut i: usize = 0;
    while i < keys.len()
        invariant
            i <= keys.len(),
            kv == string_views(keys@),
            seen == released(kv.take(i as int)),
            string_views(names@) == sort_versions(seen),
            nkeys.len() == names.len(),
            forall|k: int| 0 <= k < nkeys.len() ==> (#[trigger] nkeys@[k])@ == version_key(
                names@[k]@,
            ),
        decreases keys.len() - i,
    {
        assert(kv.take(i + 1).drop_last() =~= kv.take(i as int));
        assert(kv.take(i + 1).last() == keys@[i as int]@);
        if str_eq(keys[i].as_str(), "trunk") {
        } else {
            let v = keys[i].clone();
            let vk = version_key_of(v.as_str());
            let ghost t = string_views(names@);
            let mut j = names.len();
            while j > 0 && key_less(&vk, &nkeys[j - 1])
                invariant
                    j <= names.len(),
                    nkeys.len() == names.len(),
                    t == string_views(names@),
                    vk@ == version_key(v@),
                    forall|k: int| 0 <= k < nkeys.len() ==> (#[trigger] nkeys@[k])@ == version_key(
                        names@[k]@,
                    ),
                    forall|k: int| j <= k < t.len() ==> key_lt(version_key(v@), version_key(#[trigger] t[k])),
                decreases j,
            {
                j -= 1;
            }
            proof {
                lemma_insert_at(t, v@, j as int);
                assert(sort_versions(seen.push(v@)) == insert_version(sort_versions(seen), v@)) by {
                    assert(seen.push(v@).drop_last() =~= seen);
                }
                seen = seen.push(v@);
            }
            let ghost nk_old = nkeys@;
            let ghost nm_old = names@;
            names.insert(j, v);
            nkeys.insert(j, vk);
            assert(string_views(names@) =~= t.insert(j as int, v@));
            assert forall|k: int| 0 <= k < nkeys.len() implies (#[trigger] nkeys@[k])@ == version_key(
                names@[k]@,
            ) by {
                if k > j as int {
                    assert(nkeys@[k] == nk_old[k - 1]);
                    assert(names@[k] == nm_old[k - 1]);
                    assert(nk_old[k - 1]@ == version_key(nm_old[k - 1]@));
                } else if k < j as int {
                    assert(nk_old[k]@ == version_key(nm_old[k]@));
                }
            }
        }
        i += 1;
    }
    assert(kv.take(keys.len() as int) =~= kv);
    names
}


/// Where `insert_version` puts a version: before the versions at the back whose keys
/// come after its key, behind the last one whose key does not.
proof fn lemma_insert_place(t: Seq<Seq<char>>, v: Seq<char>) -> (j: int)
    ensures
        0 <= j <= t.len(),
        insert_version(t, v) == t.insert(j, v),
        forall|k: int| j <= k < t.len() ==> key_lt(version_key(v), version_key(#[trigger] t[k])),
        j > 0 ==> !key_lt(version_key(v), version_key(t[j - 1])),
    decreases t.len(),
{
    if t.len() == 0 {
        assert(t.insert(0, v) =~= seq![v]);
        0
    } else if key_lt(version_key(v), version_key(t.last())) {
        let j = lemma_insert_place(t.drop_last(), v);
        assert(t.drop_last().insert(j, v).push(t.last()) =~= t.insert(j, v));
        assert forall|k: int| j <= k < t.len() implies key_lt(
            version_key(v),
            version_key(#[trigger] t[k]),
        ) by {
            if k < t.len() - 1 {
                assert(t[k] == t.drop_last()[k]);
            }
        }
        j
    } else {
        assert(t.insert(t.len() as int, v) =~= t.push(v));
        t.len() as int
    }
}

/// Inserting a version into ordered versions keeps them ordered, and adds just that
/// version.
proof fn lemma_insert_ordered(t: Seq<Seq<char>>, v: Seq<char>)
    requires
        versions_ordered(t),
    ensures
        versions_ordered(insert_version(t, v)),
        insert_version(t, v).to_multiset() == t.to_multiset().insert(v),
{
    let j = lemma_insert_place(t, v);
    let r = insert_version(t, v);
    vstd::seq_lib::to_multiset_insert(t, j, v);
    let kv = version_key(v);
    assert forall|a: int, b: int| 0 <= a < b < r.len() implies !key_lt(
        version_key(#[trigger] r[b]),
        version_key(#[trigger] r[a]),
    ) by {
        if b < j {
            assert(r[a] == t[a] && r[b] == t[b]);
        } else if a > j {
            assert(r[a] == t[a - 1] && r[b] == t[b - 1]);
        } else if a == j {
            assert(r[b] == t[b - 1]);
            lemma_key_lt_asymmetric(kv, version_key(t[b - 1]));
        } else if b == j {
            assert(r[a] == t[a]);
            let ka = version_key(t[a]);
            let kp = version_key(t[j - 1]);
            if key_lt(kv, ka) {
                if a < j - 1 {
                    assert(!key_lt(kp, ka));
                    if ka != kp {
                        lemma_key_lt_total(ka, kp);
                        lemma_key_lt_transitive(kv, ka, kp);
                    }
                }
            }
        } else {
            assert(r[a] == t[a] && r[b] == t[b - 1]);
        }
    }
}

/// Sorting versions orders them by their keys and keeps every version, each as often as
/// it was given.
pub proof fn lemma_sort_versions(s: Seq<Seq<char>>)
    ensures
        versions_ordered(sort_versions(s)),
        sort_versions(s).to_multiset() == s.to_multiset(),
    decreases s.len(),
{
    if s.len() == 0 {
        assert(sort_versions(s) =~= s);
    } else {
        lemma_sort_versions(s.drop_last());
        lemma_insert_ordered(sort_versions(s.drop_last()), s.last());
        vstd::seq_lib::to_multiset_build(s.drop_last(), s.last());
        assert(s.drop_last().push(s.last()) =~= s);
    }
}

// ---------------------------------------------------------------------------
// Plugin information
// ---------------------------------------------------------------------------

/// What wordpress.org says of a plugin: its name, its current version, and its released
/// versions in ascending order.
#[derive(Clone, Debug)]
pub struct PluginInfo {
    pub name: String,
    pub latest_version: String,
    pub versions: Vec<String>,
}

/// The parts of a plugin-information reply that matter here.
#[derive(Clone, Debug)]
pub struct InfoReply {
    /// The reply has an `error` field.
    pub has_error: bool,
    /// The `name` field, when it is text.
    pub name: Option<String>,
    /// The `version` field, when it is text.
    pub version: Option<String>,
    /// The keys of the `versions` object in the order the reply gives them; none when
    /// the reply has no such object.
    pub version_keys: Vec<String>,
}

/// Why no plugin information could be read from a reply.
#[derive(Clone, Copy, Debug, PartialEq, Eq, Structural)]
pub enum InfoError {
    /// wordpress.org knows no plugin of that slug.
    NotFound,
    /// The reply is not JSON.
    Unparsable,
}

/// A text field, or the fallback when it is missing.
pub open spec fn text_or(v: Option<String>, fallback: Seq<char>) -> Seq<char> {
    match v {
        Some(s) => s@,
        None => fallback,
    }
}

/// The information on plugin `slug` that a reply gives: an error when the reply reports
/// one; otherwise the name (the slug when missing), the current version (`unknown` when
/// missing) and the released versions in ascending order.
pub fn plugin_info_from_reply(slug: &str, reply: &InfoReply) -> (r: Result<PluginInfo, InfoError>)
    ensures
        reply.has_error <==> r is Err,
        match r {
            Ok(info) => {
                &&& info.name@ == text_or(reply.name, slug@)
                &&& info.latest_version@ == text_or(reply.version, "unknown"@)
                &&& string_views(info.versions@) == sort_versions(
                    released(string_views(reply.version_keys@)),
                )
                &&& versions_ordered(string_views(info.versions@))
                &&& !string_views(info.versions@).contains("trunk"@)
            },
            Err(e) => e == InfoError::NotFound,
        },
{
    if reply.has_error {
        return Err(InfoError::NotFound);
    }
    let name = match &reply.name {
        Some(n) => n.clone(),
        None => slug.to_owned(),
    };
    let latest_version = match &reply.version {
        Some(v) => v.clone(),
        None => "unknown".to_owned(),
    };
    Ok(PluginInfo { name, latest_version, versions: order_versions(&reply.version_keys) })
}

/// A text field as plain text.
pub open spec fn opt_text(o: Option<String>) -> Option<Seq<char>> {
    match o {
        Some(t) => Some(t@),
        None => None,
    }
}

/// The fields of a reply as plain values: the error flag, the name, the version and the
/// keys of the versions.
pub open spec fn info_reply_view(r: InfoReply) -> (bool, Option<Seq<char>>, Option<Seq<char>>, Seq<Seq<char>>) {
    (r.has_error, opt_text(r.name), opt_text(r.version), string_views(r.version_keys@))
}

/// A parsed reply, if any, as plain values.
pub open spec fn reply_view(r: Option<InfoReply>) -> Option<(bool, Option<Seq<char>>, Option<Seq<char>>, Seq<Seq<char>>)> {
    match r {
        Some(x) => Some(info_reply_view(x)),
        None => None,
    }
}

/// The fields that `serde_json` reads from a reply body: `None` when the body is not JSON;
/// otherwise whether it has an `error` key, its `name` and `version` when they are
/// strings, and the keys of its `versions` object (none when there is no such object).
pub uninterp spec fn spec_info_reply(body: Seq<u8>) -> Option<
    (bool, Option<Seq<char>>, Option<Seq<char>>, Seq<Seq<char>>),
>;

/// Trusted: `serde_json::from_slice::<serde_json::Value>` on the body, then
/// `Value::get` of `error` (present or not), of `name` and `version` through
/// `Value::as_str`, and of `versions` through `Value::as_object` and `Map::keys`. The
/// contract names the result; what JSON is, and the order in which the keys come, is
/// left unstated.
#[verifier::external_body]
fn parse_info_reply(body: &[u8]) -> (r: Option<InfoReply>)
    ensures
        reply_view(r) == spec_info_reply(body@),
{
    let v: serde_json::Value = serde_json::from_slice(body).ok()?;
    let text = |k: &str| v.get(k).and_then(|x| x.as_str()).map(str::to_string);
    let version_keys = match v.get("versions").and_then(|x| x.as_object()) {
        Some(o) => o.keys().cloned().collect(),
        None => Vec::new(),
    };
    Some(InfoReply { has_error: v.get("error").is_some(), name: text("name"), version: text("version"), version_keys })
}

/// The information on plugin `slug` that a reply with these fields gives: none when the
/// reply reports an error; otherwise the name (the slug when missing), the current
/// version (`unknown` when missing) and the released versions in ascending order.
pub open spec fn info_of(
    slug: Seq<char>,
    rep: (bool, Option<Seq<char>>, Option<Seq<char>>, Seq<Seq<char>>),
) -> Option<(Seq<char>, Seq<char>, Seq<Seq<char>>)> {
    if rep.0 {
        None
    } else {
        Some(
            (
                match rep.1 {
                    Some(n) => n,
                    None => slug,
                },
                match rep.2 {
                    Some(v) => v,
                    None => "unknown"@,
                },
                sort_versions(released(rep.3)),
            ),
        )
    }
}

/// The information on plugin `slug` in the body of wordpress.org's reply: an error when
/// the body is not JSON, or when the reply reports an error (no such plugin); otherwise
/// the name, current version and released versions that the reply's fields give.
pub fn plugin_info_from_body(slug: &str, body: &[u8]) -> (r: Result<PluginInfo, InfoError>)
    ensures
        spec_info_reply(body@) is None <==> r == Err::<PluginInfo, InfoError>(
            InfoError::Unparsable,
        ),
        match spec_info_reply(body@) {
            Some(rep) => match r {
                Ok(info) => info_of(slug@, rep) == Some(
                    (info.name@, info.latest_version@, string_views(info.versions@)),
                ),
                Err(e) => e == InfoError::NotFound && info_of(slug@, rep) is None,
            },
            None => true,
        },
{
    match parse_info_reply(body) {
        None => Err(InfoError::Unparsable),
        Some(reply) => plugin_info_from_reply(slug, &reply),
    }
}

} // verus!
