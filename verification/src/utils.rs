//! Helpers used across the player: durations as text, and what a file's
//! path says of it (its kind, its name).
//!
//! The meaning of a path (where its separators are, what is absolute)
//! depends on the platform the player runs on; the contracts below state
//! only what holds on every platform.

use vstd::prelude::*;
use crate::text::{all_ascii, ascii_lower_char, lowercase_of, opt_chars, str_eq, to_lower};

verus! {

// ---------------------------------------------------------------------------
// Durations
// ---------------------------------------------------------------------------

/// The character of a decimal digit.
pub open spec fn digit_char(d: nat) -> char {
    ((d + 48) as u8) as char
}

/// The decimal digits of `n`, without leading zeros.
pub open spec fn decimal(n: nat) -> Seq<char>
    decreases n,
{
    if n < 10 {
        seq![digit_char(n)]
    } else {
        decimal(n / 10).push(digit_char(n % 10))
    }
}

/// The decimal digits of `n`, at least two of them.
pub open spec fn pad2(n: nat) -> Seq<char> {
    if n < 10 {
        seq!['0', digit_char(n)]
    } else {
        decimal(n)
    }
}

/// A duration given in whole seconds as text: `MM:SS`, or `HH:MM:SS` from
/// one hour on, each field with at least two digits.
pub open spec fn duration_text(total: nat) -> Seq<char> {
    let hours = total / 3600;
    let minutes = (total % 3600) / 60;
    let seconds = total % 60;
    if hours > 0 {
        pad2(hours) + seq![':'] + pad2(minutes) + seq![':'] + pad2(seconds)
    } else {
        pad2(minutes) + seq![':'] + pad2(seconds)
    }
}

/// The decimal digits of `n`.
pub fn decimal_string(n: u64) -> (r: String)
    ensures
        r@ == decimal(n as nat),
{
    let mut digits: Vec<char> = Vec::new();
    let mut m = n;
    loop
        invariant_except_break
            decimal(n as nat) == decimal(m as nat) + digits@.reverse(),
        ensures
            decimal(n as nat) == digits@.reverse(),
        decreases m,
    {
        let d = (m % 10) as u8;
        let c = (d + 48) as char;
        assert(c == digit_char((m % 10) as nat));
        if m < 10 {
            let ghost before = digits@;
            digits.push(c);
            assert(digits@.reverse() =~= seq![c] + before.reverse());
            assert(decimal(m as nat) =~= seq![c]);
            assert(decimal(n as nat) =~= digits@.reverse());
            break;
        }
        let ghost before = digits@;
        digits.push(c);
        assert(digits@.reverse() =~= seq![c] + before.reverse());
        assert(decimal(m as nat) =~= decimal((m / 10) as nat).push(c));
        assert(decimal((m / 10) as nat).push(c) + before.reverse() =~= decimal((m / 10) as nat) + (
        seq![c] + before.reverse()));
        m = m / 10;
    }
    assert(decimal(n as nat) =~= digits@.reverse());
    let mut r = String::new();
    let mut i = digits.len();
    while i > 0
        invariant
            i <= digits@.len(),
            r@ == digits@.reverse().take(digits@.len() - i),
        decreases i,
    {
        i -= 1;
        let ghost before = r@;
        crate::text::push_char(&mut r, digits[i]);
        assert(digits@.reverse().take(digits@.len() - i) =~= before.push(digits@[i as int]));
    }
    assert(digits@.reverse().take(digits@.len() as int) =~= digits@.reverse());
    r
}

/// The decimal digits of `n`, at least two of them.
fn pad2_string(n: u64) -> (r: String)
    ensures
        r@ == pad2(n as nat),
{
    if n < 10 {
        let mut r = String::new();
        crate::text::push_char(&mut r, '0');
        let d = n as u8;
        let c = (d + 48) as char;
        crate::text::push_char(&mut r, c);
        assert(r@ =~= seq!['0', digit_char(n as nat)]);
        r
    } else {
        decimal_string(n)
    }
}

/// A duration in whole seconds as text: `MM:SS`, or `HH:MM:SS` from one
/// hour on (for example `01:05` for 65 seconds, `01:01:01` for 3661).
pub fn format_duration(seconds: u64) -> (r: String)
    ensures
        r@ == duration_text(seconds as nat),
{
    let hours = seconds / 3600;
    let minutes = (seconds % 3600) / 60;
    let secs = seconds % 60;
    let mut r = String::new();
    if hours > 0 {
        r.append(pad2_string(hours).as_str());
        r.append(":");
    }
    r.append(pad2_string(minutes).as_str());
    r.append(":");
    r.append(pad2_string(secs).as_str());
    proof {
        reveal_strlit(":");
    }
    assert(r@ =~= duration_text(seconds as nat));
    r
}

// ---------------------------------------------------------------------------
// Paths
// ---------------------------------------------------------------------------

/// Whether `part` occurs in `s` right after a dot.
pub open spec fn dotted_part(s: Seq<char>, part: Seq<char>) -> bool {
    exists|i: int|
        1 <= i && i + part.len() <= s.len() && s[i - 1] == '.' && #[trigger] s.subrange(i, i + part.len())
            == part
}

/// Whether `part` occurs in `s`.
pub open spec fn occurs_in(s: Seq<char>, part: Seq<char>) -> bool {
    exists|i: int| 0 <= i && i + part.len() <= s.len() && #[trigger] s.subrange(i, i + part.len()) == part
}

/// A path component as `Path` yields it from `path`: a non-empty piece of
/// the path, without a `/` where the path holds no `\` (a Windows path
/// with the `\\?\` prefix separates by `\` alone).
pub open spec fn path_piece(path: Seq<char>, piece: Seq<char>) -> bool {
    &&& piece.len() > 0
    &&& occurs_in(path, piece)
    &&& (!path.contains('\\') ==> !piece.contains('/'))
}

/// The characters of `p` after its last `c`; all of `p` when it has none.
pub open spec fn after_last(p: Seq<char>, c: char) -> Seq<char>
    decreases p.len(),
{
    if p.len() == 0 {
        p
    } else if p.last() == c {
        Seq::empty()
    } else {
        after_last(p.drop_last(), c).push(p.last())
    }
}

/// A path without the `/`s that end it, which `Path` ignores.
pub open spec fn strip_slashes(p: Seq<char>) -> Seq<char>
    decreases p.len(),
{
    if p.len() > 0 && p.last() == '/' {
        strip_slashes(p.drop_last())
    } else {
        p
    }
}

/// The last `/`-separated segment of a path, trailing `/`s left aside.
pub open spec fn final_segment(p: Seq<char>) -> Seq<char> {
    after_last(strip_slashes(p), '/')
}

/// The directory part of a path: everything, trailing `/`s left aside, up
/// to and with its last `/` (empty when it has none).
pub open spec fn dir_part(p: Seq<char>) -> Seq<char> {
    strip_slashes(p).take(strip_slashes(p).len() - final_segment(p).len())
}

/// Whether a path reads the same on every platform and ends in a file name:
/// it holds no `\` and no `:`, does not begin with `//`, and its last
/// segment (trailing `/`s left aside) is a name (not empty, `.` or `..`).
pub open spec fn plain_file_path(p: Seq<char>) -> bool {
    &&& !p.contains('\\')
    &&& !p.contains(':')
    &&& !(p.len() >= 2 && p[0] == '/' && p[1] == '/')
    &&& final_segment(p).len() > 0
    &&& final_segment(p) != seq!['.']
    &&& final_segment(p) != seq!['.', '.']
}

/// Whether a path ends in the parent directory `..` (trailing `/`s left
/// aside) and holds no `\`, so that it does so on every platform (with the
/// Windows prefix `\\?\` only `\` separates).
pub open spec fn ends_in_parent_dir(p: Seq<char>) -> bool {
    !p.contains('\\') && final_segment(p) == seq!['.', '.']
}

/// Whether, before the file name, a path has neither a doubled `/` nor a
/// `.` segment, which `Path::parent` would trim away (a leading `./` stays,
/// and is no such segment).
pub open spec fn tidy_dir(p: Seq<char>) -> bool {
    let d = dir_part(p);
    d.len() <= 1 || (d[d.len() - 2] != '/' && (final_segment(d.drop_last()) != seq!['.']
        || d.drop_last() == seq!['.']))
}

/// The parent directory of a plain, tidy path: its directory part without
/// the last `/`, except a lone root `/`, which stays.
pub open spec fn plain_parent(p: Seq<char>) -> Seq<char> {
    let d = dir_part(p);
    if d.len() <= 1 {
        d
    } else {
        d.drop_last()
    }
}

/// The extension of a file name as `Path::extension` documents it: what
/// follows its last dot, unless there is no dot or the only one begins the
/// name.
pub open spec fn name_extension(name: Seq<char>) -> Option<Seq<char>> {
    let e = after_last(name, '.');
    if e.len() + 1 < name.len() {
        Some(e)
    } else {
        None
    }
}

/// The stem of a file name as `Path::file_stem` documents it: the name
/// before its last dot, or the whole name where it has no extension.
pub open spec fn name_stem(name: Seq<char>) -> Seq<char> {
    let e = after_last(name, '.');
    if e.len() + 1 < name.len() {
        name.take(name.len() - e.len() - 1)
    } else {
        name
    }
}

/// Whether a character separates path components on some platform.
pub open spec fn sep_char(c: char) -> bool {
    c == '/' || c == '\\'
}

/// Whether a path has no prefix on any platform: no `:` (as in a drive
/// `C:`) and no two separators at its start (as in `//server/share` or the
/// verbatim `\\?\`).
pub open spec fn prefix_free(p: Seq<char>) -> bool {
    &&& !p.contains(':')
    &&& !(p.len() >= 2 && sep_char(p[0]) && sep_char(p[1]))
}

/// Whether a directory reads the same on every platform: no `\` and no
/// prefix.
pub open spec fn plain_dir(d: Seq<char>) -> bool {
    !d.contains('\\') && prefix_free(d)
}

/// Whether a path is relative on every platform: it is not empty, does not
/// begin with a separator and has no `:`.
pub open spec fn relative_path(p: Seq<char>) -> bool {
    p.len() > 0 && !sep_char(p[0]) && !p.contains(':')
}

/// Whether a path begins at the root, `/`, without a prefix.
pub open spec fn rooted_path(p: Seq<char>) -> bool {
    p.len() > 0 && p[0] == '/' && prefix_free(p)
}

/// Whether `Path::join` of `base` and `name` reads the same on every
/// platform: `base` is a plain directory and `name` a relative path.
pub open spec fn join_simple(base: Seq<char>, name: Seq<char>) -> bool {
    plain_dir(base) && relative_path(name)
}

/// Whether `r` is `name` put after `base` as `Path::join` does: `name`
/// alone after an empty base, straight after a base that ends in `/`, and
/// otherwise after the platform's separator (`/`, or `\` on Windows).
pub open spec fn joined_with_sep(r: Seq<char>, base: Seq<char>, name: Seq<char>) -> bool {
    if base.len() == 0 {
        r == name
    } else if base.last() == '/' {
        r == base + name
    } else {
        r == base + seq!['/'] + name || r == base + seq!['\\'] + name
    }
}

/// `strip_slashes(p)` is a beginning of `p` that does not end in `/`.
pub proof fn lemma_strip_slashes(p: Seq<char>)
    ensures
        strip_slashes(p).len() <= p.len(),
        strip_slashes(p) == p.take(strip_slashes(p).len() as int),
        strip_slashes(p).len() > 0 ==> strip_slashes(p).last() != '/',
    decreases p.len(),
{
    if p.len() > 0 && p.last() == '/' {
        lemma_strip_slashes(p.drop_last());
        assert(p.drop_last().take(strip_slashes(p).len() as int) =~= p.take(strip_slashes(p).len() as int));
    } else {
        assert(p.take(p.len() as int) =~= p);
    }
}

/// `after_last(p, c)` is an end of `p` without `c`, right after a `c` of
/// `p` when it is not all of `p`.
pub proof fn lemma_after_last(p: Seq<char>, c: char)
    ensures
        after_last(p, c).len() <= p.len(),
        after_last(p, c) == p.skip(p.len() - after_last(p, c).len()),
        !after_last(p, c).contains(c),
        after_last(p, c).len() < p.len() ==> p[p.len() - after_last(p, c).len() - 1] == c,
    decreases p.len(),
{
    if p.len() > 0 && p.last() != c {
        let q = p.drop_last();
        lemma_after_last(q, c);
        let a = after_last(q, c);
        assert(a.push(p.last()) =~= p.skip(p.len() - a.len() - 1));
        if a.push(p.last()).contains(c) {
            let i = choose|i: int| 0 <= i < a.len() + 1 && #[trigger] a.push(p.last())[i] == c;
            assert(a[i] == c);
        }
    }
}

/// A piece of a sequence that lacks `x` lacks it too.
pub proof fn lemma_subrange_lacks(s: Seq<char>, lo: int, hi: int, x: char)
    requires
        0 <= lo <= hi <= s.len(),
        !s.contains(x),
    ensures
        !s.subrange(lo, hi).contains(x),
{
    if s.subrange(lo, hi).contains(x) {
        let i = choose|i: int| 0 <= i < hi - lo && #[trigger] s.subrange(lo, hi)[i] == x;
        assert(s[lo + i] == x);
    }
}

/// Two sequences that lack `x` make a sequence that lacks it.
pub proof fn lemma_concat_lacks(a: Seq<char>, b: Seq<char>, x: char)
    requires
        !a.contains(x),
        !b.contains(x),
    ensures
        !(a + b).contains(x),
{
    if (a + b).contains(x) {
        let i = choose|i: int| 0 <= i < a.len() + b.len() && #[trigger] (a + b)[i] == x;
        if i < a.len() {
            assert(a[i] == x);
        } else {
            assert(b[i - a.len()] == x);
        }
    }
}

/// For a plain, tidy path, its parent and the stem of its file name followed
/// by a plain `suffix` are joined the same way on every platform.
pub proof fn lemma_plain_join(p: Seq<char>, suffix: Seq<char>)
    requires
        plain_file_path(p),
        tidy_dir(p),
        suffix.len() > 0,
        !suffix.contains('/'),
        !suffix.contains('\\'),
        !suffix.contains(':'),
    ensures
        join_simple(plain_parent(p), name_stem(final_segment(p)) + suffix),
{
    let q = strip_slashes(p);
    lemma_strip_slashes(p);
    let seg = final_segment(p);
    lemma_after_last(q, '/');
    let k: int = if dir_part(p).len() <= 1 {
        dir_part(p).len() as int
    } else {
        dir_part(p).len() - 1
    };
    let parent = plain_parent(p);
    assert(parent =~= p.subrange(0, k));
    lemma_subrange_lacks(p, 0, k, '\\');
    lemma_subrange_lacks(p, 0, k, ':');
    assert(seg =~= p.subrange(q.len() - seg.len(), q.len() as int));
    lemma_subrange_lacks(p, q.len() - seg.len(), q.len() as int, '\\');
    lemma_subrange_lacks(p, q.len() - seg.len(), q.len() as int, ':');
    lemma_after_last(seg, '.');
    let m: int = if after_last(seg, '.').len() + 1 < seg.len() {
        seg.len() - after_last(seg, '.').len() - 1
    } else {
        seg.len() as int
    };
    let stem = name_stem(seg);
    assert(stem =~= seg.subrange(0, m));
    lemma_subrange_lacks(seg, 0, m, '/');
    lemma_subrange_lacks(seg, 0, m, '\\');
    lemma_subrange_lacks(seg, 0, m, ':');
    lemma_concat_lacks(stem, suffix, '/');
    lemma_concat_lacks(stem, suffix, '\\');
    lemma_concat_lacks(stem, suffix, ':');
    let name = stem + suffix;
    assert(name[0] != '/' && name[0] != '\\');
    if parent.len() >= 2 {
        assert(parent[0] == p[0] && parent[1] == p[1]);
        assert(p[0] != '\\');
    }
}

/// `Path::extension` of `path`: the text after the last dot of the file
/// name, when it has one. What is promised is that the extension follows
/// a dot in the path, and, for a plain path (see [`plain_file_path`]),
/// whose file name is its last segment on every platform, that it is the
/// extension of that name as the documentation of `Path::extension`
/// describes it. Of other paths, where the file name starts depends on the
/// platform.
#[verifier::external_body]
fn path_extension(path: &str) -> (r: Option<String>)
    ensures
        r matches Some(e) ==> dotted_part(path@, e@),
        plain_file_path(path@) ==> opt_chars(r) == name_extension(final_segment(path@)),
{
    match std::path::Path::new(path).extension() {
        Some(e) => match e.to_str() {
            Some(t) => Some(t.to_string()),
            None => None,
        },
        None => None,
    }
}

/// `Path::file_name` of `path`: its last component, when that is a name.
/// What is promised is that it is a non-empty piece of the path (without a
/// `/` where the path holds no `\`), that an empty path and one that ends
/// in `..` (see [`ends_in_parent_dir`]) have none, and,
/// for a plain path (see [`plain_file_path`]), that it is the last segment.
/// Of other paths, which piece it is depends on the platform's separators.
#[verifier::external_body]
fn path_file_name(path: &str) -> (r: Option<String>)
    ensures
        r matches Some(n) ==> path_piece(path@, n@),
        path@.len() == 0 ==> r is None,
        ends_in_parent_dir(path@) ==> r is None,
        plain_file_path(path@) ==> opt_chars(r) == Some(final_segment(path@)),
{
    match std::path::Path::new(path).file_name() {
        Some(n) => match n.to_str() {
            Some(t) => Some(t.to_string()),
            None => None,
        },
        None => None,
    }
}

/// `Path::file_stem` of `path`: its file name without the extension.
/// What is promised is that it is a piece of the path (without a `/` where
/// the path holds no `\`), that an empty path and one that ends in `..`
/// have none, and, for a plain
/// path (see [`plain_file_path`]), that it is the stem of the last segment
/// as the documentation of `Path::file_stem` describes it.
#[verifier::external_body]
pub(crate) fn path_file_stem(path: &str) -> (r: Option<String>)
    ensures
        r matches Some(n) ==> occurs_in(path@, n@) && (!path@.contains('\\') ==> !n@.contains('/')),
        path@.len() == 0 ==> r is None,
        ends_in_parent_dir(path@) ==> r is None,
        plain_file_path(path@) ==> opt_chars(r) == Some(name_stem(final_segment(path@))),
{
    match std::path::Path::new(path).file_stem() {
        Some(n) => match n.to_str() {
            Some(t) => Some(t.to_string()),
            None => None,
        },
        None => None,
    }
}

/// `Path::parent` of `path`: the path without its last component. What is
/// promised is that it is a beginning of the path, and, for a plain path
/// with a tidy directory part (see [`plain_file_path`], [`tidy_dir`]), that
/// it is that directory part without its last `/` (a lone root `/` stays;
/// a path without a directory has the empty parent). Of other paths, the
/// trimming of separators and `.` segments is not stated.
#[verifier::external_body]
pub(crate) fn path_parent(path: &str) -> (r: Option<String>)
    ensures
        r matches Some(p) ==> p@.is_prefix_of(path@),
        plain_file_path(path@) && tidy_dir(path@) ==> opt_chars(r) == Some(plain_parent(path@)),
{
    match std::path::Path::new(path).parent() {
        Some(p) => match p.to_str() {
            Some(t) => Some(t.to_string()),
            None => None,
        },
        None => None,
    }
}

/// `Path::is_absolute` of `path`. What is promised is that an empty path,
/// and one that begins with no separator and holds no `:` (so has neither a
/// root nor a prefix), is not absolute. Whether a path that begins with `/`
/// is absolute depends on the platform (not on Windows, where it also needs
/// a prefix).
#[verifier::external_body]
fn path_is_absolute(path: &str) -> (r: bool)
    ensures
        r ==> path@.len() > 0,
        relative_path(path@) ==> !r,
{
    std::path::Path::new(path).is_absolute()
}

/// `Path::join` of `base` and `path`, as text. What is promised is how a
/// relative path is put after a plain base (see [`join_simple`],
/// [`joined_with_sep`]): after an empty base it stands alone, after a base
/// that ends in `/` it follows directly, and otherwise the platform's
/// separator comes between; and that a path that begins at the root `/`
/// replaces a base without a prefix. Of other arguments nothing is
/// promised: roots, prefixes and separators differ between platforms.
#[verifier::external_body]
pub(crate) fn path_join(base: &str, path: &str) -> (r: String)
    ensures
        join_simple(base@, path@) ==> joined_with_sep(r@, base@, path@),
        prefix_free(base@) && rooted_path(path@) ==> r@ == path@,
{
    std::path::Path::new(base).join(path).to_string_lossy().to_string()
}

/// Whether a lowercase extension is that of an M3U playlist.
pub open spec fn m3u_extension(ext_lower: Seq<char>) -> bool {
    ext_lower == "m3u"@ || ext_lower == "m3u8"@
}

/// Whether a lowercase extension is that of a supported audio format.
pub open spec fn audio_extension(ext_lower: Seq<char>) -> bool {
    ||| ext_lower == "mp3"@
    ||| ext_lower == "flac"@
    ||| ext_lower == "wav"@
    ||| ext_lower == "ogg"@
    ||| ext_lower == "aac"@
    ||| ext_lower == "m4a"@
    ||| ext_lower == "m4s"@
    ||| ext_lower == "wma"@
    ||| ext_lower == "opus"@
}

/// Whether a lowercase extension is `m3u` or `m3u8`.
pub fn is_m3u_extension(ext_lower: &str) -> (r: bool)
    ensures
        r == m3u_extension(ext_lower@),
{
    str_eq(ext_lower, "m3u") || str_eq(ext_lower, "m3u8")
}

/// Whether a lowercase extension is one of the supported audio formats:
/// mp3, flac, wav, ogg, aac, m4a, m4s, wma, opus.
pub fn is_supported_audio_extension(ext_lower: &str) -> (r: bool)
    ensures
        r == audio_extension(ext_lower@),
{
    str_eq(ext_lower, "mp3") || str_eq(ext_lower, "flac") || str_eq(ext_lower, "wav") || str_eq(
        ext_lower,
        "ogg",
    ) || str_eq(ext_lower, "aac") || str_eq(ext_lower, "m4a") || str_eq(ext_lower, "m4s")
        || str_eq(ext_lower, "wma") || str_eq(ext_lower, "opus")
}

/// What [`is_m3u_playlist`] states of its answer `flag` for `path`: a
/// playlist has an `m3u` or `m3u8` extension after a dot, and for a plain
/// path (see [`plain_file_path`]) it is a playlist exactly when the
/// extension of its last segment reads so in lowercase.
pub open spec fn m3u_flag(path: Seq<char>, flag: bool) -> bool {
    &&& flag ==> exists|e: Seq<char>| dotted_part(path, e) && #[trigger] m3u_extension(lowercase_of(e))
    &&& plain_file_path(path) ==> (flag <==> (name_extension(final_segment(path)) matches Some(e)
        && m3u_extension(lowercase_of(e))))
    &&& plain_file_path(path) ==> (name_extension(final_segment(path)) matches Some(e) ==> (all_ascii(e)
        ==> (flag <==> m3u_extension(e.map_values(|c: char| ascii_lower_char(c))))))
}

/// What [`is_supported_audio_file`] states of its answer `flag` for
/// `path`, as [`m3u_flag`] does for the audio extensions.
pub open spec fn audio_flag(path: Seq<char>, flag: bool) -> bool {
    &&& flag ==> exists|e: Seq<char>| dotted_part(path, e) && #[trigger] audio_extension(lowercase_of(e))
    &&& plain_file_path(path) ==> (flag <==> (name_extension(final_segment(path)) matches Some(e)
        && audio_extension(lowercase_of(e))))
    &&& plain_file_path(path) ==> (name_extension(final_segment(path)) matches Some(e) ==> (all_ascii(e)
        ==> (flag <==> audio_extension(e.map_values(|c: char| ascii_lower_char(c))))))
}

/// No extension is both that of an audio format and that of a playlist.
pub proof fn lemma_audio_extension_is_not_m3u(ext_lower: Seq<char>)
    ensures
        audio_extension(ext_lower) ==> !m3u_extension(ext_lower),
{
    reveal_strlit("m3u");
    reveal_strlit("m3u8");
    reveal_strlit("mp3");
    reveal_strlit("flac");
    reveal_strlit("wav");
    reveal_strlit("ogg");
    reveal_strlit("aac");
    reveal_strlit("m4a");
    reveal_strlit("m4s");
    reveal_strlit("wma");
    reveal_strlit("opus");
    if audio_extension(ext_lower) && m3u_extension(ext_lower) {
        if ext_lower == "m3u"@ {
            assert(ext_lower[1] == '3');
        } else {
            assert(ext_lower[1] == '3');
        }
    }
}

/// A plain path (see [`plain_file_path`]) that is taken for an audio file
/// is not taken for a playlist: both answers come from the extension of its
/// last segment, and no extension is both.
pub proof fn lemma_audio_file_is_not_playlist(path: Seq<char>, audio: bool, m3u: bool)
    requires
        plain_file_path(path),
        audio_flag(path, audio),
        m3u_flag(path, m3u),
    ensures
        audio ==> !m3u,
{
    if let Some(e) = name_extension(final_segment(path)) {
        lemma_audio_extension_is_not_m3u(lowercase_of(e));
    }
}

/// Whether a file is an M3U playlist: its extension, in lowercase, is `m3u`
/// or `m3u8` (for example `list.M3U`). For a plain path (see
/// [`plain_file_path`]) the extension is that of its last segment.
pub fn is_m3u_playlist(file_path: &str) -> (r: bool)
    ensures
        r ==> exists|e: Seq<char>| dotted_part(file_path@, e) && #[trigger] m3u_extension(lowercase_of(e)),
        plain_file_path(file_path@) ==> (r <==> (name_extension(final_segment(file_path@)) matches Some(
            e,
        ) && m3u_extension(lowercase_of(e)))),
        plain_file_path(file_path@) ==> (name_extension(final_segment(file_path@)) matches Some(e)
            ==> (all_ascii(e) ==> (r <==> m3u_extension(e.map_values(|c: char| ascii_lower_char(c)))))),
{
    match path_extension(file_path) {
        Some(ext) => {
            let lower = to_lower(ext.as_str());
            let r = is_m3u_extension(lower.as_str());
            assert(r ==> dotted_part(file_path@, ext@) && m3u_extension(lowercase_of(ext@)));
            r
        },
        None => false,
    }
}

/// Whether a file is in a supported audio format: its extension, in
/// lowercase, is one of mp3, flac, wav, ogg, aac, m4a, m4s, wma, opus. For
/// a plain path (see [`plain_file_path`]) the extension is that of its last
/// segment.
pub fn is_supported_audio_file(file_path: &str) -> (r: bool)
    ensures
        r ==> exists|e: Seq<char>|
            dotted_part(file_path@, e) && #[trigger] audio_extension(lowercase_of(e)),
        plain_file_path(file_path@) ==> (r <==> (name_extension(final_segment(file_path@)) matches Some(
            e,
        ) && audio_extension(lowercase_of(e)))),
        plain_file_path(file_path@) ==> (name_extension(final_segment(file_path@)) matches Some(e)
            ==> (all_ascii(e) ==> (r <==> audio_extension(e.map_values(|c: char| ascii_lower_char(c)))))),
{
    match path_extension(file_path) {
        Some(ext) => {
            let lower = to_lower(ext.as_str());
            let r = is_supported_audio_extension(lower.as_str());
            assert(r ==> dotted_part(file_path@, ext@) && audio_extension(lowercase_of(ext@)));
            r
        },
        None => false,
    }
}

/// A name to show: the given one, or `Unknown` when there is none.
pub fn name_or_unknown(name: Option<String>) -> (r: String)
    ensures
        r@ == match name {
            Some(n) => n@,
            None => "Unknown"@,
        },
{
    match name {
        Some(n) => n,
        None => "Unknown".to_owned(),
    }
}

/// What [`extract_filename`] states of its result `name` for `path`.
pub open spec fn shown_file_name(path: Seq<char>, name: Seq<char>) -> bool {
    &&& name == "Unknown"@ || path_piece(path, name)
    &&& path.len() == 0 ==> name == "Unknown"@
    &&& ends_in_parent_dir(path) ==> name == "Unknown"@
    &&& plain_file_path(path) ==> name == final_segment(path)
}

/// The file name of a path (`/path/to/file.mp3` gives `file.mp3`), or
/// `Unknown` when it has none (as the empty path has none). For a plain
/// path (see [`plain_file_path`]) it is the last segment.
pub fn extract_filename(path: &str) -> (r: String)
    ensures
        r@ == "Unknown"@ || path_piece(path@, r@),
        path@.len() == 0 ==> r@ == "Unknown"@,
        ends_in_parent_dir(path@) ==> r@ == "Unknown"@,
        plain_file_path(path@) ==> r@ == final_segment(path@),
{
    name_or_unknown(path_file_name(path))
}

/// The file name of a path without its extension, or `Unknown` when it has
/// none (as the empty path has none). For a plain path (see
/// [`plain_file_path`]) it is the stem of the last segment.
pub fn extract_filename_without_extension(path: &str) -> (r: String)
    ensures
        r@ == "Unknown"@ || (occurs_in(path@, r@) && (!path@.contains('\\') ==> !r@.contains('/'))),
        path@.len() == 0 ==> r@ == "Unknown"@,
        ends_in_parent_dir(path@) ==> r@ == "Unknown"@,
        plain_file_path(path@) ==> r@ == name_stem(final_segment(path@)),
{
    name_or_unknown(path_file_stem(path))
}

/// The absolute path of a file named in a playlist. A relative path is
/// resolved against `base_dir` when there is one, and what is still
/// relative then against the working directory `working_dir`; an absolute
/// path stays as it is.
///
/// Stated on the paths that read alike on every platform: a path that
/// begins at the root `/` stays as it is; a relative path is joined to a
/// base that begins at the root, or else to the working directory (after
/// the base, where there is a relative one).
pub fn normalize_path(path: &str, base_dir: Option<&str>, working_dir: &str) -> (r: String)
    ensures
        rooted_path(path@) && prefix_free(working_dir@) && (base_dir matches Some(b) ==> prefix_free(
            b@,
        )) ==> r@ == path@,
        relative_path(path@) && base_dir is None && plain_dir(working_dir@) ==> joined_with_sep(
            r@,
            working_dir@,
            path@,
        ),
        base_dir matches Some(b) ==> (relative_path(path@) && plain_dir(b@) && b@.len() > 0 && b@[0]
            == '/' && prefix_free(working_dir@) ==> joined_with_sep(r@, b@, path@)),
        base_dir matches Some(b) ==> (relative_path(path@) && plain_dir(b@) && (b@.len() == 0 || b@[0]
            != '/') && plain_dir(working_dir@) ==> exists|t: Seq<char>|
            #[trigger] joined_with_sep(t, b@, path@) && joined_with_sep(r@, working_dir@, t)),
{
    if path_is_absolute(path) {
        return path.to_owned();
    }
    let resolved = match base_dir {
        Some(base) => path_join(base, path),
        None => path.to_owned(),
    };
    proof {
        if relative_path(path@) && base_dir is Some {
            let b = base_dir->0@;
            if plain_dir(b) {
                lemma_join_keeps_form(b, path@, resolved@);
            }
        }
    }
    if path_is_absolute(resolved.as_str()) {
        resolved
    } else {
        path_join(working_dir, resolved.as_str())
    }
}

/// A relative path joined to a plain base begins as the base does: at the
/// root when the base does (and then without a prefix), and otherwise
/// relative.
pub proof fn lemma_join_keeps_form(b: Seq<char>, p: Seq<char>, t: Seq<char>)
    requires
        plain_dir(b),
        relative_path(p),
        joined_with_sep(t, b, p),
    ensures
        b.len() > 0 && b[0] == '/' ==> rooted_path(t),
        b.len() == 0 || b[0] != '/' ==> relative_path(t),
{
    if b.len() > 0 {
        assert(t[0] == b[0]);
        if t.len() >= 2 {
            if b.len() >= 2 {
                assert(t[1] == b[1]);
            } else if b[0] == '/' {
                assert(t[1] == p[0]);
            }
        }
        if t.contains(':') {
            let i = choose|i: int| 0 <= i < t.len() && #[trigger] t[i] == ':';
            if i < b.len() {
                assert(b[i] == ':');
            } else if b.last() == '/' {
                assert(p[i - b.len()] == ':');
            } else if i > b.len() {
                assert(p[i - b.len() - 1] == ':');
            }
        }
    }
}

} // verus!
