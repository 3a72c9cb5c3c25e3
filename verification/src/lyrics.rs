//! Lyrics: the LRC format (`[mm:ss.xx]text` lines with `[tag:value]`
//! metadata), plain-text lyrics, and the lookup of the line that is sung at
//! a given moment.
//!
//! Timestamps are kept in whole milliseconds.

use vstd::prelude::*;
use vstd::std_specs::iter::IteratorSpec;
use std::collections::BTreeMap;
use crate::audio::file::{EmbeddedLyrics, LyricsType};
use crate::error::PlayerError;
use crate::utils::{
    final_segment, joined_with_sep, lemma_plain_join, name_stem, path_file_stem, path_join, path_parent,
    plain_file_path, plain_parent, tidy_dir,
};
use crate::text::{
    chars_of, find_char, index_of, is_digit, lemma_index_of, lemma_index_of_at, lemma_utf8_len_prefix,
    chars_eq_str, lines_of, opt_chars, occurs_once, parse_i32, parse_i32_spec, parse_i64, parse_i64_spec, split_lines,
    lemma_trim_settled, seq_views, slice_chars, string_of, trim, trim_chars, utf8_len,
    utf8_width_of, is_ws, trim_start, trim_end,
};

verus! {

broadcast use vstd::laws_cmp::group_laws_cmp;

// ---------------------------------------------------------------------------
// Timestamps
// ---------------------------------------------------------------------------

/// The fraction digits that are read after the dot of a timestamp: at most
/// the first three bytes of `ms` (all of `ms` when it is shorter).
pub open spec fn fraction_cut(ms: Seq<char>) -> Seq<char> {
    if utf8_len(ms) < 3 {
        ms
    } else {
        ms.take(choose|k: int| 0 <= k <= ms.len() && utf8_len(ms.take(k)) == 3)
    }
}

/// Whether the first three bytes of `ms` end on a character boundary, so
/// that they can be cut off.
pub open spec fn fraction_cut_ok(ms: Seq<char>) -> bool {
    utf8_len(ms) < 3 || exists|k: int| 0 <= k <= ms.len() && utf8_len(ms.take(k)) == 3
}

/// The milliseconds that a cut fraction stands for: one digit is tenths,
/// two are hundredths, three are thousandths, none is zero.
pub open spec fn fraction_millis(cut: Seq<char>) -> Option<int> {
    let n = utf8_len(cut);
    if n == 1 || n == 2 || n == 3 {
        match parse_i64_spec(cut) {
            Some(v) => Some(
                if n == 1 {
                    v * 100
                } else if n == 2 {
                    v * 10
                } else {
                    v as int
                },
            ),
            None => None,
        }
    } else {
        Some(0)
    }
}

/// The minutes text of `mm:ss.xx` (before the only colon).
pub open spec fn minutes_text(t: Seq<char>) -> Seq<char> {
    t.take(index_of(t, ':'))
}

/// The seconds text of `mm:ss.xx` (after the only colon).
pub open spec fn seconds_text(t: Seq<char>) -> Seq<char> {
    t.skip(index_of(t, ':') + 1)
}

/// The milliseconds that the timestamp text `t` (`mm:ss`, `mm:ss.x`,
/// `mm:ss.xx` or `mm:ss.xxx`) stands for; `None` when it is no timestamp.
/// The sum wraps around as the 64-bit arithmetic of the player does.
pub open spec fn timestamp_millis(t: Seq<char>) -> Option<i64> {
    if !occurs_once(t, ':') {
        None
    } else {
        match parse_i64_spec(minutes_text(t)) {
            None => None,
            Some(m) => {
                let sec = seconds_text(t);
                if sec.contains('.') {
                    let d = index_of(sec, '.');
                    match parse_i64_spec(sec.take(d)) {
                        None => None,
                        Some(s) => match fraction_millis(fraction_cut(sec.skip(d + 1))) {
                            None => None,
                            Some(f) => Some((m * 60000 + s * 1000 + f) as i64),
                        },
                    }
                } else {
                    match parse_i64_spec(sec) {
                        None => None,
                        Some(s) => Some((m * 60000 + s * 1000) as i64),
                    }
                }
            },
        }
    }
}

/// Whether reading the timestamp text `t` never cuts a character in two
/// (reading it otherwise stops with a slicing panic).
pub open spec fn timestamp_text_ok(t: Seq<char>) -> bool {
    let sec = seconds_text(t);
    let d = index_of(sec, '.');
    (occurs_once(t, ':') && parse_i64_spec(minutes_text(t)) is Some && sec.contains('.')
        && parse_i64_spec(sec.take(d)) is Some) ==> fraction_cut_ok(sec.skip(d + 1))
}

// ---------------------------------------------------------------------------
// Lines
// ---------------------------------------------------------------------------

/// Whether `c` may stand in a timestamp tag (`[00:12.34]`).
pub open spec fn is_time_char(c: char) -> bool {
    is_digit(c) || c == '.' || c == ':'
}

/// The `(tag, value)` of a metadata line `[tag:value]`; `None` when the line
/// is no metadata tag (a timestamp is none).
pub open spec fn metadata_tag(line: Seq<char>) -> Option<(Seq<char>, Seq<char>)> {
    if line.len() >= 2 && line[0] == '[' && line.last() == ']' {
        let content = line.subrange(1, line.len() - 1);
        if content.contains(':') {
            let k = index_of(content, ':');
            let tag = content.take(k);
            if forall|i: int| 0 <= i < tag.len() ==> is_time_char(#[trigger] tag[i]) {
                None
            } else {
                Some((tag, content.skip(k + 1)))
            }
        } else {
            None
        }
    } else {
        None
    }
}

/// The texts of the bracket pairs of `s`, from left to right: each from a
/// `[` to the first `]` after it; the scan goes on after that `]`.
pub open spec fn bracket_tags(s: Seq<char>) -> Seq<Seq<char>>
    decreases s.len(),
{
    let st = index_of(s, '[');
    if 0 <= st < s.len() {
        let after = s.skip(st);
        let e = st + index_of(after, ']');
        if e < s.len() && st < e {
            seq![s.subrange(st + 1, e)] + bracket_tags(s.skip(e + 1))
        } else {
            seq![]
        }
    } else {
        seq![]
    }
}

/// The valid timestamps among `tags`, in order.
pub open spec fn tag_timestamps(tags: Seq<Seq<char>>) -> Seq<i64>
    decreases tags.len(),
{
    if tags.len() == 0 {
        seq![]
    } else {
        let prev = tag_timestamps(tags.drop_last());
        match timestamp_millis(tags.last()) {
            Some(v) => prev.push(v),
            None => prev,
        }
    }
}

/// Whether the text scan has an open `[` after reading `s`.
pub open spec fn in_bracket_after(s: Seq<char>) -> bool
    decreases s.len(),
{
    if s.len() == 0 {
        false
    } else if s.last() == '[' {
        true
    } else if s.last() == ']' {
        false
    } else {
        in_bracket_after(s.drop_last())
    }
}

/// The characters of `s` outside brackets (the brackets themselves dropped).
pub open spec fn outside_brackets(s: Seq<char>) -> Seq<char>
    decreases s.len(),
{
    if s.len() == 0 {
        seq![]
    } else {
        let prev = outside_brackets(s.drop_last());
        let c = s.last();
        if c == '[' || c == ']' || in_bracket_after(s.drop_last()) {
            prev
        } else {
            prev.push(c)
        }
    }
}

/// The lyric text of a line: what lies outside its brackets, trimmed.
pub open spec fn lyric_text(line: Seq<char>) -> Seq<char> {
    trim(outside_brackets(line))
}

/// What lies outside the brackets holds no bracket.
proof fn lemma_outside_brackets_plain(s: Seq<char>)
    ensures
        !outside_brackets(s).contains('['),
        !outside_brackets(s).contains(']'),
    decreases s.len(),
{
    if s.len() > 0 {
        lemma_outside_brackets_plain(s.drop_last());
        let prev = outside_brackets(s.drop_last());
        let o = outside_brackets(s);
        assert forall|i: int| 0 <= i < o.len() implies o[i] != '[' && o[i] != ']' by {
            if i < prev.len() {
                assert(o[i] == prev[i]);
            }
        }
    }
}

/// A text without brackets lies wholly outside brackets.
proof fn lemma_outside_brackets_of_plain(s: Seq<char>)
    requires
        !s.contains('['),
        !s.contains(']'),
    ensures
        !in_bracket_after(s),
        outside_brackets(s) == s,
    decreases s.len(),
{
    if s.len() > 0 {
        let q = s.drop_last();
        assert(!q.contains('[') && !q.contains(']')) by {
            if q.contains('[') {
                let i = choose|i: int| 0 <= i < q.len() && #[trigger] q[i] == '[';
                assert(s[i] == '[');
            }
            if q.contains(']') {
                let i = choose|i: int| 0 <= i < q.len() && #[trigger] q[i] == ']';
                assert(s[i] == ']');
            }
        }
        lemma_outside_brackets_of_plain(q);
        assert(s.last() != '[' && s.last() != ']') by {
            assert(s[s.len() - 1] == s.last());
        }
        assert(q.push(s.last()) =~= s);
    }
}

/// The lyric text of a line is settled: it holds no bracket, has no
/// whitespace at either end, and taking the lyric text of it again gives it
/// back.
pub proof fn lemma_lyric_text_settled(line: Seq<char>)
    ensures
        !lyric_text(line).contains('['),
        !lyric_text(line).contains(']'),
        trim(lyric_text(line)) == lyric_text(line),
        lyric_text(lyric_text(line)) == lyric_text(line),
{
    let o = outside_brackets(line);
    let t = lyric_text(line);
    lemma_outside_brackets_plain(line);
    lemma_trim_settled(o);
    let i = choose|i: int| 0 <= i && i + trim(o).len() <= o.len() && #[trigger] o.subrange(i, i + trim(o).len()) == trim(o);
    assert(!t.contains('[') && !t.contains(']')) by {
        if t.contains('[') {
            let j = choose|j: int| 0 <= j < t.len() && #[trigger] t[j] == '[';
            assert(o[i + j] == '[');
        }
        if t.contains(']') {
            let j = choose|j: int| 0 <= j < t.len() && #[trigger] t[j] == ']';
            assert(o[i + j] == ']');
        }
    }
    lemma_outside_brackets_of_plain(t);
}

/// The timestamps and text of a lyric line; `None` when it has no valid
/// timestamp.
pub open spec fn lyric_line(line: Seq<char>) -> Option<(Seq<i64>, Seq<char>)> {
    let tss = tag_timestamps(bracket_tags(line));
    if tss.len() == 0 {
        None
    } else {
        Some((tss, lyric_text(line)))
    }
}

/// Whether reading every bracket of the line as a timestamp is panic-free.
pub open spec fn lyric_line_ok(line: Seq<char>) -> bool {
    forall|i: int|
        0 <= i < bracket_tags(line).len() ==> timestamp_text_ok(#[trigger] bracket_tags(line)[i])
}

// ---------------------------------------------------------------------------
// Executable parsing of single lines
// ---------------------------------------------------------------------------

/// The number of characters of `ms` that make up its first three bytes
/// (all of them when it is shorter).
fn fraction_cut_len(ms: &[char]) -> (k: usize)
    requires
        fraction_cut_ok(ms@),
    ensures
        k <= ms@.len(),
        ms@.take(k as int) == fraction_cut(ms@),
        utf8_len(ms@.take(k as int)) <= 3,
{
    let mut i: usize = 0;
    let mut bytes: usize = 0;
    while i < ms.len() && bytes + utf8_width_of(ms[i]) <= 3
        invariant
            i <= ms@.len(),
            bytes == utf8_len(ms@.take(i as int)),
            bytes <= 3,
        decreases ms@.len() - i,
    {
        let w = utf8_width_of(ms[i]);
        assert(ms@.take(i + 1).drop_last() =~= ms@.take(i as int));
        bytes += w;
        i += 1;
    }
    proof {
        if i < ms@.len() {
            assert(ms@.take(i + 1).drop_last() =~= ms@.take(i as int));
            assert(utf8_len(ms@.take(i + 1)) > 3);
            lemma_utf8_len_prefix(ms@, i + 1, ms@.len() as int);
            assert(ms@.take(ms@.len() as int) =~= ms@);
            assert(utf8_len(ms@) >= 3);
            let k = choose|k: int| 0 <= k <= ms@.len() && utf8_len(ms@.take(k)) == 3;
            if k < i {
                lemma_utf8_len_prefix(ms@, k, i as int);
            } else if k > i {
                lemma_utf8_len_prefix(ms@, i + 1, k);
            }
            assert(k == i);
        } else {
            assert(ms@.take(i as int) =~= ms@);
            if utf8_len(ms@) >= 3 {
                assert(bytes == 3);
                let k = choose|k: int| 0 <= k <= ms@.len() && utf8_len(ms@.take(k)) == 3;
                if k < i {
                    lemma_utf8_len_prefix(ms@, k, i as int);
                }
                assert(k == i);
            }
        }
    }
    i
}

/// Reads the timestamp text `mm:ss.xx` as milliseconds (the characters of it).
pub fn parse_timestamp_chars(t: &[char]) -> (r: Option<i64>)
    requires
        timestamp_text_ok(t@),
    ensures
        r == timestamp_millis(t@),
{
    // exactly one colon
    let first = find_char(t, ':', 0);
    let k = match first {
        None => {
            assert(!occurs_once(t@, ':'));
            return None;
        },
        Some(k) => k,
    };
    let n = t.len();
    let second = find_char(t, ':', k + 1);
    if let Some(k2) = second {
        assert(!occurs_once(t@, ':')) by {
            if occurs_once(t@, ':') {
                let w = choose|w: int|
                    0 <= w < t@.len() && t@[w] == ':' && (forall|j: int|
                        0 <= j < t@.len() && j != w ==> t@[j] != ':');
                assert(t@[k as int] == ':');
                assert(t@[k2 as int] == ':');
            }
        }
        return None;
    }
    assert(occurs_once(t@, ':')) by {
        assert(t@[k as int] == ':');
        assert forall|j: int| 0 <= j < t@.len() && j != k implies t@[j] != ':' by {}
    }
    proof {
        lemma_index_of_at(t@, ':', k as int);
    }
    let minutes_cs = slice_chars(t, 0, k);
    assert(minutes_cs@ =~= minutes_text(t@));
    let minutes = match parse_i64(&minutes_cs) {
        None => return None,
        Some(m) => m,
    };
    let sec = slice_chars(t, k + 1, t.len());
    assert(sec@ =~= seconds_text(t@));
    proof {
        lemma_index_of(sec@, '.');
    }
    match find_char(&sec, '.', 0) {
        Some(d) => {
            proof {
                lemma_index_of_at(sec@, '.', d as int);
            }
            assert(sec@.contains('.')) by {
                assert(sec@[d as int] == '.');
            }
            let sec_int = slice_chars(&sec, 0, d);
            assert(sec_int@ =~= sec@.take(d as int));
            let seconds = match parse_i64(&sec_int) {
                None => return None,
                Some(s) => s,
            };
            let frac = slice_chars(&sec, d + 1, sec.len());
            assert(frac@ =~= sec@.skip(d + 1));
            let cut_len = fraction_cut_len(&frac);
            let cut = slice_chars(&frac, 0, cut_len);
            assert(cut@ =~= frac@.take(cut_len as int));
            let ghost cutv = cut@;
            // the byte length of the cut
            let mut bytes: usize = 0;
            let mut i: usize = 0;
            while i < cut.len()
                invariant
                    i <= cut@.len(),
                    cut@ == cutv,
                    bytes == utf8_len(cutv.take(i as int)),
                    utf8_len(cutv) <= 3,
                decreases cut@.len() - i,
            {
                assert(cutv.take(i + 1).drop_last() =~= cutv.take(i as int));
                proof {
                    lemma_utf8_len_prefix(cutv, i + 1, cutv.len() as int);
                    assert(cutv.take(cutv.len() as int) =~= cutv);
                }
                bytes += utf8_width_of(cut[i]);
                i += 1;
            }
            assert(cutv.take(cutv.len() as int) =~= cutv);
            let millis: i128 = if bytes == 1 || bytes == 2 || bytes == 3 {
                match parse_i64(&cut) {
                    None => return None,
                    Some(v) => {
                        if bytes == 1 {
                            (v as i128) * 100
                        } else if bytes == 2 {
                            (v as i128) * 10
                        } else {
                            v as i128
                        }
                    },
                }
            } else {
                0
            };
            let total: i128 = (minutes as i128) * 60000 + (seconds as i128) * 1000 + millis;
            Some(total as i64)
        },
        None => {
            assert(!sec@.contains('.'));
            let seconds = match parse_i64(&sec) {
                None => return None,
                Some(s) => s,
            };
            let total: i128 = (minutes as i128) * 60000 + (seconds as i128) * 1000;
            Some(total as i64)
        },
    }
}

/// Reads a timestamp `mm:ss.xx` (or `mm:ss`) as milliseconds.
pub fn parse_timestamp(time_str: &str) -> (r: Option<i64>)
    requires
        timestamp_text_ok(time_str@),
    ensures
        r == timestamp_millis(time_str@),
{
    let cs = chars_of(time_str);
    parse_timestamp_chars(&cs)
}


/// The `(tag, value)` of a metadata line (the characters of it).
pub fn parse_metadata_tag_chars(line: &[char]) -> (r: Option<(Vec<char>, Vec<char>)>)
    ensures
        match r {
            Some((tag, value)) => metadata_tag(line@) == Some((tag@, value@)),
            None => metadata_tag(line@) is None,
        },
{
    let n = line.len();
    if n < 2 || line[0] != '[' || line[n - 1] != ']' {
        return None;
    }
    let content = slice_chars(line, 1, n - 1);
    assert(content@ =~= line@.subrange(1, line@.len() - 1));
    proof {
        lemma_index_of(content@, ':');
    }
    let k = match find_char(&content, ':', 0) {
        None => {
            return None;
        },
        Some(k) => k,
    };
    proof {
        lemma_index_of_at(content@, ':', k as int);
    }
    assert(content@.contains(':')) by {
        assert(content@[k as int] == ':');
    }
    let tag = slice_chars(&content, 0, k);
    assert(tag@ =~= content@.take(k as int));
    let mut all_time = true;
    let mut i: usize = 0;
    while i < tag.len()
        invariant
            i <= tag@.len(),
            all_time == (forall|j: int| 0 <= j < i ==> is_time_char(#[trigger] tag@[j])),
        decreases tag@.len() - i,
    {
        let c = tag[i];
        if !(('0' <= c && c <= '9') || c == '.' || c == ':') {
            all_time = false;
        }
        i += 1;
    }
    if all_time {
        return None;
    }
    let value = slice_chars(&content, k + 1, content.len());
    assert(value@ =~= content@.skip(k + 1));
    Some((tag, value))
}

/// The `(tag, value)` of a metadata line such as `[ti:Title]`; `None` for
/// other lines, timestamps among them.
pub fn parse_metadata_tag(line: &str) -> (r: Option<(String, String)>)
    ensures
        match r {
            Some((tag, value)) => metadata_tag(line@) == Some((tag@, value@)),
            None => metadata_tag(line@) is None,
        },
{
    let cs = chars_of(line);
    match parse_metadata_tag_chars(&cs) {
        Some((tag, value)) => Some((string_of(&tag), string_of(&value))),
        None => None,
    }
}

/// The text of a line outside its brackets, trimmed (the characters of it).
pub fn extract_text_chars(line: &[char]) -> (r: Vec<char>)
    ensures
        r@ == lyric_text(line@),
{
    let mut kept: Vec<char> = Vec::new();
    let mut in_bracket = false;
    let mut i: usize = 0;
    while i < line.len()
        invariant
            i <= line@.len(),
            kept@ == outside_brackets(line@.take(i as int)),
            in_bracket == in_bracket_after(line@.take(i as int)),
        decreases line@.len() - i,
    {
        let c = line[i];
        assert(line@.take(i + 1).drop_last() =~= line@.take(i as int));
        assert(line@.take(i + 1).last() == c);
        if c == '[' {
            in_bracket = true;
        } else if c == ']' {
            in_bracket = false;
        } else if !in_bracket {
            kept.push(c);
        }
        i += 1;
    }
    assert(line@.take(line@.len() as int) =~= line@);
    trim_chars(&kept)
}

/// The text of a lyric line without its timestamp tags, trimmed.
pub fn extract_text_after_timestamps(line: &str) -> (r: String)
    ensures
        r@ == lyric_text(line@),
{
    let cs = chars_of(line);
    let t = extract_text_chars(&cs);
    string_of(&t)
}

/// The timestamps and text of a lyric line (the characters of it).
pub fn parse_lyric_line_chars(line: &[char]) -> (r: Option<(Vec<i64>, Vec<char>)>)
    requires
        lyric_line_ok(line@),
    ensures
        match r {
            Some((tss, text)) => lyric_line(line@) == Some((tss@, text@)),
            None => lyric_line(line@) is None,
        },
{
    let n = line.len();
    let mut timestamps: Vec<i64> = Vec::new();
    let mut pos: usize = 0;
    let ghost mut seen: Seq<Seq<char>> = seq![];
    assert(line@.skip(0) =~= line@);
    loop
        invariant
            pos <= n == line@.len(),
            bracket_tags(line@) == seen + bracket_tags(line@.skip(pos as int)),
            timestamps@ == tag_timestamps(seen),
            lyric_line_ok(line@),
        ensures
            bracket_tags(line@) == seen,
            timestamps@ == tag_timestamps(seen),
        decreases n - pos,
    {
        let ghost rest = line@.skip(pos as int);
        if pos >= n {
            assert(rest =~= seq![]);
            assert(bracket_tags(rest) =~= seq![]);
            assert(seen + seq![] =~= seen);
            break;
        }
        let st = match find_char(line, '[', pos) {
            None => {
                proof {
                    lemma_index_of_at(rest, '[', rest.len() as int);
                }
                assert(bracket_tags(rest) =~= seq![]);
                assert(seen + seq![] =~= seen);
                break;
            },
            Some(st) => st,
        };
        proof {
            lemma_index_of_at(rest, '[', st - pos);
        }
        let e = match find_char(line, ']', st) {
            None => {
                let ghost after = rest.skip(st - pos);
                assert(after =~= line@.skip(st as int));
                proof {
                    lemma_index_of_at(after, ']', after.len() as int);
                }
                assert(bracket_tags(rest) =~= seq![]);
                assert(seen + seq![] =~= seen);
                break;
            },
            Some(e) => e,
        };
        let ghost after = rest.skip(st - pos);
        assert(after =~= line@.skip(st as int));
        proof {
            lemma_index_of_at(after, ']', e - st);
        }
        let tag = slice_chars(line, st + 1, e);
        assert(tag@ =~= rest.subrange(st - pos + 1, e - pos));
        assert(rest.skip(e - pos + 1) =~= line@.skip(e + 1));
        assert(bracket_tags(rest) == seq![tag@] + bracket_tags(line@.skip(e + 1)));
        let ghost new_seen = seen.push(tag@);
        assert(bracket_tags(line@) =~= new_seen + bracket_tags(line@.skip(e + 1)));
        assert(bracket_tags(line@)[seen.len() as int] == tag@);
        assert(new_seen.drop_last() =~= seen);
        match parse_timestamp_chars(&tag) {
            Some(v) => {
                timestamps.push(v);
            },
            None => {},
        }
        proof {
            seen = new_seen;
        }
        pos = e + 1;
    }
    if timestamps.len() == 0 {
        return None;
    }
    let text = extract_text_chars(line);
    Some((timestamps, text))
}

/// The timestamps (milliseconds) and text of a lyric line such as
/// `[00:12.34][00:56.78]text`; `None` when it holds no valid timestamp.
pub fn parse_lyric_line(line: &str) -> (r: Option<(Vec<i64>, String)>)
    requires
        lyric_line_ok(line@),
    ensures
        match r {
            Some((tss, text)) => lyric_line(line@) == Some((tss@, text@)),
            None => lyric_line(line@) is None,
        },
{
    let cs = chars_of(line);
    match parse_lyric_line_chars(&cs) {
        Some((tss, text)) => Some((tss, string_of(&text))),
        None => None,
    }
}

// ---------------------------------------------------------------------------
// Lyrics
// ---------------------------------------------------------------------------

/// A line of lyrics.
#[derive(Debug)]
pub struct LyricLine {
    /// When the line is sung, in milliseconds.
    pub timestamp_ms: i128,
    /// The text of the line.
    pub text: String,
}

impl View for LyricLine {
    type V = (int, Seq<char>);

    open spec fn view(&self) -> (int, Seq<char>) {
        (self.timestamp_ms as int, self.text@)
    }
}

impl Clone for LyricLine {
    fn clone(&self) -> (r: Self)
        ensures
            r@ == self@,
    {
        LyricLine { timestamp_ms: self.timestamp_ms, text: self.text.clone() }
    }
}

/// The metadata of lyrics as values.
pub struct MetadataModel {
    pub title: Option<Seq<char>>,
    pub artist: Option<Seq<char>>,
    pub album: Option<Seq<char>>,
    pub by: Option<Seq<char>>,
    pub offset: i32,
}

/// The metadata of lyrics (LRC `[ti:]`, `[ar:]`, `[al:]`, `[by:]`,
/// `[offset:]` tags).
#[derive(Debug)]
pub struct LyricsMetadata {
    /// The title.
    pub title: Option<String>,
    /// The artist.
    pub artist: Option<String>,
    /// The album.
    pub album: Option<String>,
    /// Who made the lyrics.
    pub by: Option<String>,
    /// The offset added to every later timestamp, in milliseconds.
    pub offset: i32,
}

impl View for LyricsMetadata {
    type V = MetadataModel;

    open spec fn view(&self) -> MetadataModel {
        MetadataModel {
            title: opt_chars(self.title),
            artist: opt_chars(self.artist),
            album: opt_chars(self.album),
            by: opt_chars(self.by),
            offset: self.offset,
        }
    }
}

/// No metadata at all.
pub open spec fn empty_metadata() -> MetadataModel {
    MetadataModel { title: None, artist: None, album: None, by: None, offset: 0 }
}

fn clone_opt(o: &Option<String>) -> (r: Option<String>)
    ensures
        opt_chars(r) == opt_chars(*o),
{
    match o {
        Some(s) => Some(s.clone()),
        None => None,
    }
}

impl Clone for LyricsMetadata {
    fn clone(&self) -> (r: Self)
        ensures
            r@ == self@,
    {
        LyricsMetadata {
            title: clone_opt(&self.title),
            artist: clone_opt(&self.artist),
            album: clone_opt(&self.album),
            by: clone_opt(&self.by),
            offset: self.offset,
        }
    }
}

impl Default for LyricsMetadata {
    fn default() -> (r: Self)
        ensures
            r@ == empty_metadata(),
    {
        LyricsMetadata { title: None, artist: None, album: None, by: None, offset: 0 }
    }
}

/// Lyrics: lines ordered by time, and metadata.
#[derive(Debug)]
pub struct Lyrics {
    /// The lines, ordered by time.
    pub lines: Vec<LyricLine>,
    /// The metadata.
    pub metadata: LyricsMetadata,
}

/// The values of a sequence of lines.
pub open spec fn line_views(v: Seq<LyricLine>) -> Seq<(int, Seq<char>)> {
    v.map_values(|l: LyricLine| l@)
}

impl Default for Lyrics {
    fn default() -> (r: Self)
        ensures
            r.lines@.len() == 0,
            r.metadata@ == empty_metadata(),
    {
        Lyrics { lines: Vec::new(), metadata: LyricsMetadata::default() }
    }
}

impl Clone for Lyrics {
    fn clone(&self) -> (r: Self)
        ensures
            line_views(r.lines@) == line_views(self.lines@),
            r.metadata@ == self.metadata@,
    {
        let mut lines: Vec<LyricLine> = Vec::new();
        let mut i: usize = 0;
        while i < self.lines.len()
            invariant
                i <= self.lines@.len(),
                line_views(lines@) =~= line_views(self.lines@).take(i as int),
            decreases self.lines@.len() - i,
        {
            let ghost before = lines@;
            let l = self.lines[i].clone();
            lines.push(l);
            assert(line_views(lines@) =~= line_views(before).push(self.lines@[i as int]@));
            assert(line_views(self.lines@).take(i + 1) =~= line_views(self.lines@).take(
                i as int,
            ).push(self.lines@[i as int]@));
            i += 1;
        }
        assert(line_views(self.lines@).take(self.lines@.len() as int) =~= line_views(self.lines@));
        Lyrics { lines, metadata: self.metadata.clone() }
    }
}

/// The metadata after the tag `[tag:value]`.
pub open spec fn apply_tag(meta: MetadataModel, tag: Seq<char>, value: Seq<char>) -> MetadataModel {
    if tag == "ti"@ {
        MetadataModel { title: Some(value), ..meta }
    } else if tag == "ar"@ {
        MetadataModel { artist: Some(value), ..meta }
    } else if tag == "al"@ {
        MetadataModel { album: Some(value), ..meta }
    } else if tag == "by"@ {
        MetadataModel { by: Some(value), ..meta }
    } else if tag == "offset"@ {
        match parse_i32_spec(value) {
            Some(o) => MetadataModel { offset: o, ..meta },
            None => meta,
        }
    } else {
        meta
    }
}

/// `m` after the line `text` was placed at each timestamp of `tss`, moved by
/// `offset` (the sum wraps around as the 64-bit arithmetic of the player
/// does); a later line at the same time replaces an earlier one.
pub open spec fn insert_timestamps(
    m: Map<i64, Seq<char>>,
    tss: Seq<i64>,
    offset: i32,
    text: Seq<char>,
) -> Map<i64, Seq<char>>
    decreases tss.len(),
{
    if tss.len() == 0 {
        m
    } else {
        insert_timestamps(m, tss.drop_last(), offset, text).insert(
            (tss.last() + offset) as i64,
            text,
        )
    }
}

/// One LRC line read into the metadata and the timed lines so far.
pub open spec fn lrc_step(
    st: (MetadataModel, Map<i64, Seq<char>>),
    line: Seq<char>,
) -> (MetadataModel, Map<i64, Seq<char>>) {
    let t = trim(line);
    if t.len() == 0 {
        st
    } else {
        match metadata_tag(t) {
            Some((tag, value)) => (apply_tag(st.0, tag, value), st.1),
            None => match lyric_line(t) {
                Some((tss, text)) => (st.0, insert_timestamps(st.1, tss, st.0.offset, text)),
                None => st,
            },
        }
    }
}

/// The metadata and timed lines that the LRC lines `lines` describe.
pub open spec fn lrc_fold(lines: Seq<Seq<char>>) -> (MetadataModel, Map<i64, Seq<char>>)
    decreases lines.len(),
{
    if lines.len() == 0 {
        (empty_metadata(), Map::empty())
    } else {
        lrc_step(lrc_fold(lines.drop_last()), lines.last())
    }
}

/// Whether every lyric line of the LRC text can be read without a panic.
pub open spec fn lrc_content_ok(content: Seq<char>) -> bool {
    forall|i: int|
        0 <= i < lines_of(content).len() ==> {
            let t = trim(#[trigger] lines_of(content)[i]);
            t.len() > 0 && metadata_tag(t) is None ==> lyric_line_ok(t)
        }
}

/// Whether `lines` lists the entries of `m` in increasing order of time.
pub open spec fn sorted_entries(lines: Seq<(int, Seq<char>)>, m: Map<i64, Seq<char>>) -> bool {
    &&& forall|i: int, j: int| 0 <= i < j < lines.len() ==> lines[i].0 < lines[j].0
    &&& forall|i: int|
        0 <= i < lines.len() ==> i64::MIN <= #[trigger] lines[i].0 <= i64::MAX && m.contains_key(
            lines[i].0 as i64,
        ) && m[lines[i].0 as i64] == lines[i].1
    &&& forall|k: i64| m.contains_key(k) ==> exists|i: int| 0 <= i < lines.len() && #[trigger] lines[i].0 == k
}

/// The texts of a map from times to lines, as character sequences.
pub open spec fn text_views(m: Map<i64, String>) -> Map<i64, Seq<char>> {
    m.map_values(|s: String| s@)
}

/// Times, as `i64`, are keys that a `BTreeMap` orders as numbers.
proof fn lemma_times_are_ordered_keys()
    ensures
        vstd::std_specs::btree::key_obeys_cmp_spec::<i64>(),
{
    broadcast use vstd::std_specs::btree::group_btree_axioms;
    assert(vstd::laws_cmp::obeys_cmp::<i64>());
}

/// Entries whose times come in increasing order, as a `BTreeMap` hands
/// them out, have strictly increasing times.
proof fn lemma_increasing_times(items: Seq<(&i64, &String)>)
    requires
        vstd::std_specs::btree::increasing_seq(items.map_values(|kv: (&i64, &String)| *kv.0)),
    ensures
        forall|i: int, j: int| 0 <= i < j < items.len() ==> *items[i].0 < *items[j].0,
{
    broadcast use vstd::std_specs::btree::group_btree_axioms;
    assert(vstd::laws_cmp::obeys_cmp::<i64>());
    let keys = items.map_values(|kv: (&i64, &String)| *kv.0);
    assert forall|i: int, j: int| 0 <= i < j < items.len() implies *items[i].0 < *items[j].0 by {
        assert(vstd::std_specs::cmp::OrdSpec::cmp_spec(&keys[i], &keys[j]) is Less);
    }
}

/// The lines of a map from times to texts, in increasing order of time.
fn lines_in_order(map: &BTreeMap<i64, String>) -> (r: Vec<LyricLine>)
    ensures
        sorted_entries(line_views(r@), text_views(map@)),
{
    broadcast use vstd::std_specs::btree::group_btree_axioms;
    let mut r: Vec<LyricLine> = Vec::new();
    proof {
        lemma_times_are_ordered_keys();
    }
    let it0 = map.iter();
    let ghost items = it0.remaining();
    assert(items.len() == map@.dom().len());
    for (k, v) in it: it0
        invariant
            items == it.seq(),
            r@.len() == it.index(),
            forall|j: int| 0 <= j < it.index() ==> (#[trigger] r@[j])@ == (*items[j].0 as int, items[j].1@),
    {
        r.push(LyricLine { timestamp_ms: *k as i128, text: v.clone() });
    }
    proof {
        lemma_increasing_times(items);
        let lv = line_views(r@);
        assert(it0 == vstd::std_specs::btree::spec_btree_map_iter(map));
        assert(lv.len() == items.len());
        assert forall|i: int, j: int| 0 <= i < j < lv.len() implies lv[i].0 < lv[j].0 by {
            assert(lv[i].0 == *items[i].0 && lv[j].0 == *items[j].0);
        }
        let tv = text_views(map@);
        assert forall|i: int| 0 <= i < lv.len() implies i64::MIN <= #[trigger] lv[i].0 <= i64::MAX
            && tv.contains_key(lv[i].0 as i64) && tv[lv[i].0 as i64] == lv[i].1 by {
            assert(lv[i] == (*items[i].0 as int, items[i].1@));
            assert(map@.contains_key(*items[i].0) && map@[*items[i].0] == *items[i].1);
        }
        assert forall|k: i64| tv.contains_key(k) implies exists|i: int|
            0 <= i < lv.len() && #[trigger] lv[i].0 == k by {
            assert(map@.contains_key(k));
            assert(items.contains((&k, &map@[k])));
            let i = choose|i: int| 0 <= i < items.len() && items[i] == (&k, &map@[k]);
            assert(lv[i] == (*items[i].0 as int, items[i].1@));
            assert(*items[i].0 == k);
            assert(lv[i].0 == k);
        }
    }
    r
}

/// The metadata after the tag `[tag:value]` (executable).
fn apply_tag_exec(meta: &mut LyricsMetadata, tag: &[char], value: &[char])
    ensures
        final(meta)@ == apply_tag(old(meta)@, tag@, value@),
{
    if chars_eq_str(tag, "ti") {
        meta.title = Some(string_of(value));
    } else if chars_eq_str(tag, "ar") {
        meta.artist = Some(string_of(value));
    } else if chars_eq_str(tag, "al") {
        meta.album = Some(string_of(value));
    } else if chars_eq_str(tag, "by") {
        meta.by = Some(string_of(value));
    } else if chars_eq_str(tag, "offset") {
        if let Some(o) = parse_i32(value) {
            meta.offset = o;
        }
    }
}

/// The non-empty lines of `ls`, trimmed.
pub open spec fn nonempty_trimmed(ls: Seq<Seq<char>>) -> Seq<Seq<char>>
    decreases ls.len(),
{
    if ls.len() == 0 {
        seq![]
    } else {
        let prev = nonempty_trimmed(ls.drop_last());
        let t = trim(ls.last());
        if t.len() > 0 {
            prev.push(t)
        } else {
            prev
        }
    }
}

/// Whether `l` holds the lyrics of the LRC text `content`.
pub open spec fn is_lrc_lyrics(l: Lyrics, content: Seq<char>) -> bool {
    let model = lrc_fold(lines_of(content));
    &&& l.metadata@ == model.0
    &&& sorted_entries(line_views(l.lines@), model.1)
}

/// Whether `l` holds the plain-text lyrics `content`: its non-empty lines,
/// trimmed, three seconds apart from time zero.
pub open spec fn is_plain_lyrics(l: Lyrics, content: Seq<char>) -> bool {
    let texts = nonempty_trimmed(lines_of(content));
    &&& l.metadata@ == empty_metadata()
    &&& line_views(l.lines@).len() == texts.len()
    &&& forall|i: int|
        0 <= i < texts.len() ==> #[trigger] line_views(l.lines@)[i] == (i * 3000, texts[i])
}

/// The preference of a kind of embedded lyrics (lower is preferred).
pub open spec fn lyrics_priority(t: LyricsType) -> int {
    match t {
        LyricsType::Lrc => 0,
        LyricsType::Synchronized => 1,
        LyricsType::Unsynchronized => 2,
        LyricsType::Other(_) => 3,
    }
}

/// Whether `i` is the first of the most preferred embedded lyrics.
pub open spec fn is_preferred(s: Seq<EmbeddedLyrics>, i: int) -> bool {
    &&& 0 <= i < s.len()
    &&& forall|j: int|
        0 <= j < s.len() ==> lyrics_priority(s[i].lyrics_type) <= lyrics_priority(
            #[trigger] s[j].lyrics_type,
        )
    &&& forall|j: int|
        0 <= j < i ==> lyrics_priority(#[trigger] s[j].lyrics_type) > lyrics_priority(
            s[i].lyrics_type,
        )
}

/// The indices of the lines whose time lies in `[start, end]`, in order.
pub open spec fn indices_in_range(ts: Seq<(int, Seq<char>)>, start: int, end: int) -> Seq<int>
    decreases ts.len(),
{
    if ts.len() == 0 {
        seq![]
    } else {
        let prev = indices_in_range(ts.drop_last(), start, end);
        let t = ts.last().0;
        if start <= t <= end {
            prev.push(ts.len() - 1)
        } else {
            prev
        }
    }
}

/// Whether `e` is the line of `lines` at index `i`, with that index.
pub open spec fn range_entry_ok(e: (usize, &LyricLine), lines: Seq<LyricLine>, i: int) -> bool {
    &&& e.0 == i
    &&& 0 <= i < lines.len()
    &&& *e.1 == lines[i]
}

/// Whether `r` lists, in order, the lines of `lines` whose time lies in
/// `[start, end]`, each with its index.
pub open spec fn lines_in_range_result(
    r: Seq<(usize, &LyricLine)>,
    lines: Seq<LyricLine>,
    start: int,
    end: int,
) -> bool {
    &&& r.len() == indices_in_range(line_views(lines), start, end).len()
    &&& forall|k: int|
        #![trigger r[k]]
        0 <= k < r.len() ==> range_entry_ok(r[k], lines, indices_in_range(line_views(lines), start, end)[k])
}

impl Lyrics {
    /// Reads lyrics in the LRC format: metadata tags, and lines with one or
    /// more timestamps; the lines come out ordered by time, one per time.
    pub fn from_lrc_content(content: &str) -> (r: Result<Lyrics, PlayerError>)
        requires
            lrc_content_ok(content@),
        ensures
            r matches Ok(l) && is_lrc_lyrics(l, content@),
    {
        let cs = chars_of(content);
        let lines = split_lines(&cs);
        let ghost ls = seq_views(lines@);
        let mut meta = LyricsMetadata::default();
        let mut timeline: BTreeMap<i64, String> = BTreeMap::new();
        let ghost mut entries: Map<i64, Seq<char>> = Map::empty();
        proof {
            lemma_times_are_ordered_keys();
            assert(text_views(timeline@) =~= entries);
        }
        let mut i: usize = 0;
        assert(ls.take(0) =~= seq![]);
        while i < lines.len()
            invariant
                i <= lines@.len(),
                ls == seq_views(lines@),
                ls == lines_of(content@),
                lrc_content_ok(content@),
                (meta@, entries) == lrc_fold(ls.take(i as int)),
                text_views(timeline@) == entries,
            decreases lines@.len() - i,
        {
            assert(ls.take(i + 1).drop_last() =~= ls.take(i as int));
            assert(ls.take(i + 1).last() == ls[i as int]);
            assert(ls[i as int] == lines@[i as int]@);
            let t = trim_chars(&lines[i]);
            if t.len() > 0 {
                match parse_metadata_tag_chars(&t) {
                    Some((tag, value)) => {
                        apply_tag_exec(&mut meta, &tag, &value);
                    },
                    None => {
                        assert(lyric_line_ok(t@)) by {
                            assert(trim(lines_of(content@)[i as int]) == t@);
                        }
                        match parse_lyric_line_chars(&t) {
                            Some((tss, text)) => {
                                let text_s = string_of(&text);
                                let ghost base = entries;
                                let mut j: usize = 0;
                                assert(tss@.take(0) =~= seq![]);
                                while j < tss.len()
                                    invariant
                                        j <= tss@.len(),
                                        text_views(timeline@) == insert_timestamps(
                                            base,
                                            tss@.take(j as int),
                                            meta@.offset,
                                            text_s@,
                                        ),
                                    decreases tss@.len() - j,
                                {
                                    let ts = tss[j];
                                    let moved = ((ts as i128) + (meta.offset as i128)) as i64;
                                    assert(tss@.take(j + 1).drop_last() =~= tss@.take(j as int));
                                    let ghost before = timeline@;
                                    timeline.insert(moved, text_s.clone());
                                    assert(text_views(timeline@) =~= text_views(before).insert(
                                        moved,
                                        text_s@,
                                    ));
                                    j += 1;
                                }
                                assert(tss@.take(tss@.len() as int) =~= tss@);
                                proof {
                                    entries = insert_timestamps(base, tss@, meta@.offset, text_s@);
                                }
                            },
                            None => {},
                        }
                    },
                }
            }
            i += 1;
        }
        assert(ls.take(ls.len() as int) =~= ls);
        let out = lines_in_order(&timeline);
        Ok(Lyrics { lines: out, metadata: meta })
    }

    /// Plain (untimed) lyrics: each non-empty line, trimmed, three seconds
    /// after the one before, from time zero.
    pub fn from_plain_text(content: &str) -> (r: Result<Lyrics, PlayerError>)
        ensures
            r matches Ok(l) && is_plain_lyrics(l, content@),
    {
        let cs = chars_of(content);
        let lines = split_lines(&cs);
        let ghost ls = seq_views(lines@);
        let mut out: Vec<LyricLine> = Vec::new();
        let mut i: usize = 0;
        while i < lines.len()
            invariant
                i <= lines@.len(),
                ls == seq_views(lines@),
                ls == lines_of(content@),
                line_views(out@).len() == nonempty_trimmed(ls.take(i as int)).len(),
                out@.len() <= i,
                forall|k: int|
                    0 <= k < out@.len() ==> #[trigger] line_views(out@)[k] == (
                        k * 3000,
                        nonempty_trimmed(ls.take(i as int))[k],
                    ),
            decreases lines@.len() - i,
        {
            assert(ls.take(i + 1).drop_last() =~= ls.take(i as int));
            assert(ls.take(i + 1).last() == ls[i as int]);
            let t = trim_chars(&lines[i]);
            if t.len() > 0 {
                let n = out.len();
                let line = LyricLine { timestamp_ms: (n as i128) * 3000, text: string_of(&t) };
                let ghost before = out@;
                out.push(line);
                assert(line_views(out@) =~= line_views(before).push((n * 3000, t@)));
            }
            i += 1;
        }
        assert(ls.take(ls.len() as int) =~= ls);
        Ok(Lyrics { lines: out, metadata: LyricsMetadata::default() })
    }

    /// Lyrics from the lyrics embedded in an audio file's tags: the first of
    /// the most preferred kind is read (LRC before synchronised before
    /// unsynchronised before others; all but LRC are read as plain text);
    /// no lyrics when there are none.
    pub fn from_embedded_lyrics(embedded_lyrics: &[EmbeddedLyrics]) -> (r: Result<
        Lyrics,
        PlayerError,
    >)
        requires
            forall|i: int|
                is_preferred(embedded_lyrics@, i) && embedded_lyrics@[i].lyrics_type is Lrc
                    ==> lrc_content_ok(embedded_lyrics@[i].content@),
        ensures
            r is Ok,
            embedded_lyrics@.len() == 0 ==> (r matches Ok(l) && l.lines@.len() == 0
                && l.metadata@ == empty_metadata()),
            embedded_lyrics@.len() > 0 ==> exists|i: int| is_preferred(embedded_lyrics@, i),
            forall|i: int|
                is_preferred(embedded_lyrics@, i) ==> (r matches Ok(l) && if embedded_lyrics@[i].lyrics_type is Lrc {
                    is_lrc_lyrics(l, embedded_lyrics@[i].content@)
                } else {
                    is_plain_lyrics(l, embedded_lyrics@[i].content@)
                }),
    {
        let n = embedded_lyrics.len();
        if n == 0 {
            return Ok(Lyrics::default());
        }
        let mut best: usize = 0;
        let mut best_pri: u8 = priority_of(&embedded_lyrics[0].lyrics_type);
        let mut i: usize = 1;
        while i < n
            invariant
                1 <= i <= n == embedded_lyrics@.len(),
                best < i,
                best_pri as int == lyrics_priority(embedded_lyrics@[best as int].lyrics_type),
                forall|j: int|
                    0 <= j < i ==> best_pri <= lyrics_priority(#[trigger] embedded_lyrics@[j].lyrics_type),
                forall|j: int|
                    0 <= j < best ==> lyrics_priority(#[trigger] embedded_lyrics@[j].lyrics_type) > best_pri,
            decreases n - i,
        {
            let p = priority_of(&embedded_lyrics[i].lyrics_type);
            if p < best_pri {
                best = i;
                best_pri = p;
            }
            i += 1;
        }
        assert(is_preferred(embedded_lyrics@, best as int));
        assert forall|k: int| is_preferred(embedded_lyrics@, k) implies k == best by {
            if k < best {
                assert(lyrics_priority(embedded_lyrics@[k].lyrics_type) > best_pri);
            } else if k > best {
                assert(lyrics_priority(embedded_lyrics@[best as int].lyrics_type) > lyrics_priority(
                    embedded_lyrics@[k].lyrics_type,
                ));
            }
        }
        let chosen = &embedded_lyrics[best];
        match &chosen.lyrics_type {
            LyricsType::Lrc => Self::from_lrc_content(chosen.content.as_str()),
            LyricsType::Synchronized => Self::from_synchronized_lyrics(chosen.content.as_str()),
            _ => Self::from_plain_text(chosen.content.as_str()),
        }
    }

    /// Synchronised lyrics, read as plain text.
    fn from_synchronized_lyrics(content: &str) -> (r: Result<Lyrics, PlayerError>)
        ensures
            r matches Ok(l) && is_plain_lyrics(l, content@),
    {
        Self::from_plain_text(content)
    }

    /// The index of the line sung at `current_ms`: the last line whose time
    /// is not after it; `None` when there is none.
    pub fn get_current_line_index(&self, current_ms: i64) -> (r: Option<usize>)
        ensures
            match r {
                Some(i) => i < self.lines@.len() && self.lines@[i as int]@.0 <= current_ms
                    && forall|j: int|
                    i < j < self.lines@.len() ==> #[trigger] self.lines@[j]@.0 > current_ms,
                None => forall|j: int|
                    0 <= j < self.lines@.len() ==> #[trigger] self.lines@[j]@.0 > current_ms,
            },
    {
        let mut i = self.lines.len();
        while i > 0
            invariant
                i <= self.lines@.len(),
                forall|j: int| i <= j < self.lines@.len() ==> #[trigger] self.lines@[j]@.0 > current_ms,
            decreases i,
        {
            if self.lines[i - 1].timestamp_ms <= current_ms as i128 {
                return Some(i - 1);
            }
            i -= 1;
        }
        None
    }

    /// The lines whose time lies in `[start_ms, end_ms]`, with their indices.
    pub fn get_lines_in_range(&self, start_ms: i128, end_ms: i128) -> (r: Vec<(usize, &LyricLine)>)
        ensures
            lines_in_range_result(r@, self.lines@, start_ms as int, end_ms as int),
    {
        let mut r: Vec<(usize, &LyricLine)> = Vec::new();
        let mut i: usize = 0;
        assert(line_views(self.lines@.take(0)) =~= seq![]);
        while i < self.lines.len()
            invariant
                i <= self.lines@.len(),
                lines_in_range_result(r@, self.lines@.take(i as int), start_ms as int, end_ms as int),
            decreases self.lines@.len() - i,
        {
            let ghost pre = self.lines@.take(i as int);
            let ghost post = self.lines@.take(i + 1);
            assert(line_views(post).drop_last() =~= line_views(pre));
            assert(line_views(post).last() == self.lines@[i as int]@);
            let ghost idx = indices_in_range(line_views(pre), start_ms as int, end_ms as int);
            let line = &self.lines[i];
            let ghost old_r = r@;
            if start_ms <= line.timestamp_ms && line.timestamp_ms <= end_ms {
                r.push((i, line));
                assert(indices_in_range(line_views(post), start_ms as int, end_ms as int) == idx.push(i as int));
                assert forall|k: int| 0 <= k < r@.len() implies range_entry_ok(
                    #[trigger] r@[k],
                    post,
                    indices_in_range(line_views(post), start_ms as int, end_ms as int)[k],
                ) by {
                    if k < old_r.len() {
                        assert(r@[k] == old_r[k]);
                        assert(range_entry_ok(old_r[k], pre, idx[k]));
                        assert(post[idx[k]] == pre[idx[k]]);
                    }
                }
            } else {
                assert(indices_in_range(line_views(post), start_ms as int, end_ms as int) == idx);
                assert forall|k: int| 0 <= k < r@.len() implies range_entry_ok(
                    #[trigger] r@[k],
                    post,
                    indices_in_range(line_views(post), start_ms as int, end_ms as int)[k],
                ) by {
                    assert(range_entry_ok(old_r[k], pre, idx[k]));
                    assert(post[idx[k]] == pre[idx[k]]);
                }
            }
            assert(r@.len() == indices_in_range(line_views(post), start_ms as int, end_ms as int).len());
            assert(lines_in_range_result(r@, post, start_ms as int, end_ms as int));
            i += 1;
        }
        assert(self.lines@.take(self.lines@.len() as int) =~= self.lines@);
        r
    }

    /// Whether there is any line.
    pub fn has_lyrics(&self) -> (r: bool)
        ensures
            r == (self.lines@.len() > 0),
    {
        self.lines.len() > 0
    }

    /// The time of the last line.
    pub fn duration(&self) -> (r: Option<i128>)
        ensures
            self.lines@.len() == 0 ==> r is None,
            self.lines@.len() > 0 ==> r == Some(self.lines@.last().timestamp_ms),
    {
        if self.lines.len() == 0 {
            None
        } else {
            Some(self.lines[self.lines.len() - 1].timestamp_ms)
        }
    }
}

/// The preference of a kind of embedded lyrics (executable).
fn priority_of(t: &LyricsType) -> (r: u8)
    ensures
        r as int == lyrics_priority(*t),
{
    match t {
        LyricsType::Lrc => 0,
        LyricsType::Synchronized => 1,
        LyricsType::Unsynchronized => 2,
        LyricsType::Other(_) => 3,
    }
}

// ---------------------------------------------------------------------------
// Checks for the inputs on which reading would stop with a slicing panic
// ---------------------------------------------------------------------------

/// Whether the first three bytes of `ms` end on a character boundary.
pub fn fraction_cut_is_ok(ms: &[char]) -> (r: bool)
    ensures
        r == fraction_cut_ok(ms@),
{
    let mut i: usize = 0;
    let mut bytes: usize = 0;
    while i < ms.len() && bytes < 3
        invariant
            i <= ms@.len(),
            bytes == utf8_len(ms@.take(i as int)),
            bytes <= 6,
            i > 0 ==> utf8_len(ms@.take(i - 1)) < 3,
        decreases ms@.len() - i,
    {
        assert(ms@.take(i + 1).drop_last() =~= ms@.take(i as int));
        bytes += utf8_width_of(ms[i]);
        i += 1;
    }
    if bytes < 3 {
        assert(ms@.take(i as int) =~= ms@);
        return true;
    }
    if bytes == 3 {
        return true;
    }
    proof {
        lemma_utf8_len_prefix(ms@, i as int, ms@.len() as int);
        assert(ms@.take(ms@.len() as int) =~= ms@);
        assert forall|k: int| 0 <= k <= ms@.len() implies utf8_len(ms@.take(k)) != 3 by {
            if k < i {
                lemma_utf8_len_prefix(ms@, k, i - 1);
            } else {
                lemma_utf8_len_prefix(ms@, i as int, k);
            }
        }
    }
    false
}

/// Whether reading the timestamp text `t` never cuts a character in two.
pub fn timestamp_text_is_ok(t: &[char]) -> (r: bool)
    ensures
        r == timestamp_text_ok(t@),
{
    let n = t.len();
    let k = match find_char(t, ':', 0) {
        None => {
            assert(!occurs_once(t@, ':'));
            return true;
        },
        Some(k) => k,
    };
    if let Some(k2) = find_char(t, ':', k + 1) {
        assert(!occurs_once(t@, ':')) by {
            if occurs_once(t@, ':') {
                let w = choose|w: int|
                    0 <= w < t@.len() && t@[w] == ':' && (forall|j: int|
                        0 <= j < t@.len() && j != w ==> t@[j] != ':');
                assert(t@[k as int] == ':');
                assert(t@[k2 as int] == ':');
            }
        }
        return true;
    }
    assert(occurs_once(t@, ':')) by {
        assert(t@[k as int] == ':');
    }
    proof {
        lemma_index_of_at(t@, ':', k as int);
    }
    let minutes_cs = slice_chars(t, 0, k);
    assert(minutes_cs@ =~= minutes_text(t@));
    if parse_i64(&minutes_cs).is_none() {
        return true;
    }
    let sec = slice_chars(t, k + 1, n);
    assert(sec@ =~= seconds_text(t@));
    proof {
        lemma_index_of(sec@, '.');
    }
    match find_char(&sec, '.', 0) {
        Some(d) => {
            proof {
                lemma_index_of_at(sec@, '.', d as int);
            }
            assert(sec@.contains('.')) by {
                assert(sec@[d as int] == '.');
            }
            let sec_int = slice_chars(&sec, 0, d);
            assert(sec_int@ =~= sec@.take(d as int));
            if parse_i64(&sec_int).is_none() {
                return true;
            }
            let frac = slice_chars(&sec, d + 1, sec.len());
            assert(frac@ =~= sec@.skip(d + 1));
            fraction_cut_is_ok(&frac)
        },
        None => true,
    }
}

/// Whether reading every bracket of the line as a timestamp is panic-free.
pub fn lyric_line_is_ok(line: &[char]) -> (r: bool)
    ensures
        r == lyric_line_ok(line@),
{
    let n = line.len();
    let mut pos: usize = 0;
    let mut ok = true;
    let ghost mut seen: Seq<Seq<char>> = seq![];
    assert(line@.skip(0) =~= line@);
    loop
        invariant
            pos <= n == line@.len(),
            bracket_tags(line@) == seen + bracket_tags(line@.skip(pos as int)),
            ok == (forall|i: int| 0 <= i < seen.len() ==> timestamp_text_ok(#[trigger] seen[i])),
        ensures
            bracket_tags(line@) == seen,
            ok == (forall|i: int| 0 <= i < seen.len() ==> timestamp_text_ok(#[trigger] seen[i])),
        decreases n - pos,
    {
        let ghost rest = line@.skip(pos as int);
        if pos >= n {
            assert(rest =~= seq![]);
            assert(bracket_tags(rest) =~= seq![]);
            assert(seen + seq![] =~= seen);
            break;
        }
        let st = match find_char(line, '[', pos) {
            None => {
                proof {
                    lemma_index_of_at(rest, '[', rest.len() as int);
                }
                assert(bracket_tags(rest) =~= seq![]);
                assert(seen + seq![] =~= seen);
                break;
            },
            Some(st) => st,
        };
        proof {
            lemma_index_of_at(rest, '[', st - pos);
        }
        let e = match find_char(line, ']', st) {
            None => {
                let ghost after = rest.skip(st - pos);
                assert(after =~= line@.skip(st as int));
                proof {
                    lemma_index_of_at(after, ']', after.len() as int);
                }
                assert(bracket_tags(rest) =~= seq![]);
                assert(seen + seq![] =~= seen);
                break;
            },
            Some(e) => e,
        };
        let ghost after = rest.skip(st - pos);
        assert(after =~= line@.skip(st as int));
        proof {
            lemma_index_of_at(after, ']', e - st);
        }
        let tag = slice_chars(line, st + 1, e);
        assert(tag@ =~= rest.subrange(st - pos + 1, e - pos));
        assert(rest.skip(e - pos + 1) =~= line@.skip(e + 1));
        assert(bracket_tags(rest) == seq![tag@] + bracket_tags(line@.skip(e + 1)));
        let ghost new_seen = seen.push(tag@);
        assert(bracket_tags(line@) =~= new_seen + bracket_tags(line@.skip(e + 1)));
        let tag_ok = timestamp_text_is_ok(&tag);
        let ghost old_ok = ok;
        ok = ok && tag_ok;
        assert(ok == (forall|i: int| 0 <= i < new_seen.len() ==> timestamp_text_ok(#[trigger] new_seen[i]))) by {
            if old_ok && tag_ok {
                assert forall|i: int| 0 <= i < new_seen.len() implies timestamp_text_ok(#[trigger] new_seen[i]) by {
                    if i < seen.len() {
                        assert(new_seen[i] == seen[i]);
                    }
                }
            } else if !old_ok {
                let w = choose|w: int| 0 <= w < seen.len() && !timestamp_text_ok(#[trigger] seen[w]);
                assert(new_seen[w] == seen[w]);
            } else {
                assert(new_seen[seen.len() as int] == tag@);
            }
        }
        proof {
            seen = new_seen;
        }
        pos = e + 1;
    }
    ok
}

/// Whether every lyric line of the LRC text can be read without a panic.
pub fn lrc_content_is_ok(content: &str) -> (r: bool)
    ensures
        r == lrc_content_ok(content@),
{
    let cs = chars_of(content);
    let lines = split_lines(&cs);
    let ghost ls = seq_views(lines@);
    let mut i: usize = 0;
    while i < lines.len()
        invariant
            i <= lines@.len(),
            ls == seq_views(lines@),
            ls == lines_of(content@),
            forall|j: int|
                0 <= j < i ==> {
                    let t = trim(#[trigger] ls[j]);
                    t.len() > 0 && metadata_tag(t) is None ==> lyric_line_ok(t)
                },
        decreases lines@.len() - i,
    {
        let t = trim_chars(&lines[i]);
        assert(t@ == trim(ls[i as int]));
        if t.len() > 0 {
            if parse_metadata_tag_chars(&t).is_none() {
                if !lyric_line_is_ok(&t) {
                    return false;
                }
            }
        }
        i += 1;
    }
    true
}

/// Whether the embedded lyrics that `Lyrics::from_embedded_lyrics` would
/// read can be read without a panic.
pub fn embedded_lyrics_are_ok(embedded_lyrics: &[EmbeddedLyrics]) -> (r: bool)
    ensures
        r == (forall|i: int|
            is_preferred(embedded_lyrics@, i) && embedded_lyrics@[i].lyrics_type is Lrc
                ==> lrc_content_ok(embedded_lyrics@[i].content@)),
{
    let mut i: usize = 0;
    while i < embedded_lyrics.len()
        invariant
            i <= embedded_lyrics@.len(),
            forall|j: int|
                0 <= j < i ==> (is_preferred(embedded_lyrics@, j) && embedded_lyrics@[j].lyrics_type is Lrc
                    ==> lrc_content_ok(embedded_lyrics@[j].content@)),
        decreases embedded_lyrics@.len() - i,
    {
        let e = &embedded_lyrics[i];
        if let LyricsType::Lrc = &e.lyrics_type {
            if !lrc_content_is_ok(e.content.as_str()) {
                // an LRC entry is preferred exactly when it is the first one
                let mut first_lrc = true;
                let mut j: usize = 0;
                while j < i
                    invariant
                        j <= i < embedded_lyrics@.len(),
                        first_lrc == (forall|q: int| 0 <= q < j ==> !(#[trigger] embedded_lyrics@[q].lyrics_type is Lrc)),
                    decreases i - j,
                {
                    if let LyricsType::Lrc = &embedded_lyrics[j].lyrics_type {
                        first_lrc = false;
                    }
                    j += 1;
                }
                if first_lrc {
                    assert(is_preferred(embedded_lyrics@, i as int));
                    return false;
                } else {
                    assert(!is_preferred(embedded_lyrics@, i as int)) by {
                        let q = choose|q: int| 0 <= q < i && #[trigger] embedded_lyrics@[q].lyrics_type is Lrc;
                        assert(lyrics_priority(embedded_lyrics@[q].lyrics_type) == 0);
                    }
                }
            }
        }
        i += 1;
    }
    true
}

// ---------------------------------------------------------------------------
// Lyrics files
// ---------------------------------------------------------------------------

/// The name of the LRC file that goes with an audio file's stem.
pub fn lrc_file_name(stem: &str) -> (r: String)
    ensures
        r@ == stem@ + ".lrc"@,
{
    let mut r = stem.to_owned();
    r.append(".lrc");
    r
}

/// Where the LRC lyrics of an audio file would be: the same directory, the
/// same stem, the extension `lrc`. None when the path has no directory or
/// no stem.
///
/// For a plain path with a tidy directory part (see
/// [`crate::utils::plain_file_path`], [`crate::utils::tidy_dir`]) there is
/// always one: the parent directory joined with the stem of the file name
/// and `.lrc` (`/music/song.mp3` gives `/music/song.lrc`).
pub fn lyrics_file_candidate(audio_file_path: &str) -> (r: Option<String>)
    ensures
        plain_file_path(audio_file_path@) && tidy_dir(audio_file_path@) ==> (r matches Some(f)
            && lyrics_file_of(audio_file_path@, f@)),
{
    let parent = path_parent(audio_file_path);
    let stem = path_file_stem(audio_file_path);
    match (parent, stem) {
        (Some(dir), Some(stem)) => {
            let name = lrc_file_name(stem.as_str());
            proof {
                if plain_file_path(audio_file_path@) && tidy_dir(audio_file_path@) {
                    reveal_strlit(".lrc");
                    lemma_plain_join(audio_file_path@, ".lrc"@);
                }
            }
            Some(path_join(dir.as_str(), name.as_str()))
        },
        _ => None,
    }
}

/// Whether `f` is where the LRC lyrics of the plain audio file `p` go: its
/// parent directory joined with the stem of its file name and `.lrc`.
pub open spec fn lyrics_file_of(p: Seq<char>, f: Seq<char>) -> bool {
    joined_with_sep(f, plain_parent(p), name_stem(final_segment(p)) + ".lrc"@)
}

/// The LRC lyrics file of an audio file, when there is one: the place
/// [`lyrics_file_candidate`] names, if `file_exists` says that a file is
/// there.
pub fn find_lyrics_file<F: Fn(&str) -> bool>(audio_file_path: &str, file_exists: F) -> (r: Option<
    String,
>)
    requires
        forall|s: &str| #[trigger] file_exists.requires((s,)),
    ensures
        r matches Some(f) ==> exists|s: &str| s@ == f@ && #[trigger] file_exists.ensures((s,), true),
        plain_file_path(audio_file_path@) && tidy_dir(audio_file_path@) ==> match r {
            Some(f) => lyrics_file_of(audio_file_path@, f@),
            None => exists|s: &str|
                lyrics_file_of(audio_file_path@, s@) && #[trigger] file_exists.ensures((s,), false),
        },
{
    match lyrics_file_candidate(audio_file_path) {
        Some(candidate) => {
            let there = file_exists(candidate.as_str());
            if there {
                Some(candidate)
            } else {
                None
            }
        },
        None => None,
    }
}

/// The metadata line `[tag:value]` of a tag `ti`, `ar`, `al` or `by` is a
/// metadata tag with that tag and value, and trimming leaves it as it is.
proof fn lemma_metadata_line(tag: Seq<char>, value: Seq<char>)
    requires
        tag.len() == 2,
        !is_time_char(tag[0]),
        tag[0] != ':' && tag[1] != ':',
    ensures
        trim(seq!['['] + tag + seq![':'] + value + seq![']']) == seq!['['] + tag + seq![':'] + value + seq![']'],
        metadata_tag(seq!['['] + tag + seq![':'] + value + seq![']']) == Some((tag, value)),
{
    let line = seq!['['] + tag + seq![':'] + value + seq![']'];
    assert(line[0] == '[');
    assert(line.last() == ']');
    assert(!is_ws(line[0]) && !is_ws(line.last()));
    assert(trim_start(line) == line);
    assert(trim_end(line) == line);
    let content = line.subrange(1, line.len() - 1);
    assert(content =~= tag + seq![':'] + value);
    assert(content[2] == ':');
    lemma_index_of_at(content, ':', 2);
    assert(content.take(2) =~= tag);
    assert(content.skip(3) =~= value);
    assert(!is_time_char(content.take(2)[0]));
}

/// Reading the metadata line `[ti:v]`, `[ar:v]`, `[al:v]` or `[by:v]` sets
/// that one field (the title, the artist, the album, or who made the
/// lyrics) to `v`, and leaves the other fields, the offset and the timed
/// lines as they were.
pub proof fn lemma_metadata_line_fills_its_field(lines: Seq<Seq<char>>, tag: Seq<char>, value: Seq<char>)
    requires
        tag == "ti"@ || tag == "ar"@ || tag == "al"@ || tag == "by"@,
    ensures
        ({
            let before = lrc_fold(lines);
            let after = lrc_fold(lines.push(seq!['['] + tag + seq![':'] + value + seq![']']));
            &&& after.0.title == (if tag == "ti"@ { Some(value) } else { before.0.title })
            &&& after.0.artist == (if tag == "ar"@ { Some(value) } else { before.0.artist })
            &&& after.0.album == (if tag == "al"@ { Some(value) } else { before.0.album })
            &&& after.0.by == (if tag == "by"@ { Some(value) } else { before.0.by })
            &&& after.0.offset == before.0.offset
            &&& after.1 == before.1
        }),
{
    reveal_strlit("ti");
    reveal_strlit("ar");
    reveal_strlit("al");
    reveal_strlit("by");
    reveal_strlit("offset");
    let line = seq!['['] + tag + seq![':'] + value + seq![']'];
    lemma_metadata_line(tag, value);
    assert(lines.push(line).drop_last() =~= lines);
    assert(lines.push(line).last() == line);
    let before = lrc_fold(lines);
    assert(lrc_fold(lines.push(line)) == lrc_step(before, line));
    assert(trim(line).len() > 0);
    assert(lrc_step(before, line) == (apply_tag(before.0, tag, value), before.1));
    assert(tag != "offset"@);
    assert("ti"@[0] == 't' && "ar"@[0] == 'a' && "ar"@[1] == 'r' && "al"@[0] == 'a' && "al"@[1] == 'l'
        && "by"@[0] == 'b');
    if tag == "ar"@ {
        assert(tag != "ti"@);
    } else if tag == "al"@ {
        assert(tag != "ti"@ && tag != "ar"@);
    } else if tag == "by"@ {
        assert(tag != "ti"@ && tag != "ar"@ && tag != "al"@);
    }
}

} // verus!
