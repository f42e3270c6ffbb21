//! Small text utilities around the transcript: timestamp rendering for
//! exports, filename sanitisation, stripping of note markers, byte-bounded
//! truncation and the numeric log-level mapping.

use vstd::prelude::*;
use vstd::utf8::is_char_boundary;
use vstd::string::StringSliceAdditionalSpecFns;
use crate::chars::{is_space_char, chars_of, string_from_chars};
use crate::words::trim_start_of;
use crate::textmatch::{starts_with, starts_with_at, lemma_skip_skip};

verus! {

pub open spec fn digit_char(d: int) -> char {
    if d == 0 {
        '0'
    } else if d == 1 {
        '1'
    } else if d == 2 {
        '2'
    } else if d == 3 {
        '3'
    } else if d == 4 {
        '4'
    } else if d == 5 {
        '5'
    } else if d == 6 {
        '6'
    } else if d == 7 {
        '7'
    } else if d == 8 {
        '8'
    } else {
        '9'
    }
}

/// The decimal digits of a nonnegative number.
pub open spec fn dec_str(n: int) -> Seq<char>
    decreases n,
{
    if n < 10 {
        seq![digit_char(n)]
    } else {
        dec_str(n / 10) + seq![digit_char(n % 10)]
    }
}

/// The number padded to at least two digits, as `{:02}` renders it.
pub open spec fn two_digits(n: int) -> Seq<char> {
    if 0 <= n < 10 {
        seq!['0'] + dec_str(n)
    } else {
        dec_str(n)
    }
}

fn digit_exec(d: u64) -> (c: char)
    requires
        d < 10,
    ensures
        c == digit_char(d as int),
{
    if d == 0 {
        '0'
    } else if d == 1 {
        '1'
    } else if d == 2 {
        '2'
    } else if d == 3 {
        '3'
    } else if d == 4 {
        '4'
    } else if d == 5 {
        '5'
    } else if d == 6 {
        '6'
    } else if d == 7 {
        '7'
    } else if d == 8 {
        '8'
    } else {
        '9'
    }
}

fn push_dec(n: u64, out: &mut Vec<char>)
    ensures
        final(out)@ == old(out)@ + dec_str(n as int),
    decreases n,
{
    if n < 10 {
        out.push(digit_exec(n));
        proof {
            assert(final(out)@ =~= old(out)@ + dec_str(n as int));
        }
    } else {
        push_dec(n / 10, out);
        out.push(digit_exec(n % 10));
        proof {
            assert(final(out)@ =~= old(out)@ + dec_str(n as int));
        }
    }
}

fn push_two_digits(n: u64, out: &mut Vec<char>)
    ensures
        final(out)@ == old(out)@ + two_digits(n as int),
{
    if n < 10 {
        out.push('0');
    }
    push_dec(n, out);
    proof {
        assert(final(out)@ =~= old(out)@ + two_digits(n as int));
    }
}

/// Milliseconds rendered as zero-padded `HH:MM`.
pub open spec fn spec_format_timestamp(ms: int) -> Seq<char> {
    let total_seconds = ms / 1000;
    let hours = total_seconds / 3600;
    let minutes = (total_seconds % 3600) / 60;
    two_digits(hours) + seq![':'] + two_digits(minutes)
}

/// Render a nonnegative millisecond count as `HH:MM`.
pub fn format_timestamp(ms: i64) -> (r: String)
    requires
        ms >= 0,
    ensures
        r@ == spec_format_timestamp(ms as int),
{
    let total_seconds = ms / 1000;
    let hours = (total_seconds / 3600) as u64;
    let minutes = ((total_seconds % 3600) / 60) as u64;
    let mut out: Vec<char> = Vec::new();
    push_two_digits(hours, &mut out);
    out.push(':');
    push_two_digits(minutes, &mut out);
    proof {
        assert(out@ =~= spec_format_timestamp(ms as int));
    }
    string_from_chars(&out)
}

/// Milliseconds rendered as `MM:SS`, or `HH:MM:SS` from the first hour on.
pub open spec fn spec_format_ms_timestamp(ms: int) -> Seq<char> {
    let total_secs = ms / 1000;
    let hours = total_secs / 3600;
    let mins = (total_secs % 3600) / 60;
    let secs = total_secs % 60;
    if hours > 0 {
        two_digits(hours) + seq![':'] + two_digits(mins) + seq![':'] + two_digits(secs)
    } else {
        two_digits(mins) + seq![':'] + two_digits(secs)
    }
}

/// Render a nonnegative millisecond count as `MM:SS`, with hours when there
/// are any.
pub fn format_ms_timestamp(ms: i64) -> (r: String)
    requires
        ms >= 0,
    ensures
        r@ == spec_format_ms_timestamp(ms as int),
{
    let total_secs = ms / 1000;
    let hours = (total_secs / 3600) as u64;
    let mins = ((total_secs % 3600) / 60) as u64;
    let secs = (total_secs % 60) as u64;
    let mut out: Vec<char> = Vec::new();
    if hours > 0 {
        push_two_digits(hours, &mut out);
        out.push(':');
    }
    push_two_digits(mins, &mut out);
    out.push(':');
    push_two_digits(secs, &mut out);
    proof {
        assert(out@ =~= spec_format_ms_timestamp(ms as int));
    }
    string_from_chars(&out)
}

/// Characters invalid in filenames on the common platforms become
/// underscores.
pub open spec fn sanitized_char(c: char) -> char {
    if c == '/' || c == '\\' || c == ':' || c == '*' || c == '?' || c == '"' || c == '<' || c
        == '>' || c == '|' {
        '_'
    } else {
        c
    }
}

/// Replace filename-hostile characters by underscores.
pub fn sanitize_filename(name: &str) -> (r: String)
    ensures
        r@ == Seq::new(name@.len(), |i: int| sanitized_char(name@[i])),
{
    let cs = chars_of(name);
    let n = cs.len();
    let mut out: Vec<char> = Vec::new();
    let mut i: usize = 0;
    while i < n
        invariant
            n == name@.len(),
            cs@ == name@,
            i <= n,
            out@.len() == i,
            forall|j: int| 0 <= j < i ==> out@[j] == sanitized_char(name@[j]),
        decreases n - i,
    {
        let c = cs[i];
        if c == '/' || c == '\\' || c == ':' || c == '*' || c == '?' || c == '"' || c == '<'
            || c == '>' || c == '|' {
            out.push('_');
        } else {
            out.push(c);
        }
        i = i + 1;
    }
    proof {
        assert(out@ =~= Seq::new(name@.len(), |i: int| sanitized_char(name@[i])));
    }
    string_from_chars(&out)
}

/// The text split at line feeds, as `str::lines` does: the final line
/// ending is optional, and a carriage return before a line feed is dropped.
pub open spec fn lines_of(s: Seq<char>) -> Seq<Seq<char>>
    decreases s.len(),
    via lines_of_decreases
{
    if s.len() == 0 {
        Seq::empty()
    } else {
        let k = line_end(s, 0);
        let raw = s.subrange(0, k);
        let line = if raw.len() > 0 && raw[raw.len() - 1] == '\u{d}' {
            raw.subrange(0, raw.len() - 1)
        } else {
            raw
        };
        if k >= s.len() {
            seq![line]
        } else {
            seq![line] + lines_of(s.subrange(k + 1, s.len() as int))
        }
    }
}

/// Index of the first line feed at or after `i`, or the length.
pub open spec fn line_end(s: Seq<char>, i: int) -> int
    decreases s.len() - i,
{
    if i < 0 || i >= s.len() {
        s.len() as int
    } else if s[i] == '\u{a}' {
        i
    } else {
        line_end(s, i + 1)
    }
}

pub proof fn lemma_line_end_bounds(s: Seq<char>, i: int)
    requires
        0 <= i <= s.len(),
    ensures
        i <= line_end(s, i) <= s.len(),
        forall|j: int| i <= j < line_end(s, i) ==> s[j] != '\u{a}',
        line_end(s, i) < s.len() ==> s[line_end(s, i)] == '\u{a}',
    decreases s.len() - i,
{
    if i < s.len() && s[i] != '\u{a}' {
        lemma_line_end_bounds(s, i + 1);
    }
}

#[via_fn]
proof fn lines_of_decreases(s: Seq<char>) {
    if s.len() > 0 {
        lemma_line_end_bounds(s, 0);
    }
}

/// Repeated copies of a nonempty marker removed from the front.
pub open spec fn strip_marker_rep(l: Seq<char>, p: Seq<char>) -> Seq<char>
    decreases l.len(),
    via strip_marker_rep_decreases
{
    if p.len() > 0 && starts_with(l, p) {
        strip_marker_rep(l.subrange(p.len() as int, l.len() as int), p)
    } else {
        l
    }
}

#[via_fn]
proof fn strip_marker_rep_decreases(l: Seq<char>, p: Seq<char>) {
}

/// One line of notes with its markers and leading whitespace removed.
pub open spec fn spec_strip_line(l: Seq<char>) -> Seq<char> {
    trim_start_of(strip_marker_rep(strip_marker_rep(l, "[ai]"@), "[noted]"@))
}

/// Lines joined back with line feeds.
pub open spec fn join_lines(ls: Seq<Seq<char>>) -> Seq<char>
    decreases ls.len(),
{
    if ls.len() == 0 {
        Seq::empty()
    } else if ls.len() == 1 {
        ls[0]
    } else {
        ls[0] + seq!['\u{a}'] + join_lines(ls.subrange(1, ls.len() as int))
    }
}

/// What tag stripping returns: every line with its `[ai]` and `[noted]`
/// markers and leading whitespace removed, joined by line feeds.
pub open spec fn spec_strip_tags(s: Seq<char>) -> Seq<char> {
    join_lines(Seq::new(lines_of(s).len(), |i: int| spec_strip_line(lines_of(s)[i])))
}

/// Remove repeated markers from the front of one line's characters.
fn strip_marker_exec(line: &Vec<char>, start: usize, marker: &str) -> (j: usize)
    requires
        start <= line.len(),
        marker@.len() > 0,
    ensures
        start <= j <= line@.len(),
        line@.skip(j as int) == strip_marker_rep(line@.skip(start as int), marker@),
    decreases line.len() - start,
{
    if starts_with_at(line, start, marker) {
        let ml = marker.unicode_len();
        proof {
            lemma_skip_skip(line@, start as int, marker@.len() as int);
        }
        strip_marker_exec(line, start + ml, marker)
    } else {
        start
    }
}

/// Strip `[ai]` and `[noted]` markers from the start of each line of the
/// notes, with any whitespace that follows them.
pub fn strip_tags(content: &str) -> (r: String)
    ensures
        r@ == spec_strip_tags(content@),
{
    let cs = chars_of(content);
    let n = cs.len();
    let ghost ls = lines_of(content@);
    let ghost target = Seq::new(ls.len(), |i: int| spec_strip_line(ls[i]));
    let mut out: Vec<char> = Vec::new();
    let mut i: usize = 0;
    let mut first_line = true;
    let ghost mut done: int = 0;
    proof {
        assert(cs@.subrange(0, n as int) =~= content@);
        assert(lines_of(cs@.subrange(0, n as int)) =~= ls.subrange(0, ls.len() as int));
        if n > 0 {
            lemma_line_end_bounds(content@, 0);
            assert(ls.len() > 0);
        }
        assert(target.subrange(0, 0).len() == 0);
        assert(out@ =~= join_lines(target.subrange(0, 0)));
    }
    while i < n
        invariant
            n == cs@.len(),
            cs@ == content@,
            ls == lines_of(content@),
            target == Seq::new(ls.len(), |t: int| spec_strip_line(ls[t])),
            i <= n,
            0 <= done <= target.len(),
            first_line <==> done == 0,
            lines_of(cs@.subrange(i as int, n as int)) =~= ls.subrange(
                done,
                ls.len() as int,
            ),
            i < n ==> done < ls.len(),
            out@ == join_lines(target.subrange(0, done)),
            i == n ==> done == ls.len() || (done == ls.len() - 1 && ls.last().len() == 0
                && spec_strip_line(ls.last()).len() == 0),
        decreases n - i,
    {
        // find this raw line
        let ghost pre = cs@.subrange(i as int, n as int);
        let mut j = i;
        while j < n && cs[j] != '\u{a}'
            invariant
                n == cs@.len(),
                i <= j <= n,
                forall|q: int| i <= q < j ==> cs@[q] != '\u{a}',
            decreases n - j,
        {
            j = j + 1;
        }
        proof {
            lemma_line_end_bounds(pre, 0);
            assert forall|q: int| 0 <= q < (j - i) implies pre[q] != '\u{a}' by {
                assert(pre[q] == cs@[i + q]);
            }
            if j < n {
                assert(pre[(j - i) as int] == cs@[j as int]);
            }
            assert(line_end(pre, 0) == j - i) by {
                let k = line_end(pre, 0);
                if k < j - i {
                    assert(pre[k] != '\u{a}');
                    assert(pre[k] == '\u{a}');
                }
                if k > j - i && j < n {
                    assert(pre[(j - i) as int] != '\u{a}');
                }
            }
        }
        // drop a trailing carriage return
        let mut line_last = j;
        if j > i && cs[j - 1] == '\u{d}' {
            line_last = j - 1;
        }
        let mut raw: Vec<char> = Vec::new();
        let mut q = i;
        while q < line_last
            invariant
                i <= q <= line_last <= n,
                n == cs@.len(),
                raw@ == cs@.subrange(i as int, q as int),
            decreases line_last - q,
        {
            raw.push(cs[q]);
            proof {
                assert(raw@ =~= cs@.subrange(i as int, q as int + 1));
            }
            q = q + 1;
        }
        let ghost cur = ls[done];
        proof {
            let k = line_end(pre, 0);
            let rawseq = pre.subrange(0, k);
            let lineseq = if rawseq.len() > 0 && rawseq[rawseq.len() - 1] == '\u{d}' {
                rawseq.subrange(0, rawseq.len() - 1)
            } else {
                rawseq
            };
            assert(lines_of(pre)[0] == lineseq);
            assert(cur == lineseq);
            assert(raw@ =~= lineseq);
        }
        // strip markers and leading whitespace
        proof {
            reveal_strlit("[ai]");
            reveal_strlit("[noted]");
            assert(raw@.skip(0) =~= raw@);
        }
        let a1 = strip_marker_exec(&raw, 0, "[ai]");
        let a2 = strip_marker_exec(&raw, a1, "[noted]");
        let mut a3 = a2;
        while a3 < raw.len() && crate::chars::is_space(raw[a3])
            invariant
                a2 <= a3 <= raw@.len(),
                trim_start_of(raw@.skip(a2 as int)) == trim_start_of(raw@.skip(a3 as int)),
            decreases raw@.len() - a3,
        {
            proof {
                let sfx = raw@.skip(a3 as int);
                assert(sfx[0] == raw@[a3 as int]);
                assert(sfx.subrange(1, sfx.len() as int) =~= raw@.skip(a3 as int + 1));
            }
            a3 = a3 + 1;
        }
        proof {
            let sfx = raw@.skip(a3 as int);
            if a3 < raw@.len() {
                assert(sfx[0] == raw@[a3 as int]);
                assert(!is_space_char(sfx[0]));
            }
            assert(trim_start_of(sfx) == sfx);
            assert(raw@.skip(a3 as int) == spec_strip_line(cur));
        }
        // emit the separator and the stripped line
        let ghost out_pre = out@;
        if !first_line {
            out.push('\u{a}');
        }
        first_line = false;
        let ghost out_mid = out@;
        let mut t = a3;
        while t < raw.len()
            invariant
                a3 <= t <= raw@.len(),
                out@ == out_mid + raw@.subrange(a3 as int, t as int),
            decreases raw@.len() - t,
        {
            out.push(raw[t]);
            proof {
                assert(out@ =~= out_mid + raw@.subrange(a3 as int, t as int + 1));
            }
            t = t + 1;
        }
        proof {
            assert(raw@.subrange(a3 as int, raw@.len() as int) =~= raw@.skip(a3 as int));
            if done == 0 {
                assert(out@ =~= join_lines(target.subrange(0, 1)));
            } else {
                lemma_join_lines_snoc(target, done);
                assert(out@ =~= join_lines(target.subrange(0, done)) + seq!['\u{a}']
                    + target[done]);
                assert(out@ =~= join_lines(target.subrange(0, done + 1)));
            }
        }
        proof {
            let done0 = done;
            done = done0 + 1;
            // relate the remaining text to the remaining lines
            let k = line_end(pre, 0);
            assert(lines_of(pre) == ls.subrange(done0, ls.len() as int));
            if j < n {
                assert(pre.subrange(k + 1, pre.len() as int) =~= cs@.subrange(
                    j as int + 1,
                    n as int,
                ));
                assert(k < pre.len());
                let tail = lines_of(cs@.subrange(j as int + 1, n as int));
                assert(lines_of(pre) == seq![cur] + lines_of(
                    pre.subrange(k + 1, pre.len() as int),
                ));
                assert(lines_of(pre) == seq![cur] + tail);
                assert(ls.subrange(done0, ls.len() as int) == seq![cur] + tail);
                assert(ls.subrange(done0, ls.len() as int).len() == ls.len() - done0);
                assert(tail.len() + 1 == ls.len() - done0);
                assert forall|q: int| 0 <= q < tail.len() implies tail[q] == #[trigger] ls.subrange(
                    done0 + 1,
                    ls.len() as int,
                )[q] by {
                    assert((seq![cur] + tail)[q + 1] == tail[q]);
                    assert(ls.subrange(done0, ls.len() as int)[q + 1] == ls[done0 + 1 + q]);
                    assert(ls.subrange(done0 + 1, ls.len() as int)[q] == ls[done0 + 1 + q]);
                }
                assert(tail =~= ls.subrange(done0 + 1, ls.len() as int));
            } else {
                assert(k >= pre.len());
                assert(lines_of(pre) =~= seq![cur]);
                assert(ls.subrange(done0, ls.len() as int).len() == ls.len() - done0);
                assert(ls.len() - done0 == 1);
            }
        }
        if j < n {
            i = j + 1;
            proof {
                if i == n {
                    // the text ended in a line feed: the remaining suffix is
                    // empty and contributes no further line
                    assert(cs@.subrange(n as int, n as int).len() == 0);
                    assert(lines_of(cs@.subrange(n as int, n as int)).len() == 0);
                    assert(done == ls.len());
                }
            }
        } else {
            i = n;
            proof {
                assert(done == ls.len());
            }
        }
    }
    proof {
        if done < ls.len() {
            // a final empty line whose stripped form is empty: joining it
            // appends nothing visible only when it is the sole line
            assert(done == ls.len() - 1);
            assert(target[done].len() == 0);
            if done == 0 {
                assert(target.subrange(0, 0).len() == 0);
                assert(join_lines(target.subrange(0, 0)).len() == 0);
                assert(target.subrange(0, 1) =~= target);
                assert(join_lines(target) == target[0]);
                assert(out@ =~= join_lines(target));
            } else {
                assert(out@ =~= join_lines(target));
            }
        } else {
            assert(target.subrange(0, done) =~= target);
        }
    }
    string_from_chars(&out)
}

pub proof fn lemma_join_lines_snoc(ls: Seq<Seq<char>>, i: int)
    requires
        0 < i < ls.len(),
    ensures
        join_lines(ls.subrange(0, i + 1)) == join_lines(ls.subrange(0, i)) + seq!['\u{a}']
            + ls[i],
    decreases i,
{
    let a = ls.subrange(0, i + 1);
    let b = ls.subrange(0, i);
    if i == 1 {
        assert(a.len() == 2);
        assert(a.subrange(1, 2) =~= seq![ls[1]]);
        assert(join_lines(a.subrange(1, 2)) == ls[1]);
        assert(join_lines(a) == a[0] + seq!['\u{a}'] + join_lines(a.subrange(1, 2)));
        assert(join_lines(b) == ls[0]);
        assert(join_lines(a) =~= join_lines(b) + seq!['\u{a}'] + ls[1]);
    } else {
        let t = ls.subrange(1, ls.len() as int);
        lemma_join_lines_snoc(t, i - 1);
        assert(a.subrange(1, a.len() as int) =~= t.subrange(0, i));
        assert(b.subrange(1, b.len() as int) =~= t.subrange(0, i - 1));
        assert(join_lines(a) == a[0] + seq!['\u{a}'] + join_lines(t.subrange(0, i)));
        assert(join_lines(b) == b[0] + seq!['\u{a}'] + join_lines(t.subrange(0, i - 1)));
        assert(t.subrange(0, i)[i - 1] == ls[i]);
        assert(join_lines(t.subrange(0, i)) == join_lines(t.subrange(0, i - 1))
            + seq!['\u{a}'] + ls[i]);
        assert(join_lines(a) =~= join_lines(b) + seq!['\u{a}'] + ls[i]);
    }
}

/// The largest valid boundary at or below `k`.
pub open spec fn largest_boundary(bytes: Seq<u8>, k: int) -> int
    decreases k,
{
    if k <= 0 {
        0
    } else if is_char_boundary(bytes, k) {
        k
    } else {
        largest_boundary(bytes, k - 1)
    }
}

/// Truncate to at most `max_bytes` bytes, backing up to a character
/// boundary; a string already within the limit comes back whole.
pub fn truncate_str<'a>(s: &'a str, max_bytes: usize) -> (r: &'a str)
    requires
        s.spec_bytes().len() <= usize::MAX,
    ensures
        s.spec_bytes().len() <= max_bytes ==> r@ == s@,
        r.spec_bytes() == (if s.spec_bytes().len() <= max_bytes {
            s.spec_bytes()
        } else {
            s.spec_bytes().subrange(0, largest_boundary(s.spec_bytes(), max_bytes as int))
        }),
{
    if s.len() <= max_bytes {
        proof {
            assert(s.spec_bytes().subrange(0, s.spec_bytes().len() as int) =~= s.spec_bytes());
        }
        return s;
    }
    let mut end = max_bytes;
    while end > 0 && !s.is_char_boundary(end)
        invariant
            end <= max_bytes,
            max_bytes < s.spec_bytes().len(),
            largest_boundary(s.spec_bytes(), max_bytes as int) == largest_boundary(
                s.spec_bytes(),
                end as int,
            ),
        decreases end,
    {
        end = end - 1;
    }
    proof {
        vstd::utf8::encode_utf8_valid_utf8(s@);
        assert(is_char_boundary(s.spec_bytes(), end as int));
        assert(largest_boundary(s.spec_bytes(), end as int) == end as int);
    }
    let (prefix, _) = s.split_at(end);
    prefix
}

/// The numeric levels a log filter accepts, mirroring the standard
/// filter ladder; values past the top mean everything.
#[derive(Clone, Copy, Debug, PartialEq, Eq, Structural)]
pub enum LogLevelFilter {
    Off,
    Error,
    Warn,
    Info,
    Debug,
    Trace,
}

/// Map a stored numeric level to the filter it selects.
pub fn level_filter_from_u8(value: u8) -> (r: LogLevelFilter)
    ensures
        r == match value {
            0u8 => LogLevelFilter::Off,
            1u8 => LogLevelFilter::Error,
            2u8 => LogLevelFilter::Warn,
            3u8 => LogLevelFilter::Info,
            4u8 => LogLevelFilter::Debug,
            _ => LogLevelFilter::Trace,
        },
{
    match value {
        0 => LogLevelFilter::Off,
        1 => LogLevelFilter::Error,
        2 => LogLevelFilter::Warn,
        3 => LogLevelFilter::Info,
        4 => LogLevelFilter::Debug,
        _ => LogLevelFilter::Trace,
    }
}

} // verus!
