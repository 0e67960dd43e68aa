//! Status-event records and their log format.
//!
//! A signal producer appends one record per observed lifecycle transition
//! to a per-session log file: a single line holding a flat object such as
//! `{"state":"working","cwd":"/some/path","ts":1712345678}`.  Keys other
//! than `state`, `cwd` and `ts` are tolerated and ignored; a line that
//! does not fit the format counts as absent, never as an error.
//!
//! The reader looks only at the tail of each file, dropping a possibly
//! truncated leading fragment, and keeps the last line that parses.

use vstd::prelude::*;

use crate::text::{
    blank_end, blank_end_of, dec_val, dec_value_range, digit_char, digits_end, digits_end_of,
    is_blank, is_digit, lines_spec, line_ranges, range_eq, to_chars,
};

verus! {

/// The activity named by a status event.  A producer may write a status
/// string this reader does not know; such a record still parses, with its
/// status kept as `Other`, and later resolves to the neutral fresh state.
#[derive(Clone, Copy, Debug, PartialEq, Eq, Structural)]
pub enum Status {
    Working,
    Asking,
    Idle,
    Other,
}

/// One parsed record of a session log line.
pub struct EventRecord {
    pub status: Status,
    pub cwd: String,
    pub ts: u64,
}

/// The mathematical model of a record.
pub struct EventRecordV {
    pub status: Status,
    pub cwd: Seq<char>,
    pub ts: u64,
}

impl View for EventRecord {
    type V = EventRecordV;

    open spec fn view(&self) -> EventRecordV {
        EventRecordV { status: self.status, cwd: self.cwd@, ts: self.ts }
    }
}

/// The status named by a status string.
pub open spec fn status_of(s: Seq<char>) -> Status {
    if s == "working"@ {
        Status::Working
    } else if s == "asking"@ {
        Status::Asking
    } else if s == "idle"@ {
        Status::Idle
    } else {
        Status::Other
    }
}

/// The fields collected while reading a record's pairs.
pub struct RecAcc {
    pub status: Option<Status>,
    pub cwd: Option<Seq<char>>,
    pub ts: Option<u64>,
}

/// The accumulator before any pair was read.
pub open spec fn empty_acc() -> RecAcc {
    RecAcc { status: None, cwd: None, ts: None }
}

/// The index of the closing quote of a string opened just before `i`.
/// `None` when the line ends first or holds a backslash, which this plain
/// format does not use.
pub open spec fn str_close(s: Seq<char>, i: int) -> Option<int>
    decreases s.len() - i,
{
    if i < 0 || i >= s.len() {
        None
    } else if s[i] == '"' {
        Some(i)
    } else if s[i] == '\\' {
        None
    } else {
        str_close(s, i + 1)
    }
}

pub proof fn lemma_str_close(s: Seq<char>, i: int)
    requires
        0 <= i,
    ensures
        match str_close(s, i) {
            Some(j) => i <= j < s.len() && s[j] == '"',
            None => true,
        },
    decreases s.len() - i,
{
    if 0 <= i < s.len() && s[i] != '"' && s[i] != '\\' {
        lemma_str_close(s, i + 1);
    }
}

/// Characterise a quoted run directly: plain characters up to `k`, then
/// the closing quote, means the string closes at `k`.
pub proof fn lemma_str_close_segment(s: Seq<char>, i: int, k: int)
    requires
        0 <= i <= k < s.len(),
        s[k] == '"',
        forall|j: int| i <= j < k ==> (#[trigger] s[j]) != '"' && s[j] != '\\',
    ensures
        str_close(s, i) == Some(k),
    decreases k - i,
{
    if i < k {
        lemma_str_close_segment(s, i + 1, k);
    }
}

/// Characterise a blank run directly.
pub proof fn lemma_blank_end_segment(s: Seq<char>, i: int, k: int)
    requires
        0 <= i <= k <= s.len(),
        forall|j: int| i <= j < k ==> is_blank(#[trigger] s[j]),
        k == s.len() || !is_blank(s[k]),
    ensures
        blank_end(s, i) == k,
    decreases k - i,
{
    if i < k {
        lemma_blank_end_segment(s, i + 1, k);
    }
}

/// A string value updates the accumulator according to its key: `state`
/// and `cwd` take string values, `ts` does not, and unknown keys are
/// ignored.
pub open spec fn apply_string(key: Seq<char>, content: Seq<char>, acc: RecAcc) -> Option<RecAcc> {
    if key == "state"@ {
        Some(RecAcc { status: Some(status_of(content)), cwd: acc.cwd, ts: acc.ts })
    } else if key == "cwd"@ {
        Some(RecAcc { status: acc.status, cwd: Some(content), ts: acc.ts })
    } else if key == "ts"@ {
        None
    } else {
        Some(acc)
    }
}

/// A numeric value updates the accumulator according to its key: `ts`
/// takes a number, `state` and `cwd` do not, and unknown keys are
/// ignored.
pub open spec fn apply_number(key: Seq<char>, v: u64, acc: RecAcc) -> Option<RecAcc> {
    if key == "ts"@ {
        Some(RecAcc { status: acc.status, cwd: acc.cwd, ts: Some(v) })
    } else if key == "state"@ || key == "cwd"@ {
        None
    } else {
        Some(acc)
    }
}

/// Read the pairs of a record object from index `i` (which must start a
/// quoted key) up to and including the closing brace.  Returns the final
/// accumulator and the index just past the brace.
pub open spec fn parse_members(s: Seq<char>, i: int, acc: RecAcc) -> Option<(RecAcc, int)>
    decreases s.len() - i, 1int,
{
    if !(0 <= i < s.len() && s[i] == '"') {
        None
    } else {
        match str_close(s, i + 1) {
            None => None,
            Some(j) => {
                let key = s.subrange(i + 1, j);
                let k = blank_end(s, j + 1);
                if !(k < s.len() && s[k] == ':') {
                    None
                } else {
                    let vstart = blank_end(s, k + 1);
                    if 0 <= vstart < s.len() && s[vstart] == '"' {
                        match str_close(s, vstart + 1) {
                            None => None,
                            Some(vend) => {
                                let content = s.subrange(vstart + 1, vend);
                                match apply_string(key, content, acc) {
                                    None => None,
                                    Some(a2) => members_rest(s, i, vend + 1, a2),
                                }
                            },
                        }
                    } else if 0 <= vstart < s.len() && is_digit(s[vstart]) {
                        let vend = digits_end(s, vstart);
                        let v = dec_val(s.subrange(vstart, vend));
                        if v > u64::MAX {
                            None
                        } else {
                            match apply_number(key, v as u64, acc) {
                                None => None,
                                Some(a2) => members_rest(s, i, vend, a2),
                            }
                        }
                    } else {
                        None
                    }
                }
            },
        }
    }
}

/// After a value ending at `m0`: a comma continues with the next pair, a
/// closing brace ends the object.
pub open spec fn members_rest(s: Seq<char>, i: int, m0: int, acc: RecAcc) -> Option<(RecAcc, int)>
    decreases s.len() - i, 0int,
{
    let m = blank_end(s, m0);
    if 0 <= m < s.len() && s[m] == ',' {
        let ni = blank_end(s, m + 1);
        if i < ni <= s.len() {
            parse_members(s, ni, acc)
        } else {
            None
        }
    } else if 0 <= m < s.len() && s[m] == '}' {
        Some((acc, m + 1))
    } else {
        None
    }
}

/// Read one record object with surrounding blanks: the collected fields
/// and the index just past the closing brace.
pub open spec fn parse_record(s: Seq<char>) -> Option<(RecAcc, int)> {
    let i0 = blank_end(s, 0);
    if !(0 <= i0 < s.len() && s[i0] == '{') {
        None
    } else {
        let i1 = blank_end(s, i0 + 1);
        if 0 <= i1 < s.len() && s[i1] == '}' {
            Some((empty_acc(), i1 + 1))
        } else {
            parse_members(s, i1, empty_acc())
        }
    }
}

/// One parsing step over a blank-free string-valued pair followed by a
/// comma: reading continues with the next pair and the updated
/// accumulator.
pub proof fn lemma_string_pair_step(
    s: Seq<char>,
    i: int,
    kc: int,
    vc: int,
    acc: RecAcc,
    acc2: RecAcc,
    r: Option<(RecAcc, int)>,
)
    requires
        0 <= i,
        i + 1 <= kc,
        kc + 3 <= vc,
        vc + 2 < s.len(),
        s[i] == '"',
        str_close(s, i + 1) == Some(kc),
        blank_end(s, kc + 1) == kc + 1,
        s[kc + 1] == ':',
        blank_end(s, kc + 2) == kc + 2,
        s[kc + 2] == '"',
        str_close(s, kc + 3) == Some(vc),
        apply_string(s.subrange(i + 1, kc), s.subrange(kc + 3, vc), acc) == Some(acc2),
        blank_end(s, vc + 1) == vc + 1,
        s[vc + 1] == ',',
        blank_end(s, vc + 2) == vc + 2,
        parse_members(s, vc + 2, acc2) == r,
    ensures
        parse_members(s, i, acc) == r,
{
    lemma_str_close(s, i + 1);
    lemma_str_close(s, kc + 3);
}

/// The last parsing step: a blank-free number-valued pair directly
/// before the closing brace ends the object.
pub proof fn lemma_number_pair_last(
    s: Seq<char>,
    i: int,
    kc: int,
    vend: int,
    v: u64,
    acc: RecAcc,
    acc2: RecAcc,
)
    requires
        0 <= i,
        i + 1 <= kc,
        kc + 2 < s.len(),
        s[i] == '"',
        str_close(s, i + 1) == Some(kc),
        blank_end(s, kc + 1) == kc + 1,
        s[kc + 1] == ':',
        blank_end(s, kc + 2) == kc + 2,
        s[kc + 2] != '"',
        is_digit(s[kc + 2]),
        digits_end(s, kc + 2) == vend,
        vend < s.len(),
        dec_val(s.subrange(kc + 2, vend)) == v,
        apply_number(s.subrange(i + 1, kc), v, acc) == Some(acc2),
        blank_end(s, vend) == vend,
        s[vend] == '}',
    ensures
        parse_members(s, i, acc) == Some((acc2, vend + 1)),
{
    lemma_str_close(s, i + 1);
    crate::text::lemma_digits_end(s, kc + 2);
    assert(members_rest(s, i, vend, acc2) == Some((acc2, vend + 1)));
}

/// The record a log line carries, if it is well formed: a flat object
/// with string values for `state` and `cwd`, a numeric value for `ts`,
/// nothing but blanks around it, and all three fields present.
pub open spec fn parse_line_spec(s: Seq<char>) -> Option<EventRecordV> {
    match parse_record(s) {
        None => None,
        Some((acc, j)) => {
            if blank_end(s, j) == s.len() {
                match (acc.status, acc.cwd, acc.ts) {
                    (Some(st), Some(c), Some(t)) => Some(EventRecordV { status: st, cwd: c, ts: t }),
                    _ => None,
                }
            } else {
                None
            }
        },
    }
}

/// Executable accumulator; its `cwd` is cut out of the line itself.
struct ParseAcc {
    status: Option<Status>,
    cwd: Option<String>,
    ts: Option<u64>,
}

spec fn acc_v(a: ParseAcc) -> RecAcc {
    RecAcc {
        status: a.status,
        cwd: match a.cwd {
            Some(c) => Some(c@),
            None => None,
        },
        ts: a.ts,
    }
}

/// Executable mirror of [`str_close`].
fn str_close_at(chars: &Vec<char>, i: usize) -> (r: Option<usize>)
    ensures
        match r {
            Some(j) => str_close(chars@, i as int) == Some(j as int) && i <= j < chars@.len()
                && chars@[j as int] == '"',
            None => str_close(chars@, i as int) is None,
        },
    decreases chars@.len() - i,
{
    if i >= chars.len() {
        return None;
    }
    let c = chars[i];
    if c == '"' {
        Some(i)
    } else if c == '\\' {
        None
    } else {
        proof {
            lemma_str_close(chars@, i as int + 1);
        }
        str_close_at(chars, i + 1)
    }
}

/// Executable mirror of [`parse_members`].
fn parse_members_at(line: &str, chars: &Vec<char>, i: usize, acc: ParseAcc) -> (r: Option<
    (ParseAcc, usize),
>)
    requires
        chars@ == line@,
        i <= chars@.len(),
    ensures
        match r {
            Some(p) => parse_members(chars@, i as int, acc_v(acc)) == Some(
                (acc_v(p.0), p.1 as int),
            ) && p.1 <= chars@.len(),
            None => parse_members(chars@, i as int, acc_v(acc)) is None,
        },
    decreases chars@.len() - i, 1int,
{
    let n = chars.len();
    if !(i < n && chars[i] == '"') {
        return None;
    }
    let j = match str_close_at(chars, i + 1) {
        None => {
            return None;
        },
        Some(j) => j,
    };
    let ghost key = chars@.subrange(i as int + 1, j as int);
    let k = blank_end_of(chars, j + 1);
    if !(k < n && chars[k] == ':') {
        return None;
    }
    let vstart = blank_end_of(chars, k + 1);
    let k_state = to_chars("state");
    let k_cwd = to_chars("cwd");
    let k_ts = to_chars("ts");
    if vstart < n && chars[vstart] == '"' {
        let vend = match str_close_at(chars, vstart + 1) {
            None => {
                return None;
            },
            Some(v) => v,
        };
        let ghost content = chars@.subrange(vstart as int + 1, vend as int);
        let a2: ParseAcc = if range_eq(chars, i + 1, j, &k_state) {
            let st = if range_eq(chars, vstart + 1, vend, &to_chars("working")) {
                Status::Working
            } else if range_eq(chars, vstart + 1, vend, &to_chars("asking")) {
                Status::Asking
            } else if range_eq(chars, vstart + 1, vend, &to_chars("idle")) {
                Status::Idle
            } else {
                Status::Other
            };
            proof {
                assert(st == status_of(content));
            }
            ParseAcc { status: Some(st), cwd: acc.cwd, ts: acc.ts }
        } else if range_eq(chars, i + 1, j, &k_cwd) {
            let c = line.substring_char(vstart + 1, vend);
            ParseAcc { status: acc.status, cwd: Some(String::from_str(c)), ts: acc.ts }
        } else if range_eq(chars, i + 1, j, &k_ts) {
            return None;
        } else {
            acc
        };
        proof {
            assert(apply_string(key, content, acc_v(acc)) == Some(acc_v(a2)));
        }
        members_rest_at(line, chars, i, vend + 1, a2)
    } else if vstart < n && digit_char(chars[vstart]) {
        let vend = digits_end_of(chars, vstart);
        proof {
            crate::text::lemma_digits_end(chars@, vstart as int);
        }
        let v = match dec_value_range(chars, vstart, vend) {
            None => {
                return None;
            },
            Some(v) => v,
        };
        let a2: ParseAcc = if range_eq(chars, i + 1, j, &k_ts) {
            ParseAcc { status: acc.status, cwd: acc.cwd, ts: Some(v) }
        } else if range_eq(chars, i + 1, j, &k_state) {
            return None;
        } else if range_eq(chars, i + 1, j, &k_cwd) {
            return None;
        } else {
            acc
        };
        proof {
            assert(apply_number(key, v, acc_v(acc)) == Some(acc_v(a2)));
        }
        members_rest_at(line, chars, i, vend, a2)
    } else {
        None
    }
}

/// Executable mirror of [`members_rest`].
fn members_rest_at(line: &str, chars: &Vec<char>, i: usize, m0: usize, acc: ParseAcc) -> (r: Option<
    (ParseAcc, usize),
>)
    requires
        chars@ == line@,
        i < chars@.len(),
        m0 <= chars@.len(),
    ensures
        match r {
            Some(p) => members_rest(chars@, i as int, m0 as int, acc_v(acc)) == Some(
                (acc_v(p.0), p.1 as int),
            ) && p.1 <= chars@.len(),
            None => members_rest(chars@, i as int, m0 as int, acc_v(acc)) is None,
        },
    decreases chars@.len() - i, 0int,
{
    let n = chars.len();
    let m = blank_end_of(chars, m0);
    if m < n && chars[m] == ',' {
        let ni = blank_end_of(chars, m + 1);
        if i < ni {
            parse_members_at(line, chars, ni, acc)
        } else {
            None
        }
    } else if m < n && chars[m] == '}' {
        Some((acc, m + 1))
    } else {
        None
    }
}

/// Parse one log line.  The result is exactly what [`parse_line_spec`]
/// names for the line's characters.
pub fn parse_event_line(line: &str) -> (r: Option<EventRecord>)
    ensures
        match r {
            Some(rec) => parse_line_spec(line@) == Some(rec@),
            None => parse_line_spec(line@) is None,
        },
{
    let chars = to_chars(line);
    let n = chars.len();
    let i0 = blank_end_of(&chars, 0);
    if !(i0 < n && chars[i0] == '{') {
        return None;
    }
    let i1 = blank_end_of(&chars, i0 + 1);
    let acc0 = ParseAcc { status: None, cwd: None, ts: None };
    let done: Option<(ParseAcc, usize)> = if i1 < n && chars[i1] == '}' {
        Some((acc0, i1 + 1))
    } else {
        parse_members_at(line, &chars, i1, acc0)
    };
    match done {
        None => None,
        Some((acc, j)) => {
            let e = blank_end_of(&chars, j);
            if e != n {
                return None;
            }
            match (acc.status, acc.cwd, acc.ts) {
                (Some(st), Some(c), Some(t)) => Some(EventRecord { status: st, cwd: c, ts: t }),
                _ => None,
            }
        },
    }
}

/// One status event attributed to a session: the parsed record plus the
/// log file's modification time, which later breaks ties between files
/// that name the same working directory.
pub struct StatusEvent {
    pub status: Status,
    pub cwd: String,
    pub ts: u64,
    pub observed_at: u64,
}

/// The mathematical model of a status event.
pub struct StatusEventV {
    pub status: Status,
    pub cwd: Seq<char>,
    pub ts: u64,
    pub observed_at: u64,
}

impl View for StatusEvent {
    type V = StatusEventV;

    open spec fn view(&self) -> StatusEventV {
        StatusEventV {
            status: self.status,
            cwd: self.cwd@,
            ts: self.ts,
            observed_at: self.observed_at,
        }
    }
}

/// The tail of one session log file, as read by the caller: the last
/// stretch of the file, whether the read started mid-file (so the first
/// line may be cut short), and the file's modification time.
pub struct FileTail {
    pub tail: String,
    pub truncated: bool,
    pub modified: u64,
}

/// The mathematical model of a file tail.
pub struct FileTailV {
    pub tail: Seq<char>,
    pub truncated: bool,
    pub modified: u64,
}

impl View for FileTail {
    type V = FileTailV;

    open spec fn view(&self) -> FileTailV {
        FileTailV { tail: self.tail@, truncated: self.truncated, modified: self.modified }
    }
}

/// The last line of `ls` that parses as a record, scanning backwards.
pub open spec fn last_valid(ls: Seq<Seq<char>>) -> Option<EventRecordV>
    decreases ls.len(),
{
    if ls.len() == 0 {
        None
    } else {
        match parse_line_spec(ls.last()) {
            Some(r) => Some(r),
            None => last_valid(ls.drop_last()),
        }
    }
}

/// The lines of a tail that may carry a record: all of them, except that
/// a tail read from mid-file drops its first, possibly cut, line.
pub open spec fn whole_lines(t: FileTailV) -> Seq<Seq<char>> {
    let ls = lines_spec(t.tail);
    if t.truncated && ls.len() > 0 {
        ls.drop_first()
    } else {
        ls
    }
}

/// The most recent record of one file: the last whole line that parses,
/// stamped with the file's modification time.
pub open spec fn file_latest(t: FileTailV) -> Option<StatusEventV> {
    match last_valid(whole_lines(t)) {
        None => None,
        Some(r) => Some(
            StatusEventV { status: r.status, cwd: r.cwd, ts: r.ts, observed_at: t.modified },
        ),
    }
}

/// The events of a directory of file tails, in file order; files without
/// a valid record contribute nothing.
pub open spec fn latest_status_spec(files: Seq<FileTail>) -> Seq<StatusEventV>
    decreases files.len(),
{
    if files.len() == 0 {
        Seq::empty()
    } else {
        latest_status_spec(files.drop_last()) + (match file_latest(files.last()@) {
            None => Seq::<StatusEventV>::empty(),
            Some(e) => seq![e],
        })
    }
}

/// The views of a sequence of events.
pub open spec fn event_views(s: Seq<StatusEvent>) -> Seq<StatusEventV> {
    s.map_values(|e: StatusEvent| e@)
}

/// Tail-read correctness: when the last whole line of a file's tail
/// parses as a record, the file's event is exactly that record's fields,
/// stamped with the file's modification time — regardless of what the
/// earlier lines hold and of how much of the file the tail covers.
pub proof fn lemma_tail_read(t: FileTailV, r: EventRecordV)
    requires
        whole_lines(t).len() > 0,
        parse_line_spec(whole_lines(t).last()) == Some(r),
    ensures
        file_latest(t) == Some(
            StatusEventV { status: r.status, cwd: r.cwd, ts: r.ts, observed_at: t.modified },
        ),
{
}

/// Graceful skip: a file whose tail holds no valid record contributes
/// nothing, and the events of the other files are exactly what they
/// would be without it.
pub proof fn lemma_skip_invalid(files: Seq<FileTail>, i: int)
    requires
        0 <= i < files.len(),
        file_latest(files[i]@) is None,
    ensures
        latest_status_spec(files) == latest_status_spec(files.remove(i)),
    decreases files.len(),
{
    if i == files.len() - 1 {
        assert(files.remove(i) =~= files.drop_last());
        assert(latest_status_spec(files) =~= latest_status_spec(files.drop_last()));
    } else {
        assert(files.drop_last()[i] == files[i]);
        lemma_skip_invalid(files.drop_last(), i);
        assert(files.remove(i).drop_last() =~= files.drop_last().remove(i));
        assert(files.remove(i).last() == files.last());
    }
}

/// The most recent record of one file tail.
pub fn tail_latest(file: &FileTail) -> (r: Option<StatusEvent>)
    ensures
        match r {
            Some(e) => file_latest(file@) == Some(e@),
            None => file_latest(file@) is None,
        },
{
    let chars = to_chars(file.tail.as_str());
    let ranges = line_ranges(&chars);
    let ghost ls = lines_spec(file.tail@);
    let ghost wl = whole_lines(file@);
    let start: usize = if file.truncated && ranges.len() > 0 {
        1
    } else {
        0
    };
    proof {
        if file.truncated && ls.len() > 0 {
            assert(wl =~= ls.skip(1));
        } else {
            assert(wl =~= ls.skip(0));
        }
    }
    let mut j: usize = ranges.len();
    proof {
        assert(wl.take(ranges@.len() - start as int) =~= wl);
    }
    while j > start
        invariant
            chars@ == file.tail@,
            ranges@.len() == ls.len(),
            ls == lines_spec(file.tail@),
            wl == whole_lines(file@),
            start <= j <= ranges@.len(),
            start == 0 || start == 1,
            start == 1 ==> ls.len() > 0,
            wl =~= ls.skip(start as int),
            forall|k: int|
                0 <= k < ranges@.len() ==> (#[trigger] ranges@[k]).0 <= ranges@[k].1 <= chars@.len()
                    && chars@.subrange(ranges@[k].0 as int, ranges@[k].1 as int) == ls[k],
            last_valid(wl) == last_valid(wl.take(j - start)),
        decreases j,
    {
        let (lo, hi) = ranges[j - 1];
        let line = file.tail.as_str().substring_char(lo, hi);
        proof {
            assert(line@ == ls[j - 1]);
            assert(wl.take(j - start)[j - start - 1] == ls[j - 1]);
            assert(wl.take(j - start).last() == ls[j - 1]);
            assert(wl.take(j - start).drop_last() =~= wl.take(j - 1 - start as int));
        }
        match parse_event_line(line) {
            Some(rec) => {
                return Some(
                    StatusEvent {
                        status: rec.status,
                        cwd: rec.cwd,
                        ts: rec.ts,
                        observed_at: file.modified,
                    },
                );
            },
            None => {},
        }
        j = j - 1;
    }
    proof {
        assert(wl.take(0) =~= Seq::<Seq<char>>::empty());
    }
    None
}

/// The most recent status record of each session log, in file order.
/// A file whose tail holds no valid record is skipped, and does not keep
/// other files from being read.
pub fn latest_status(files: &Vec<FileTail>) -> (r: Vec<StatusEvent>)
    ensures
        event_views(r@) == latest_status_spec(files@),
{
    let mut r: Vec<StatusEvent> = Vec::new();
    let mut i: usize = 0;
    proof {
        assert(event_views(r@) =~= latest_status_spec(files@.take(0)));
    }
    while i < files.len()
        invariant
            i <= files@.len(),
            event_views(r@) == latest_status_spec(files@.take(i as int)),
        decreases files@.len() - i,
    {
        let ghost before = r@;
        match tail_latest(&files[i]) {
            Some(e) => {
                r.push(e);
                proof {
                    assert(event_views(r@) =~= event_views(before).push(e@));
                }
            },
            None => {},
        }
        proof {
            assert(files@.take(i as int + 1).drop_last() =~= files@.take(i as int));
            assert(files@.take(i as int + 1).last() == files@[i as int]);
            assert(event_views(r@) =~= latest_status_spec(files@.take(i as int + 1)));
        }
        i = i + 1;
    }
    proof {
        assert(files@.take(files@.len() as int) =~= files@);
    }
    r
}

} // verus!
