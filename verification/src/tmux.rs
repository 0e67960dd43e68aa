//! The view of the multiplexer's window directory.
//!
//! The multiplexer itself is an external collaborator reached over a
//! query/command interface; this module holds the slot data type and the
//! parsing of the directory listing the host prints, one window per line
//! with `|`-separated fields.  Running the query is the caller's job; the
//! raw listing text comes in as a plain string.

use vstd::prelude::*;

verus! {

/// One visible session slot, as reported by the multiplexer.
pub struct WindowInfo {
    /// Stable small identifier, assigned by the multiplexer.
    pub index: u32,
    /// Display name of the slot.
    pub name: String,
    /// Whether the host currently focuses this slot.
    pub is_active: bool,
    /// Working directory of the slot's pane.
    pub pane_path: String,
}

/// The mathematical model of a slot.
pub struct WindowInfoV {
    pub index: u32,
    pub name: Seq<char>,
    pub is_active: bool,
    pub pane_path: Seq<char>,
}

impl View for WindowInfo {
    type V = WindowInfoV;

    open spec fn view(&self) -> WindowInfoV {
        WindowInfoV {
            index: self.index,
            name: self.name@,
            is_active: self.is_active,
            pane_path: self.pane_path@,
        }
    }
}

/// The first occurrence of `c` in `l` at or after `i`.
pub open spec fn find_char(l: Seq<char>, c: char, i: int) -> Option<int>
    decreases l.len() - i,
{
    if i < 0 || i >= l.len() {
        None
    } else if l[i] == c {
        Some(i)
    } else {
        find_char(l, c, i + 1)
    }
}

/// Executable mirror of [`find_char`].
fn find_char_at(l: &Vec<char>, c: char, i: usize) -> (r: Option<usize>)
    ensures
        match r {
            Some(j) => find_char(l@, c, i as int) == Some(j as int) && i <= j < l@.len()
                && l@[j as int] == c,
            None => find_char(l@, c, i as int) is None,
        },
    decreases l@.len() - i,
{
    if i >= l.len() {
        return None;
    }
    if l[i] == c {
        Some(i)
    } else {
        find_char_at(l, c, i + 1)
    }
}

/// The slot identifier named by a field: its decimal value when the
/// field is one or more digits and fits, and zero otherwise.
pub open spec fn u32_of_digits(s: Seq<char>) -> u32 {
    if s.len() > 0 && (forall|k: int| 0 <= k < s.len() ==> crate::text::is_digit(#[trigger] s[k]))
        && crate::text::dec_val(s) <= u32::MAX {
        crate::text::dec_val(s) as u32
    } else {
        0u32
    }
}

/// Read a slot identifier out of an index range of a line.
fn parse_u32_or_zero(l: &Vec<char>, lo: usize, hi: usize) -> (r: u32)
    requires
        lo <= hi <= l@.len(),
    ensures
        r == u32_of_digits(l@.subrange(lo as int, hi as int)),
{
    let ghost s = l@.subrange(lo as int, hi as int);
    if lo == hi {
        return 0;
    }
    let mut k: usize = lo;
    while k < hi
        invariant
            lo <= k <= hi <= l@.len(),
            s == l@.subrange(lo as int, hi as int),
            forall|j: int| 0 <= j < k - lo ==> crate::text::is_digit(#[trigger] s[j]),
        decreases hi - k,
    {
        proof {
            assert(s[k - lo] == l@[k as int]);
        }
        if !crate::text::digit_char(l[k]) {
            return 0;
        }
        k = k + 1;
    }
    proof {
        assert forall|j: int| lo <= j < hi implies crate::text::is_digit(#[trigger] l@[j]) by {
            assert(s[j - lo] == l@[j]);
        }
    }
    match crate::text::dec_value_range(l, lo, hi) {
        None => 0,
        Some(v) => {
            if v > 0xffff_ffffu64 {
                0
            } else {
                v as u32
            }
        },
    }
}

/// The slot a listing line describes: four `|`-separated fields — the
/// identifier, the display name, the active flag (`1` for active) and
/// the pane's working directory, which may itself contain `|`.  A line
/// with fewer than four fields describes nothing.
pub open spec fn parse_window_line(l: Seq<char>) -> Option<WindowInfoV> {
    match find_char(l, '|', 0) {
        None => None,
        Some(p1) => match find_char(l, '|', p1 + 1) {
            None => None,
            Some(p2) => match find_char(l, '|', p2 + 1) {
                None => None,
                Some(p3) => Some(
                    WindowInfoV {
                        index: u32_of_digits(l.subrange(0, p1)),
                        name: l.subrange(p1 + 1, p2),
                        is_active: l.subrange(p2 + 1, p3) == "1"@,
                        pane_path: l.subrange(p3 + 1, l.len() as int),
                    },
                ),
            },
        },
    }
}

/// The slots described by a sequence of listing lines, in order.
pub open spec fn collect_windows(ls: Seq<Seq<char>>) -> Seq<WindowInfoV>
    decreases ls.len(),
{
    if ls.len() == 0 {
        Seq::empty()
    } else {
        collect_windows(ls.drop_last()) + (match parse_window_line(ls.last()) {
            None => Seq::<WindowInfoV>::empty(),
            Some(w) => seq![w],
        })
    }
}

/// The slots described by a raw listing.
pub open spec fn list_windows_spec(s: Seq<char>) -> Seq<WindowInfoV> {
    collect_windows(crate::text::lines_spec(s))
}

/// The views of a sequence of slots.
pub open spec fn window_views(s: Seq<WindowInfo>) -> Seq<WindowInfoV> {
    s.map_values(|w: WindowInfo| w@)
}

/// Parse one listing line into a slot, if it has all four fields.
fn parse_line(raw: &str, chars: &Vec<char>, lo: usize, hi: usize) -> (r: Option<WindowInfo>)
    requires
        chars@ == raw@,
        lo <= hi <= chars@.len(),
    ensures
        match r {
            Some(w) => parse_window_line(chars@.subrange(lo as int, hi as int)) == Some(w@),
            None => parse_window_line(chars@.subrange(lo as int, hi as int)) is None,
        },
{
    let ghost l = chars@.subrange(lo as int, hi as int);
    let line = crate::text::copy_range(chars, lo, hi);
    let p1 = match find_char_at(&line, '|', 0) {
        None => {
            return None;
        },
        Some(p) => p,
    };
    let p2 = match find_char_at(&line, '|', p1 + 1) {
        None => {
            return None;
        },
        Some(p) => p,
    };
    let p3 = match find_char_at(&line, '|', p2 + 1) {
        None => {
            return None;
        },
        Some(p) => p,
    };
    let index = parse_u32_or_zero(&line, 0, p1);
    let name = String::from_str(raw.substring_char(lo + p1 + 1, lo + p2));
    let one = crate::text::to_chars("1");
    let is_active = crate::text::range_eq(&line, p2 + 1, p3, &one);
    let pane_path = String::from_str(raw.substring_char(lo + p3 + 1, hi));
    proof {
        assert(l.subrange(p1 as int + 1, p2 as int) =~= chars@.subrange(
            lo + p1 as int + 1,
            lo + p2 as int,
        ));
        assert(l.subrange(p3 as int + 1, l.len() as int) =~= chars@.subrange(
            lo + p3 as int + 1,
            hi as int,
        ));
    }
    Some(WindowInfo { index, name, is_active, pane_path })
}

/// Parse the raw window listing of the host: one slot per well-formed
/// line, in listing order.
pub fn list_windows(raw: &str) -> (r: Vec<WindowInfo>)
    ensures
        window_views(r@) == list_windows_spec(raw@),
{
    let chars = crate::text::to_chars(raw);
    let ranges = crate::text::line_ranges(&chars);
    let ghost ls = crate::text::lines_spec(raw@);
    let mut r: Vec<WindowInfo> = Vec::new();
    let mut i: usize = 0;
    proof {
        assert(window_views(r@) =~= collect_windows(ls.take(0)));
    }
    while i < ranges.len()
        invariant
            chars@ == raw@,
            ls == crate::text::lines_spec(raw@),
            ranges@.len() == ls.len(),
            i <= ranges@.len(),
            forall|k: int|
                0 <= k < ranges@.len() ==> (#[trigger] ranges@[k]).0 <= ranges@[k].1 <= chars@.len()
                    && chars@.subrange(ranges@[k].0 as int, ranges@[k].1 as int) == ls[k],
            window_views(r@) == collect_windows(ls.take(i as int)),
        decreases ranges@.len() - i,
    {
        proof {
            assert(ls.take(i as int + 1).drop_last() =~= ls.take(i as int));
            assert(ls.take(i as int + 1).last() == ls[i as int]);
        }
        let (lo, hi) = ranges[i];
        let ghost before = r@;
        match parse_line(raw, &chars, lo, hi) {
            Some(w) => {
                r.push(w);
                proof {
                    assert(window_views(r@) =~= window_views(before).push(w@));
                }
            },
            None => {},
        }
        proof {
            assert(window_views(r@) =~= collect_windows(ls.take(i as int + 1)));
        }
        i = i + 1;
    }
    proof {
        assert(ls.take(ls.len() as int) =~= ls);
    }
    r
}

/// The display names in the raw name listing: one per line.
pub fn list_window_names(raw: &str) -> (r: Vec<String>)
    ensures
        r@.map_values(|s: String| s@) == crate::text::lines_spec(raw@),
{
    let chars = crate::text::to_chars(raw);
    let ranges = crate::text::line_ranges(&chars);
    let ghost ls = crate::text::lines_spec(raw@);
    let mut r: Vec<String> = Vec::new();
    let mut i: usize = 0;
    while i < ranges.len()
        invariant
            chars@ == raw@,
            ls == crate::text::lines_spec(raw@),
            ranges@.len() == ls.len(),
            i <= ranges@.len(),
            r@.len() == i,
            forall|k: int|
                0 <= k < ranges@.len() ==> (#[trigger] ranges@[k]).0 <= ranges@[k].1 <= chars@.len()
                    && chars@.subrange(ranges@[k].0 as int, ranges@[k].1 as int) == ls[k],
            forall|k: int| 0 <= k < i ==> r@[k]@ == ls[k],
        decreases ranges@.len() - i,
    {
        let (lo, hi) = ranges[i];
        let name = String::from_str(raw.substring_char(lo, hi));
        r.push(name);
        i = i + 1;
    }
    proof {
        assert(r@.map_values(|s: String| s@) =~= ls);
    }
    r
}

/// Is this name already taken by a listed window?
pub fn name_taken(names: &Vec<String>, name: &str) -> (r: bool)
    ensures
        r == exists|i: int| 0 <= i < names@.len() && (#[trigger] names@[i])@ == name@,
{
    let target = crate::text::to_chars(name);
    let n = names.len();
    let mut i: usize = 0;
    while i < n
        invariant
            n == names@.len(),
            target@ == name@,
            i <= n,
            forall|k: int| 0 <= k < i ==> (#[trigger] names@[k])@ != name@,
        decreases n - i,
    {
        let c = crate::text::to_chars(names[i].as_str());
        if crate::text::chars_eq(&c, &target) {
            return true;
        }
        i = i + 1;
    }
    false
}

} // verus!
