//! The result sink: match entries, file/folder counters, the overflow
//! threshold on immediate rendering, and the rendering of match lines and
//! metadata blocks.

use crate::snapshot::EntryMeta;
use crate::text::{
    chars_of, dec_str, last_occ, push_all, rfind, string_of, subvec, u64_to_dec,
};
use crate::Arguments;
use chrono::Datelike;
use chrono::Timelike;
use vstd::prelude::*;

verus! {

/// Once this many results have been pushed, further results are retained for
/// bulk handling but no longer rendered immediately.
pub const OVERFLOW_THRESHOLD: usize = 100;

/// One reported match.
pub struct Entry {
    /// The path of the matched entry (for a content match: of the containing
    /// file).
    pub path: String,
    /// For a content match, the 1-indexed line number and the 0-indexed
    /// character column of the occurrence.
    pub loc: Option<(usize, usize)>,
    /// The entry's metadata, absent when retrieval failed.
    pub meta: Option<EntryMeta>,
}

/// The mathematical value of an `Entry`.
pub struct EntryV {
    pub path: Seq<char>,
    pub loc: Option<(usize, usize)>,
    pub meta: Option<EntryMeta>,
}

impl View for Entry {
    type V = EntryV;

    open spec fn view(&self) -> EntryV {
        EntryV { path: self.path@, loc: self.loc, meta: self.meta }
    }
}

impl Entry {
    /// A name-match entry for `path`.
    pub fn new(path: &String, meta: Option<EntryMeta>) -> (e: Entry)
        ensures
            e@ == (EntryV { path: path@, loc: None::<(usize, usize)>, meta }),
    {
        Entry { path: path.clone(), loc: None, meta }
    }

    /// A content-match entry for the occurrence at `line` (1-indexed) and
    /// `col` (0-indexed) inside the file at `path`.
    pub fn with_location(path: &String, line: usize, col: usize, meta: Option<EntryMeta>) -> (e:
        Entry)
        ensures
            e@ == (EntryV { path: path@, loc: Some((line, col)), meta }),
    {
        Entry { path: path.clone(), loc: Some((line, col)), meta }
    }

    /// Whether the matched entry is a directory (false when metadata is
    /// absent).
    pub fn is_dir(&self) -> (r: bool)
        ensures
            r == (self@.meta matches Some(m) && m.is_dir),
    {
        match &self.meta {
            Some(m) => m.is_dir,
            None => false,
        }
    }

    /// A copy of this entry with the same value.
    pub fn duplicate(&self) -> (e: Entry)
        ensures
            e@ == self@,
    {
        Entry { path: self.path.clone(), loc: self.loc, meta: self.meta }
    }
}

/// The escape sequence that starts the colouring of a location field.
pub open spec fn loc_color() -> Seq<char> {
    "\u{1b}[36m"@
}

/// The escape sequence that starts the highlighting of a matched substring.
pub open spec fn hl_color() -> Seq<char> {
    "\u{1b}[31m"@
}

/// The escape sequence that restores unstyled output.
pub open spec fn reset_color() -> Seq<char> {
    "\u{1b}[0m"@
}

/// The rendering of one match entry as a single line.
///
/// In path-only mode the entry is rendered plain: the path, and for a content
/// match the 1-indexed line and 0-indexed column appended as `:line:column`.
/// Otherwise a content match renders its two location fields coloured, and a
/// name match highlights the rightmost occurrence of the pattern within the
/// printed path (only the last occurrence, by design) and prints the rest
/// unstyled.
pub open spec fn render_line_spec(e: EntryV, pathonly: bool, pattern: Seq<char>) -> Seq<char> {
    if pathonly {
        match e.loc {
            None => e.path,
            Some((l, c)) => e.path + seq![':'] + dec_str(l as int) + seq![':'] + dec_str(c as int),
        }
    } else {
        match e.loc {
            Some((l, c)) => e.path + seq![':'] + loc_color() + dec_str(l as int) + reset_color()
                + seq![':'] + loc_color() + dec_str(c as int) + reset_color(),
            None => {
                if pattern.len() == 0 {
                    e.path
                } else {
                    match last_occ(e.path, pattern) {
                        Some(i) => e.path.take(i) + hl_color() + pattern + reset_color()
                            + e.path.skip(i + pattern.len()),
                        None => e.path,
                    }
                }
            },
        }
    }
}

/// Renders one match entry as a single line.
pub fn render_entry_line(e: &Entry, args: &Arguments) -> (s: String)
    ensures
        s@ == render_line_spec(e@, args.pathonly, args.pattern@),
{
    let mut v: Vec<char> = chars_of(self_path_str(e));
    if args.pathonly {
        if let Some((l, c)) = e.loc {
            v.push(':');
            push_all(&mut v, &u64_to_dec(l as u64));
            v.push(':');
            push_all(&mut v, &u64_to_dec(c as u64));
            proof {
                assert(v@ =~= render_line_spec(e@, args.pathonly, args.pattern@));
            }
        }
        string_of(&v)
    } else {
        match e.loc {
            Some((l, c)) => {
                let color = chars_of("\u{1b}[36m");
                let reset = chars_of("\u{1b}[0m");
                v.push(':');
                push_all(&mut v, &color);
                push_all(&mut v, &u64_to_dec(l as u64));
                push_all(&mut v, &reset);
                v.push(':');
                push_all(&mut v, &color);
                push_all(&mut v, &u64_to_dec(c as u64));
                push_all(&mut v, &reset);
                proof {
                    assert(v@ =~= render_line_spec(e@, args.pathonly, args.pattern@));
                }
                string_of(&v)
            },
            None => {
                let pat = chars_of(args.pattern.as_str());
                if pat.len() == 0 {
                    return string_of(&v);
                }
                match rfind(&v, &pat) {
                    Some(i) => {
                        let mut out = subvec(&v, 0, i);
                        let hl = chars_of("\u{1b}[31m");
                        let reset = chars_of("\u{1b}[0m");
                        push_all(&mut out, &hl);
                        push_all(&mut out, &pat);
                        push_all(&mut out, &reset);
                        let vlen = v.len();
                        proof {
                            assert(i + pat@.len() <= vlen);
                        }
                        let rest = subvec(&v, i + pat.len(), vlen);
                        push_all(&mut out, &rest);
                        proof {
                            assert(v@.subrange(0, i as int) =~= e@.path.take(i as int));
                            assert(v@.subrange(i + pat@.len(), v@.len() as int) =~= e@.path.skip(
                                i + pat@.len(),
                            ));
                            assert(out@ =~= render_line_spec(e@, args.pathonly, args.pattern@));
                        }
                        string_of(&out)
                    },
                    None => string_of(&v),
                }
            },
        }
    }
}

/// The path field of `e`, as a borrowed `&str`.
fn self_path_str(e: &Entry) -> (s: &str)
    ensures
        s@ == e@.path,
{
    self_str(&e.path)
}

/// `s` as a borrowed `&str`.
fn self_str(s: &String) -> (r: &str)
    ensures
        r@ == s@,
{
    s.as_str()
}

/// The error surfaced when a requested result index is out of range.
#[derive(Clone, Copy, PartialEq, Eq, Structural, Debug)]
pub enum SearchError {
    /// The index passed to `Results::select` is beyond the last result.
    IndexOutOfRange,
}

/// The result sink: retains every pushed match, counts classified files and
/// folders, and renders each match immediately while the number of pushed
/// results is still below `OVERFLOW_THRESHOLD`; at or above the threshold,
/// results are only retained for bulk access (a growth-safety valve), never
/// dropped and never rendered twice.
pub struct Results {
    /// Every pushed match, in push order.
    pub entries: Vec<Entry>,
    /// How many classified files the walk has seen.
    pub filecount: usize,
    /// How many classified folders the walk has seen.
    pub foldercount: usize,
    /// The lines rendered immediately, in push order.
    pub rendered: Vec<String>,
}

impl Results {
    /// The values of the retained entries.
    pub open spec fn entries_v(self) -> Seq<EntryV> {
        self.entries@.map_values(|e: Entry| e@)
    }

    /// The lines rendered immediately so far.
    pub open spec fn rendered_v(self) -> Seq<Seq<char>> {
        self.rendered@.map_values(|s: String| s@)
    }

    /// The sink invariant: exactly the first `OVERFLOW_THRESHOLD` results
    /// are rendered immediately.
    pub open spec fn wf(self) -> bool {
        self.rendered@.len() == if self.entries@.len() < OVERFLOW_THRESHOLD as int {
            self.entries@.len() as int
        } else {
            OVERFLOW_THRESHOLD as int
        }
    }

    /// An empty sink.
    pub fn new() -> (r: Results)
        ensures
            r.wf(),
            r.entries_v() == Seq::<EntryV>::empty(),
            r.rendered_v() == Seq::<Seq<char>>::empty(),
            r.filecount == 0,
            r.foldercount == 0,
    {
        let r = Results {
            entries: Vec::new(),
            filecount: 0,
            foldercount: 0,
            rendered: Vec::new(),
        };
        proof {
            assert(r.entries_v() =~= Seq::<EntryV>::empty());
            assert(r.rendered_v() =~= Seq::<Seq<char>>::empty());
        }
        r
    }

    /// Retains `entry`; while below the overflow threshold, also renders it
    /// immediately.
    pub fn push(&mut self, entry: Entry, args: &Arguments)
        requires
            old(self).wf(),
        ensures
            final(self).wf(),
            final(self).entries_v() == old(self).entries_v().push(entry@),
            old(self).entries@.len() < OVERFLOW_THRESHOLD as int ==> final(self).rendered_v()
                == old(self).rendered_v().push(
                render_line_spec(entry@, args.pathonly, args.pattern@),
            ),
            old(self).entries@.len() >= OVERFLOW_THRESHOLD as int ==> final(self).rendered_v()
                == old(self).rendered_v(),
            final(self).filecount == old(self).filecount,
            final(self).foldercount == old(self).foldercount,
    {
        if self.entries.len() < OVERFLOW_THRESHOLD {
            let line = render_entry_line(&entry, args);
            self.rendered.push(line);
            proof {
                assert(self.rendered_v() =~= old(self).rendered_v().push(
                    render_line_spec(entry@, args.pathonly, args.pattern@),
                ));
            }
        }
        self.entries.push(entry);
        proof {
            assert(self.entries_v() =~= old(self).entries_v().push(entry@));
        }
    }

    /// Counts one classified file.
    pub fn add_filecount(&mut self)
        requires
            old(self).filecount < usize::MAX,
        ensures
            final(self).filecount == old(self).filecount + 1,
            final(self).foldercount == old(self).foldercount,
            final(self).entries == old(self).entries,
            final(self).rendered == old(self).rendered,
            final(self).wf() == old(self).wf(),
    {
        self.filecount = self.filecount + 1;
    }

    /// The number of classified files.
    pub fn get_filecount(&self) -> (r: usize)
        ensures
            r == self.filecount,
    {
        self.filecount
    }

    /// Counts one classified folder.
    pub fn add_foldercount(&mut self)
        requires
            old(self).foldercount < usize::MAX,
        ensures
            final(self).foldercount == old(self).foldercount + 1,
            final(self).filecount == old(self).filecount,
            final(self).entries == old(self).entries,
            final(self).rendered == old(self).rendered,
            final(self).wf() == old(self).wf(),
    {
        self.foldercount = self.foldercount + 1;
    }

    /// The number of classified folders.
    pub fn get_foldercount(&self) -> (r: usize)
        ensures
            r == self.foldercount,
    {
        self.foldercount
    }

    /// The retained entries.
    pub fn get_entries(&self) -> (r: &Vec<Entry>)
        ensures
            r == self.entries,
    {
        &self.entries
    }

    /// The lines that were rendered immediately (the streamed output).
    pub fn rendered_lines(&self) -> (r: &Vec<String>)
        ensures
            r == self.rendered,
    {
        &self.rendered
    }

    /// Renders every retained entry, one line per entry, for bulk output.
    pub fn write(&self, args: &Arguments) -> (out: Vec<String>)
        ensures
            out@.len() == self.entries@.len(),
            forall|i: int|
                0 <= i < out@.len() ==> out@[i]@ == render_line_spec(
                    #[trigger] self.entries@[i]@,
                    args.pathonly,
                    args.pattern@,
                ),
    {
        let mut out: Vec<String> = Vec::new();
        let mut i: usize = 0;
        while i < self.entries.len()
            invariant
                i <= self.entries@.len(),
                out@.len() == i,
                forall|j: int|
                    0 <= j < i ==> out@[j]@ == render_line_spec(
                        #[trigger] self.entries@[j]@,
                        args.pathonly,
                        args.pattern@,
                    ),
            decreases self.entries@.len() - i,
        {
            let line = render_entry_line(&self.entries[i], args);
            out.push(line);
            i = i + 1;
        }
        out
    }

    /// Restricts the retained entries to the single result with the given
    /// index, as requested by the `get` option; an index beyond the last
    /// result is a configuration error surfaced to the caller.
    pub fn select(&mut self, index: usize) -> (r: Result<(), SearchError>)
        ensures
            index < old(self).entries@.len() ==> r is Ok && final(self).entries_v() == seq![
                old(self).entries_v()[index as int],
            ],
            index >= old(self).entries@.len() ==> r == Result::<(), SearchError>::Err(
                SearchError::IndexOutOfRange,
            ) && final(self).entries == old(self).entries,
            final(self).filecount == old(self).filecount,
            final(self).foldercount == old(self).foldercount,
            final(self).rendered == old(self).rendered,
    {
        if index < self.entries.len() {
            let chosen = self.entries[index].duplicate();
            let mut only: Vec<Entry> = Vec::new();
            only.push(chosen);
            self.entries = only;
            proof {
                assert(self.entries_v() =~= seq![old(self).entries_v()[index as int]]);
            }
            Ok(())
        } else {
            Err(SearchError::IndexOutOfRange)
        }
    }

    /// Restricts the retained entries to the first `n`, as requested by the
    /// `limit` option: a post-filter over the full in-memory result sequence.
    /// A limit at or beyond the result count keeps everything.
    pub fn limit(&mut self, n: usize)
        ensures
            final(self).entries_v() == old(self).entries_v().take(
                if n < old(self).entries@.len() {
                    n as int
                } else {
                    old(self).entries@.len() as int
                },
            ),
            final(self).filecount == old(self).filecount,
            final(self).foldercount == old(self).foldercount,
            final(self).rendered == old(self).rendered,
    {
        let len = self.entries.len();
        let keep = if n < len {
            n
        } else {
            len
        };
        let mut kept: Vec<Entry> = Vec::new();
        let mut i: usize = 0;
        while i < keep
            invariant
                i <= keep,
                keep <= self.entries@.len(),
                kept@.len() == i,
                forall|j: int| 0 <= j < i ==> kept@[j]@ == #[trigger] self.entries@[j]@,
                self.entries == old(self).entries,
                self.filecount == old(self).filecount,
                self.foldercount == old(self).foldercount,
                self.rendered == old(self).rendered,
            decreases keep - i,
        {
            let e = self.entries[i].duplicate();
            kept.push(e);
            i = i + 1;
        }
        self.entries = kept;
        proof {
            assert(self.entries_v() =~= old(self).entries_v().take(keep as int));
        }
    }

    /// The end-of-run summary: total results, and classified file and folder
    /// counts, with the elapsed milliseconds reported by the caller.
    pub fn summary(&self, elapsed_ms: u64) -> (s: String)
        ensures
            s@ == summary_spec(
                self.entries@.len() as int,
                self.filecount as int,
                self.foldercount as int,
                elapsed_ms as int,
            ),
    {
        let mut v: Vec<char> = chars_of("\nFound ");
        push_all(&mut v, &u64_to_dec(self.entries.len() as u64));
        push_all(&mut v, &chars_of(" results.\nSearched through "));
        push_all(&mut v, &u64_to_dec(self.filecount as u64));
        push_all(&mut v, &chars_of(" file(s) and "));
        push_all(&mut v, &u64_to_dec(self.foldercount as u64));
        push_all(&mut v, &chars_of(" folder(s) in "));
        push_all(&mut v, &u64_to_dec(elapsed_ms));
        push_all(&mut v, &chars_of(" ms."));
        proof {
            assert(v@ =~= summary_spec(
                self.entries@.len() as int,
                self.filecount as int,
                self.foldercount as int,
                elapsed_ms as int,
            ));
        }
        string_of(&v)
    }
}

/// The summary footer for `n` results, `f` files, `d` folders and `t`
/// elapsed milliseconds.
pub open spec fn summary_spec(n: int, f: int, d: int, t: int) -> Seq<char> {
    "\nFound "@ + dec_str(n) + " results.\nSearched through "@ + dec_str(f) + " file(s) and "@
        + dec_str(d) + " folder(s) in "@ + dec_str(t) + " ms."@
}

/// One kibibyte.
pub const KIB: u64 = 1024;

/// One mebibyte.
pub const MIB: u64 = 1048576;

/// One gibibyte.
pub const GIB: u64 = 1073741824;

/// The earliest Unix timestamp (in seconds) that chrono can represent: the
/// first second of the first day of year -262143.
pub const MIN_TIMESTAMP: i64 = -8334601228800;

/// The latest Unix timestamp (in seconds) that chrono can represent: the
/// last second of the last day of year 262142.
pub const MAX_TIMESTAMP: i64 = 8210266876799;

/// `x` lies in the range of timestamps chrono can represent.
pub open spec fn in_dt_range(x: i64) -> bool {
    MIN_TIMESTAMP <= x <= MAX_TIMESTAMP
}

/// A local calendar date and time, as plain values.
#[derive(Clone, Copy, Debug)]
pub struct TimeParts {
    pub year: i32,
    pub month: u8,
    pub day: u8,
    pub hour: u8,
    pub minute: u8,
    pub second: u8,
}

impl TimeParts {
    /// The fields lie in their calendar ranges.
    pub open spec fn wf(self) -> bool {
        1 <= self.month <= 12 && 1 <= self.day <= 31 && self.hour < 24 && self.minute < 60
            && self.second < 60
    }
}

/// Relies on chrono: `DateTime::from_timestamp` (UTC from Unix seconds),
/// `with_timezone(&Local)`, and the `Datelike`/`Timelike` accessors `year`,
/// `month` (1..=12), `day` (1..=31), `hour` (<24), `minute` (<60) and
/// `second` (<60). `from_timestamp(secs, 0)` returns `Some` exactly when the
/// day `secs.div_euclid(86400) + 719163` (days from the common era) falls on
/// a representable date, that is for years -262143 through 262142; in
/// seconds that is the closed range `MIN_TIMESTAMP ..= MAX_TIMESTAMP`. The
/// calendar parts depend on the machine's local time zone, so nothing more
/// is promised of them.
#[verifier::external_body]
fn local_time_parts(secs: i64) -> (r: Option<TimeParts>)
    ensures
        r matches Some(p) ==> p.wf(),
        r is Some <==> in_dt_range(secs),
{
    match chrono::DateTime::from_timestamp(secs, 0) {
        None => None,
        Some(utc) => {
            let local = utc.with_timezone(&chrono::Local);
            Some(TimeParts {
                year: local.year(),
                month: local.month() as u8,
                day: local.day() as u8,
                hour: local.hour() as u8,
                minute: local.minute() as u8,
                second: local.second() as u8,
            })
        },
    }
}

/// The two-digit, zero-padded decimal rendering of `n` (for `0 <= n < 100`).
pub open spec fn two_dec(n: int) -> Seq<char> {
    seq![crate::text::dec_digit((n / 10) % 10), crate::text::dec_digit(n % 10)]
}

/// Renders `n` as two zero-padded decimal digits.
fn two_dec_exec(n: u64) -> (v: Vec<char>)
    requires
        n < 100,
    ensures
        v@ == two_dec(n as int),
{
    let mut v: Vec<char> = Vec::new();
    v.push(crate::text::dec_digit_exec(n / 10));
    v.push(crate::text::dec_digit_exec(n % 10));
    proof {
        assert(v@ =~= two_dec(n as int));
    }
    v
}

/// The last two digits of a year.
pub open spec fn year_two(y: int) -> int {
    ((y % 100) + 100) % 100
}

/// The `DD/MM/YY HH:MM:SS` rendering of a local date and time.
pub open spec fn dt_spec(p: TimeParts) -> Seq<char> {
    two_dec(p.day as int) + seq!['/'] + two_dec(p.month as int) + seq!['/'] + two_dec(
        year_two(p.year as int),
    ) + seq![' '] + two_dec(p.hour as int) + seq![':'] + two_dec(p.minute as int) + seq![':']
        + two_dec(p.second as int)
}

/// Renders a local date and time as `DD/MM/YY HH:MM:SS`.
pub fn format_dt_parts(p: &TimeParts) -> (s: String)
    requires
        p.wf(),
    ensures
        s@ == dt_spec(*p),
{
    let yy: i32 = ((p.year % 100) + 100) % 100;
    proof {
        assert(0 <= yy < 100);
        assert(yy as int == year_two(p.year as int));
    }
    let mut v: Vec<char> = two_dec_exec(p.day as u64);
    v.push('/');
    push_all(&mut v, &two_dec_exec(p.month as u64));
    v.push('/');
    push_all(&mut v, &two_dec_exec(yy as u64));
    v.push(' ');
    push_all(&mut v, &two_dec_exec(p.hour as u64));
    v.push(':');
    push_all(&mut v, &two_dec_exec(p.minute as u64));
    v.push(':');
    push_all(&mut v, &two_dec_exec(p.second as u64));
    proof {
        assert(v@ =~= dt_spec(*p));
    }
    string_of(&v)
}

/// `s` renders the timestamp `secs`: the placeholder `_` when the timestamp
/// is absent or lies outside the representable range, and otherwise
/// `DD/MM/YY HH:MM:SS` for some valid local calendar parts (which ones
/// depends on the machine's time zone).
pub open spec fn valid_dt(s: Seq<char>, secs: Option<i64>) -> bool {
    match secs {
        None => s == "_"@,
        Some(x) => if in_dt_range(x) {
            exists|p: TimeParts| p.wf() && s == dt_spec(p)
        } else {
            s == "_"@
        },
    }
}

/// Renders an optional timestamp for the metadata block, with `_` standing
/// for an absent or unrepresentable timestamp.
pub fn format_dt(secs: Option<i64>) -> (s: String)
    ensures
        valid_dt(s@, secs),
{
    match secs {
        None => {
            let v = chars_of("_");
            string_of(&v)
        },
        Some(x) => {
            match local_time_parts(x) {
                None => {
                    let v = chars_of("_");
                    string_of(&v)
                },
                Some(p) => {
                    let s = format_dt_parts(&p);
                    proof {
                        assert(p.wf() && s@ == dt_spec(p));
                    }
                    s
                },
            }
        },
    }
}

/// `n` space characters.
pub open spec fn spaces(n: int) -> Seq<char> {
    Seq::new(if n < 0 { 0 } else { n as nat }, |i: int| ' ')
}

/// A metadata label padded to a 15-character column, followed by one space.
pub open spec fn pad_label(label: Seq<char>) -> Seq<char> {
    label + spaces(15 - label.len()) + seq![' ']
}

/// Pads a label to the metadata block's 15-character column.
fn pad_label_exec(label: &str) -> (v: Vec<char>)
    requires
        label@.len() <= 15,
    ensures
        v@ == pad_label(label@),
{
    let mut v = chars_of(label);
    let n = v.len();
    let mut i: usize = n;
    while i < 15
        invariant
            n <= i <= 15,
            n == label@.len(),
            v@ == label@ + spaces(i - n),
        decreases 15 - i,
    {
        v.push(' ');
        i = i + 1;
        proof {
            assert(v@ =~= label@ + spaces(i - n));
        }
    }
    v.push(' ');
    proof {
        assert(v@ =~= pad_label(label@));
    }
    v
}

/// The bucketed rendering of a file size: the largest of GB, MB and KB whose
/// quotient by the corresponding power of 1024 is non-zero, with KB as the
/// fallback for sizes below one kibibyte.
pub open spec fn size_render(size: int) -> Seq<char> {
    if size / (GIB as int) > 0 {
        dec_str(size / (GIB as int)) + "GB"@
    } else if size / (MIB as int) > 0 {
        dec_str(size / (MIB as int)) + "MB"@
    } else {
        dec_str(size / (KIB as int)) + "KB"@
    }
}

/// Renders a file size bucketed into KB, MB or GB.
fn size_render_exec(size: u64) -> (v: Vec<char>)
    ensures
        v@ == size_render(size as int),
{
    let mut v: Vec<char>;
    if size / GIB > 0 {
        v = u64_to_dec(size / GIB);
        push_all(&mut v, &chars_of("GB"));
    } else if size / MIB > 0 {
        v = u64_to_dec(size / MIB);
        push_all(&mut v, &chars_of("MB"));
    } else {
        v = u64_to_dec(size / KIB);
        push_all(&mut v, &chars_of("KB"));
    }
    v
}

/// The metadata block for one match: creation and modification times (`_`
/// when unavailable), the file type, for files the bucketed size, and the
/// permission summary. The caller interleaves these lines with the rendered
/// matches when verbose output is requested.
pub fn metadata_lines(meta: &EntryMeta) -> (out: Vec<String>)
    ensures
        out@.len() == (if meta.is_dir { 4int } else { 5int }),
        exists|c: Seq<char>|
            valid_dt(c, meta.created) && out@[0]@ == pad_label("Created:"@) + c,
        exists|m: Seq<char>|
            valid_dt(m, meta.modified) && out@[1]@ == pad_label("Last modified:"@) + m,
        out@[2]@ == pad_label("File type:"@) + (if meta.is_dir { "dir"@ } else { "file"@ }),
        !meta.is_dir ==> out@[3]@ == pad_label("File size:"@) + size_render(meta.size as int),
        out@[out@.len() - 1]@ == pad_label("Permissions:"@) + (if meta.readonly {
            "read only"@
        } else {
            "all"@
        }),
{
    proof {
        reveal_strlit("Created:");
        reveal_strlit("Last modified:");
        reveal_strlit("File type:");
        reveal_strlit("File size:");
        reveal_strlit("Permissions:");
    }
    let mut out: Vec<String> = Vec::new();

    let created = format_dt(meta.created);
    let ghost created_view = created@;
    let mut line = pad_label_exec("Created:");
    push_all(&mut line, &chars_of(self_str(&created)));
    out.push(string_of(&line));

    let modified = format_dt(meta.modified);
    let ghost modified_view = modified@;
    let mut line = pad_label_exec("Last modified:");
    push_all(&mut line, &chars_of(self_str(&modified)));
    out.push(string_of(&line));

    let mut line = pad_label_exec("File type:");
    if meta.is_dir {
        push_all(&mut line, &chars_of("dir"));
    } else {
        push_all(&mut line, &chars_of("file"));
    }
    out.push(string_of(&line));

    if !meta.is_dir {
        let mut line = pad_label_exec("File size:");
        push_all(&mut line, &size_render_exec(meta.size));
        out.push(string_of(&line));
    }

    let mut line = pad_label_exec("Permissions:");
    if meta.readonly {
        push_all(&mut line, &chars_of("read only"));
    } else {
        push_all(&mut line, &chars_of("all"));
    }
    out.push(string_of(&line));

    proof {
        assert(valid_dt(created_view, meta.created) && out@[0]@ == pad_label("Created:"@)
            + created_view);
        assert(valid_dt(modified_view, meta.modified) && out@[1]@ == pad_label("Last modified:"@)
            + modified_view);
    }
    out
}

/// How many of `n` results pushed after `base` retained ones are rendered
/// immediately: all of them while below the overflow threshold, then none.
pub open spec fn render_room(base: int, n: int) -> int {
    let room = OVERFLOW_THRESHOLD as int - base;
    if room <= 0 {
        0
    } else if n <= room {
        n
    } else {
        room
    }
}

/// The lines rendered immediately for the results `es`, pushed in order
/// after `base` results were already retained.
pub open spec fn render_delta(
    base: int,
    es: Seq<EntryV>,
    pathonly: bool,
    pattern: Seq<char>,
) -> Seq<Seq<char>> {
    Seq::new(
        render_room(base, es.len() as int) as nat,
        |i: int| render_line_spec(es[i], pathonly, pattern),
    )
}

/// Rendering a batch of pushed results splits at any point: the second part
/// is rendered as if pushed after the first.
pub proof fn lemma_render_delta_concat(
    base: int,
    a: Seq<EntryV>,
    b: Seq<EntryV>,
    pathonly: bool,
    pattern: Seq<char>,
)
    requires
        base >= 0,
    ensures
        render_delta(base, a + b, pathonly, pattern) == render_delta(base, a, pathonly, pattern)
            + render_delta(base + a.len(), b, pathonly, pattern),
{
    let la = a.len() as int;
    let lb = b.len() as int;
    assert(render_room(base, la + lb) == render_room(base, la) + render_room(base + la, lb));
    if render_room(base + la, lb) > 0 {
        assert(render_room(base, la) == la);
    }
    assert(render_delta(base, a + b, pathonly, pattern) =~= render_delta(base, a, pathonly, pattern)
        + render_delta(base + a.len(), b, pathonly, pattern)) by {
        assert(forall|i: int| 0 <= i < render_room(base, la) ==> (a + b)[i] == #[trigger] a[i]);
        if render_room(base + la, lb) > 0 {
            assert(forall|j: int|
                0 <= j < render_room(base + la, lb) ==> (a + b)[la + j] == #[trigger] b[j]);
        }
    }
}

/// Rendering a single pushed result: one line while below the threshold,
/// nothing at or above it.
pub proof fn lemma_render_delta_one(base: int, e: EntryV, pathonly: bool, pattern: Seq<char>)
    ensures
        render_delta(base, seq![e], pathonly, pattern) == if base < OVERFLOW_THRESHOLD as int {
            seq![render_line_spec(e, pathonly, pattern)]
        } else {
            Seq::<Seq<char>>::empty()
        },
{
    if base < OVERFLOW_THRESHOLD as int {
        assert(render_delta(base, seq![e], pathonly, pattern) =~= seq![
            render_line_spec(e, pathonly, pattern),
        ]);
    } else {
        assert(render_delta(base, seq![e], pathonly, pattern) =~= Seq::<Seq<char>>::empty());
    }
}

/// Rendering an empty batch renders nothing.
pub proof fn lemma_render_delta_empty(base: int, pathonly: bool, pattern: Seq<char>)
    ensures
        render_delta(base, Seq::<EntryV>::empty(), pathonly, pattern) == Seq::<Seq<char>>::empty(),
{
    assert(render_delta(base, Seq::<EntryV>::empty(), pathonly, pattern) =~= Seq::<
        Seq<char>,
    >::empty());
}

/// Composes the rendered-stream bookkeeping across one batch of pushes: if
/// the stream matched the retained results before the batch, and the batch
/// rendered its results as pushed after the ones already retained, the
/// stream matches the retained results afterwards.
pub proof fn lemma_render_delta_step(
    base0: int,
    pre: Seq<EntryV>,
    post: Seq<EntryV>,
    dlt: Seq<EntryV>,
    old_rendered: Seq<Seq<char>>,
    pre_rendered: Seq<Seq<char>>,
    post_rendered: Seq<Seq<char>>,
    pathonly: bool,
    pattern: Seq<char>,
)
    requires
        0 <= base0 <= pre.len(),
        post == pre + dlt,
        pre_rendered == old_rendered + render_delta(base0, pre.skip(base0), pathonly, pattern),
        post_rendered == pre_rendered + render_delta(pre.len() as int, dlt, pathonly, pattern),
    ensures
        post_rendered == old_rendered + render_delta(base0, post.skip(base0), pathonly, pattern),
{
    let s_pre = pre.skip(base0);
    assert(post.skip(base0) =~= s_pre + dlt);
    lemma_render_delta_concat(base0, s_pre, dlt, pathonly, pattern);
    assert(base0 + s_pre.len() == pre.len());
    assert(post_rendered =~= old_rendered + render_delta(
        base0,
        post.skip(base0),
        pathonly,
        pattern,
    ));
}

} // verus!
