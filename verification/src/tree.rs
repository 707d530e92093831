//! The depth-bounded tree walker: per-directory ignore rules, hidden-entry
//! policy, entry classification, and the two search modes (name search and
//! content search), specified by a recursive walk function over the snapshot.

use crate::results::{Entry, EntryV, Results};
use crate::snapshot::{EntryMeta, FsEntry, FsNode};
use crate::text::{
    chars_of, contains_exec, contains_seq, find_from, first_occ_from, lines_from, lines_of,
    match_at, push_all, split_lines, string_of, trim_seps, trim_seps_exec,
};
use crate::Arguments;
use vstd::prelude::*;

verus! {

/// A node of the (transient) directory tree built while walking: the walk
/// itself only needs the path it was started at, so no child graph is kept.
pub struct Tree {
    /// The path this tree was rooted at.
    pub path: String,
}

/// What one walk emits into the sink and adds to its counters.
pub struct WalkOut {
    /// The match entries, in emission order.
    pub entries: Seq<EntryV>,
    /// How many classified files the walk saw.
    pub files: nat,
    /// How many classified folders the walk saw.
    pub folders: nat,
}

/// A walk that emits and counts nothing.
pub open spec fn wo_empty() -> WalkOut {
    WalkOut { entries: Seq::empty(), files: 0, folders: 0 }
}

/// Two walks, one after the other.
pub open spec fn wo_add(a: WalkOut, b: WalkOut) -> WalkOut {
    WalkOut { entries: a.entries + b.entries, files: a.files + b.files, folders: a.folders + b.folders }
}

/// A name is one of the two recognised ignore-file names.
pub open spec fn is_ignore_name(name: Seq<char>) -> bool {
    name == ".ignore"@ || name == ".gitignore"@
}

/// The index of the first entry (in enumeration order, from `i`) named like
/// an ignore file.
pub open spec fn ignore_idx_from(es: Seq<FsEntry>, i: int) -> Option<int>
    decreases es.len() - i,
{
    if i < 0 || i >= es.len() {
        None
    } else if is_ignore_name(es[i].name@) {
        Some(i)
    } else {
        ignore_idx_from(es, i + 1)
    }
}

/// The rules parsed from the first `upto` lines of an ignore file: each line
/// trimmed of leading and trailing path separators, empty results dropped.
pub open spec fn rules_upto(lines: Seq<Seq<char>>, upto: int) -> Seq<Seq<char>>
    decreases upto,
{
    if upto <= 0 {
        Seq::empty()
    } else {
        rules_upto(lines, upto - 1) + if trim_seps(lines[upto - 1]).len() > 0 {
            seq![trim_seps(lines[upto - 1])]
        } else {
            Seq::empty()
        }
    }
}

/// The rules parsed from an ignore file's text.
pub open spec fn rules_of_text(text: Seq<char>) -> Seq<Seq<char>> {
    rules_upto(lines_of(text), lines_of(text).len() as int)
}

/// The ignore rules of a directory with children `es`: the parsed content of
/// the first child named `.ignore` or `.gitignore`, and the empty set when
/// there is none, or when it is not a file whose content could be read as
/// text (ignore resolution fails closed).
pub open spec fn ignore_rules_of(es: Seq<FsEntry>) -> Seq<Seq<char>> {
    match ignore_idx_from(es, 0) {
        None => Seq::empty(),
        Some(i) => match es[i].node {
            FsNode::File { text, .. } => match text {
                Some(t) => rules_of_text(t@),
                None => Seq::empty(),
            },
            FsNode::Dir { .. } => Seq::empty(),
        },
    }
}

/// The walk skips a child: hidden (name starting with `.`) while hidden
/// entries are excluded, or named by an ignore rule of its directory while
/// ignore rules are in force.
pub open spec fn skip_child(name: Seq<char>, es: Seq<FsEntry>, all: bool, useignore: bool) -> bool {
    (!all && name.len() > 0 && name[0] == '.') || (useignore && ignore_rules_of(es).contains(name))
}

/// `b` starts with `p`.
pub open spec fn bytes_prefix(b: Seq<u8>, p: Seq<u8>) -> bool {
    p.len() <= b.len() && b.subrange(0, p.len() as int) == p
}

/// `b` starts with a byte-order mark (UTF-8, UTF-16 or UTF-32).
pub open spec fn has_bom(b: Seq<u8>) -> bool {
    ||| bytes_prefix(b, seq![0xefu8, 0xbbu8, 0xbfu8])
    ||| bytes_prefix(b, seq![0x00u8, 0x00u8, 0xfeu8, 0xffu8])
    ||| bytes_prefix(b, seq![0xffu8, 0xfeu8, 0x00u8, 0x00u8])
    ||| bytes_prefix(b, seq![0xfeu8, 0xffu8])
    ||| bytes_prefix(b, seq![0xffu8, 0xfeu8])
}

/// A zero byte occurs among the first 1024 bytes of `b`.
pub open spec fn has_null_in_scan(b: Seq<u8>) -> bool {
    exists|i: int| 0 <= i < b.len() && i < 1024 && b[i] == 0u8
}

/// `b` starts with the `%PDF` or PNG magic number.
pub open spec fn has_magic(b: Seq<u8>) -> bool {
    ||| bytes_prefix(b, seq![0x25u8, 0x50u8, 0x44u8, 0x46u8])
    ||| bytes_prefix(b, seq![0x89u8, 0x50u8, 0x4eu8, 0x47u8])
}

/// The byte sample classifies as binary: no BOM prefix, and a zero byte in
/// the scanned prefix or a `%PDF`/PNG magic number.
pub open spec fn is_binary_spec(b: Seq<u8>) -> bool {
    !has_bom(b) && (has_null_in_scan(b) || has_magic(b))
}

/// The match entries of one line of a file's text, scanning for the leftmost
/// occurrence of `pattern` from `from` and then past each occurrence
/// (non-overlapping): one entry per occurrence, whose column is the
/// occurrence's 0-indexed character offset in the line.
pub open spec fn line_scan(
    path: Seq<char>,
    lineno: int,
    line: Seq<char>,
    pattern: Seq<char>,
    from: int,
    meta: Option<EntryMeta>,
) -> Seq<EntryV>
    decreases line.len() - from + 1,
{
    if pattern.len() <= 0 || from < 0 || from + pattern.len() > line.len() {
        Seq::empty()
    } else if match_at(line, pattern, from) {
        seq![
            EntryV { path, loc: Some((lineno as usize, from as usize)), meta },
        ] + line_scan(path, lineno, line, pattern, from + pattern.len(), meta)
    } else {
        line_scan(path, lineno, line, pattern, from + 1, meta)
    }
}

/// The match entries of the first `upto` lines of a file's text; line
/// numbers are 1-indexed.
pub open spec fn lines_matches(
    path: Seq<char>,
    lines: Seq<Seq<char>>,
    upto: int,
    pattern: Seq<char>,
    meta: Option<EntryMeta>,
) -> Seq<EntryV>
    decreases upto,
{
    if upto <= 0 {
        Seq::empty()
    } else {
        lines_matches(path, lines, upto - 1, pattern, meta) + line_scan(
            path,
            upto,
            lines[upto - 1],
            pattern,
            0,
            meta,
        )
    }
}

/// The match entries of a file's whole text.
pub open spec fn text_matches(
    path: Seq<char>,
    text: Seq<char>,
    pattern: Seq<char>,
    meta: Option<EntryMeta>,
) -> Seq<EntryV> {
    lines_matches(path, lines_of(text), lines_of(text).len() as int, pattern, meta)
}

/// The match entries of one file in content-search mode: nothing for a file
/// that classifies as binary or whose content could not be read as text.
pub open spec fn file_matches(
    path: Seq<char>,
    sample: Seq<u8>,
    text: Option<String>,
    pattern: Seq<char>,
    meta: Option<EntryMeta>,
) -> Seq<EntryV> {
    if is_binary_spec(sample) {
        Seq::empty()
    } else {
        match text {
            Some(t) => text_matches(path, t@, pattern, meta),
            None => Seq::empty(),
        }
    }
}


/// A subrange of a text with no occurrence of the pattern has none either.
proof fn lemma_no_contains_subrange(s: Seq<char>, pattern: Seq<char>, a: int, c: int)
    requires
        !contains_seq(s, pattern),
        0 <= a <= c <= s.len(),
    ensures
        !contains_seq(s.subrange(a, c), pattern),
{
    let sub = s.subrange(a, c);
    if contains_seq(sub, pattern) {
        let k = choose|k: int| match_at(sub, pattern, k);
        assert(s.subrange(a + k, a + k + pattern.len() as int) =~= sub.subrange(
            k,
            k + pattern.len() as int,
        ));
        assert(match_at(s, pattern, a + k));
    }
}

/// When the text holds no occurrence of the pattern, neither does any line
/// the splitter produces from it.
proof fn lemma_lines_from_no_contains(s: Seq<char>, start: int, cur: int, pattern: Seq<char>)
    requires
        !contains_seq(s, pattern),
        0 <= start <= cur <= s.len(),
    ensures
        forall|j: int|
            0 <= j < lines_from(s, start, cur).len() ==> !contains_seq(
                #[trigger] lines_from(s, start, cur)[j],
                pattern,
            ),
    decreases s.len() - cur,
{
    let piece = s.subrange(start, cur);
    lemma_no_contains_subrange(s, pattern, start, cur);
    assert(!contains_seq(crate::text::strip_cr(piece), pattern)) by {
        if piece.len() > 0 && piece.last() == '\r' {
            assert(crate::text::strip_cr(piece) =~= s.subrange(start, cur - 1));
            lemma_no_contains_subrange(s, pattern, start, cur - 1);
        }
    }
    let whole = lines_from(s, start, cur);
    if cur == s.len() {
        assert forall|j: int| 0 <= j < whole.len() implies !contains_seq(
            #[trigger] whole[j],
            pattern,
        ) by {
            assert(whole[j] == crate::text::strip_cr(piece));
        }
    } else if s[cur] == '\n' {
        lemma_lines_from_no_contains(s, cur + 1, cur + 1, pattern);
        let rest = lines_from(s, cur + 1, cur + 1);
        assert forall|j: int| 0 <= j < whole.len() implies !contains_seq(
            #[trigger] whole[j],
            pattern,
        ) by {
            if j == 0 {
                assert(whole[0] == crate::text::strip_cr(piece));
            } else {
                assert(whole[j] == rest[j - 1]);
            }
        }
    } else {
        lemma_lines_from_no_contains(s, start, cur + 1, pattern);
        assert forall|j: int| 0 <= j < whole.len() implies !contains_seq(
            #[trigger] whole[j],
            pattern,
        ) by {
            assert(whole[j] == lines_from(s, start, cur + 1)[j]);
        }
    }
}

/// A line with no occurrence of the pattern yields no match entries.
proof fn lemma_line_scan_empty(
    path: Seq<char>,
    lineno: int,
    line: Seq<char>,
    pattern: Seq<char>,
    from: int,
    meta: Option<EntryMeta>,
)
    requires
        !contains_seq(line, pattern),
    ensures
        line_scan(path, lineno, line, pattern, from, meta) == Seq::<EntryV>::empty(),
    decreases line.len() - from + 1,
{
    if pattern.len() <= 0 || from < 0 || from + pattern.len() > line.len() {
    } else if match_at(line, pattern, from) {
        assert(contains_seq(line, pattern));
    } else {
        lemma_line_scan_empty(path, lineno, line, pattern, from + 1, meta);
    }
}

/// A text with no occurrence of the pattern yields no match entries, so a
/// whole-content containment check may short-circuit per-line scanning.
pub proof fn lemma_text_matches_need_contains(
    path: Seq<char>,
    text: Seq<char>,
    pattern: Seq<char>,
    meta: Option<EntryMeta>,
)
    requires
        !contains_seq(text, pattern),
    ensures
        text_matches(path, text, pattern, meta) == Seq::<EntryV>::empty(),
{
    lemma_lines_from_no_contains(text, 0, 0, pattern);
    let lines = lines_of(text);
    lemma_lines_matches_empty(path, lines, lines.len() as int, pattern, meta);
}

/// No line among the first `upto` holds an occurrence, so no entries come
/// of them.
proof fn lemma_lines_matches_empty(
    path: Seq<char>,
    lines: Seq<Seq<char>>,
    upto: int,
    pattern: Seq<char>,
    meta: Option<EntryMeta>,
)
    requires
        upto <= lines.len(),
        forall|j: int| 0 <= j < lines.len() ==> !contains_seq(#[trigger] lines[j], pattern),
    ensures
        lines_matches(path, lines, upto, pattern, meta) == Seq::<EntryV>::empty(),
    decreases upto,
{
    if upto <= 0 {
    } else {
        lemma_lines_matches_empty(path, lines, upto - 1, pattern, meta);
        lemma_line_scan_empty(path, upto, lines[upto - 1], pattern, 0, meta);
        assert(lines_matches(path, lines, upto, pattern, meta) =~= Seq::<EntryV>::empty());
    }
}

/// The lexicographic tie-breaker that orders a node's walk above the walks
/// of its children within one depth level.
pub open spec fn node_size(node: FsNode) -> int {
    match node {
        FsNode::Dir { entries, .. } => entries@.len() as int + 1,
        FsNode::File { .. } => 0,
    }
}

/// What the walk of `node`, reached at `path` with `depth` levels of
/// directory descent left, emits and counts.
///
/// At depth zero nothing is visited. A file node is content-searched in
/// content-search mode (`infile`) and yields nothing in name-search mode. A
/// directory's children are filtered by the hidden-entry policy and the
/// directory's own ignore rules; each remaining child is classified (counted
/// as file or folder when its metadata is present, not counted otherwise),
/// then name-matched (name mode) or content-searched (content mode, file
/// children), and directory children are walked at `depth - 1`. A file child
/// of a visited directory is always inspected: depth bounds directory
/// descent, not file inspection at the current level.
pub open spec fn walk_spec(
    path: Seq<char>,
    node: FsNode,
    depth: nat,
    pattern: Seq<char>,
    all: bool,
    useignore: bool,
    infile: bool,
) -> WalkOut
    decreases depth, node_size(node) + 1,
{
    if depth == 0 {
        wo_empty()
    } else {
        match node {
            FsNode::File { meta, sample, text } => {
                if infile {
                    WalkOut {
                        entries: file_matches(path, sample@, text, pattern, meta),
                        files: 0,
                        folders: 0,
                    }
                } else {
                    wo_empty()
                }
            },
            FsNode::Dir { entries, .. } => walk_children(
                path,
                entries@,
                entries@.len() as int,
                depth,
                pattern,
                all,
                useignore,
                infile,
            ),
        }
    }
}

/// What the walk of the first `i` children of a directory at `path` emits
/// and counts.
pub open spec fn walk_children(
    path: Seq<char>,
    es: Seq<FsEntry>,
    i: int,
    depth: nat,
    pattern: Seq<char>,
    all: bool,
    useignore: bool,
    infile: bool,
) -> WalkOut
    decreases depth, i,
{
    if i <= 0 || i > es.len() || depth == 0 {
        wo_empty()
    } else {
        wo_add(
            walk_children(path, es, i - 1, depth, pattern, all, useignore, infile),
            walk_child(path, es, es[i - 1], depth, pattern, all, useignore, infile),
        )
    }
}

/// What one child of a directory at `path` contributes to the walk.
pub open spec fn walk_child(
    path: Seq<char>,
    es: Seq<FsEntry>,
    c: FsEntry,
    depth: nat,
    pattern: Seq<char>,
    all: bool,
    useignore: bool,
    infile: bool,
) -> WalkOut
    decreases depth, 0int,
{
    let name = c.name@;
    let cpath = path + seq!['/'] + name;
    if depth == 0 || skip_child(name, es, all, useignore) {
        wo_empty()
    } else {
        let cnt = match c.node.meta_of() {
            Some(m) => {
                if m.is_dir {
                    WalkOut { entries: Seq::empty(), files: 0, folders: 1 }
                } else {
                    WalkOut { entries: Seq::empty(), files: 1, folders: 0 }
                }
            },
            None => wo_empty(),
        };
        if infile {
            let sub = match c.node {
                FsNode::File { meta, sample, text } => WalkOut {
                    entries: file_matches(cpath, sample@, text, pattern, meta),
                    files: 0,
                    folders: 0,
                },
                FsNode::Dir { .. } => walk_spec(
                    cpath,
                    c.node,
                    (depth - 1) as nat,
                    pattern,
                    all,
                    useignore,
                    true,
                ),
            };
            wo_add(cnt, sub)
        } else {
            let matched: Seq<EntryV> = if contains_seq(name, pattern) {
                seq![EntryV { path: cpath, loc: None, meta: c.node.meta_of() }]
            } else {
                Seq::empty()
            };
            let sub = match c.node {
                FsNode::Dir { .. } => walk_spec(
                    cpath,
                    c.node,
                    (depth - 1) as nat,
                    pattern,
                    all,
                    useignore,
                    false,
                ),
                FsNode::File { .. } => wo_empty(),
            };
            WalkOut {
                entries: matched + sub.entries,
                files: cnt.files + sub.files,
                folders: cnt.folders + sub.folders,
            }
        }
    }
}

/// Walking more children emits at least the counts of walking fewer.
pub proof fn lemma_children_counts_mono(
    path: Seq<char>,
    es: Seq<FsEntry>,
    i: int,
    j: int,
    depth: nat,
    pattern: Seq<char>,
    all: bool,
    useignore: bool,
    infile: bool,
)
    requires
        i <= j <= es.len(),
    ensures
        walk_children(path, es, i, depth, pattern, all, useignore, infile).files <= walk_children(
            path,
            es,
            j,
            depth,
            pattern,
            all,
            useignore,
            infile,
        ).files,
        walk_children(path, es, i, depth, pattern, all, useignore, infile).folders
            <= walk_children(path, es, j, depth, pattern, all, useignore, infile).folders,
    decreases j - i,
{
    if i < j {
        lemma_children_counts_mono(path, es, i, j - 1, depth, pattern, all, useignore, infile);
    }
}

impl Tree {
    /// A tree rooted at `path`.
    pub fn new(path: &String) -> (t: Tree)
        ensures
            t.path@ == path@,
    {
        Tree { path: path.clone() }
    }

    /// The path this tree was rooted at.
    pub fn path(&self) -> (p: String)
        ensures
            p@ == self.path@,
    {
        self.path.clone()
    }

    /// Relies on `content_inspector::inspect` and `ContentType::is_binary`:
    /// the sample classifies as binary exactly when it has no BOM prefix and
    /// either a zero byte occurs among its first 1024 bytes or it starts
    /// with a `%PDF` or PNG magic number.
    #[verifier::external_body]
    pub fn is_file_binary(sample: &Vec<u8>) -> (r: bool)
        ensures
            r == is_binary_spec(sample@),
    {
        content_inspector::inspect(sample.as_slice()).is_binary()
    }

    /// Parses a directory's ignore rules from its enumerated children: the
    /// first child named `.ignore` or `.gitignore` provides the rules, one
    /// per line, trimmed of leading and trailing path separators, empty
    /// results dropped. With no such child, or one whose content is not
    /// readable text, the rule set is empty.
    pub fn read_ignorefile(entries: &Vec<FsEntry>) -> (rules: Vec<String>)
        ensures
            rules@.len() == ignore_rules_of(entries@).len(),
            forall|k: int|
                0 <= k < rules@.len() ==> rules@[k]@ == ignore_rules_of(entries@)[k],
    {
        let mut idx: usize = 0;
        let n: usize = entries.len();
        let found: Option<usize>;
        loop
            invariant
                idx <= n,
                n == entries@.len(),
                ignore_idx_from(entries@, 0) == ignore_idx_from(entries@, idx as int),
            ensures
                found matches Some(i) ==> ignore_idx_from(entries@, 0) == Some(i as int) && i < n,
                found is None ==> ignore_idx_from(entries@, 0) is None,
            decreases n - idx,
        {
            if idx == n {
                found = None;
                break;
            }
            if is_ignore_name_exec(&entries[idx].name) {
                found = Some(idx);
                break;
            }
            idx = idx + 1;
        }
        match found {
            None => Vec::new(),
            Some(i) => {
                match &entries[i].node {
                    FsNode::Dir { .. } => Vec::new(),
                    FsNode::File { text, .. } => {
                        match text {
                            None => Vec::new(),
                            Some(t) => parse_rules(t),
                        }
                    },
                }
            },
        }
    }
}

/// Unfolds `line_scan` by its leftmost occurrence.
proof fn lemma_line_scan_first(
    path: Seq<char>,
    lineno: int,
    line: Seq<char>,
    pattern: Seq<char>,
    from: int,
    meta: Option<EntryMeta>,
)
    requires
        pattern.len() >= 1,
        from >= 0,
    ensures
        match first_occ_from(line, pattern, from) {
            None => line_scan(path, lineno, line, pattern, from, meta) == Seq::<EntryV>::empty(),
            Some(i) => line_scan(path, lineno, line, pattern, from, meta) == seq![
                (EntryV { path, loc: Some((lineno as usize, i as usize)), meta }),
            ] + line_scan(path, lineno, line, pattern, i + pattern.len(), meta),
        },
    decreases line.len() - from + 1,
{
    if from + pattern.len() > line.len() {
    } else if match_at(line, pattern, from) {
    } else {
        lemma_line_scan_first(path, lineno, line, pattern, from + 1, meta);
    }
}

impl Tree {
    /// Scans a file's text for the pattern and pushes one match entry per
    /// occurrence, locating each at its 1-indexed line and 0-indexed
    /// character column. A cheap whole-text containment check short-circuits
    /// the per-line scan; a short-circuited text is exactly one with no
    /// matches (see `lemma_text_matches_need_contains`).
    pub fn get_infile_results(
        path: &String,
        text: &String,
        meta: Option<EntryMeta>,
        args: &Arguments,
        results: &mut Results,
    )
        requires
            args.pattern@.len() >= 1,
            old(results).wf(),
        ensures
            final(results).wf(),
            final(results).entries_v() == old(results).entries_v() + text_matches(
                path@,
                text@,
                args.pattern@,
                meta,
            ),
            final(results).filecount == old(results).filecount,
            final(results).foldercount == old(results).foldercount,
            final(results).rendered_v() == old(results).rendered_v()
                + crate::results::render_delta(
                old(results).entries@.len() as int,
                text_matches(path@, text@, args.pattern@, meta),
                args.pathonly,
                args.pattern@,
            ),
    {
        let tchars = chars_of(str_view(text));
        let pat = chars_of(str_view(&args.pattern));
        if !contains_exec(&tchars, &pat) {
            proof {
                lemma_text_matches_need_contains(path@, text@, args.pattern@, meta);
                assert(results.entries_v() =~= results.entries_v() + Seq::<EntryV>::empty());
                crate::results::lemma_render_delta_empty(
                    old(results).entries@.len() as int,
                    args.pathonly,
                    args.pattern@,
                );
                assert(results.rendered_v() =~= old(results).rendered_v()
                    + crate::results::render_delta(
                    old(results).entries@.len() as int,
                    text_matches(path@, text@, args.pattern@, meta),
                    args.pathonly,
                    args.pattern@,
                ));
            }
            return;
        }
        let lines = split_lines(&tchars);
        let ghost spec_lines = lines_of(text@);
        let nl: usize = lines.len();
        let mut j: usize = 0;
        while j < nl
            invariant
                j <= nl,
                nl == lines@.len(),
                lines.deep_view() == spec_lines,
                spec_lines == lines_of(text@),
                pat@ == args.pattern@,
                pat@.len() >= 1,
                results.wf(),
                results.entries_v() == old(results).entries_v() + lines_matches(
                    path@,
                    spec_lines,
                    j as int,
                    args.pattern@,
                    meta,
                ),
                results.filecount == old(results).filecount,
                results.foldercount == old(results).foldercount,
                results.entries@.len() >= old(results).entries@.len(),
                results.rendered_v() == old(results).rendered_v()
                    + crate::results::render_delta(
                    old(results).entries@.len() as int,
                    results.entries_v().skip(old(results).entries@.len() as int),
                    args.pathonly,
                    args.pattern@,
                ),
            decreases nl - j,
        {
            let line = &lines[j];
            proof {
                assert(spec_lines[j as int] == lines@[j as int].deep_view());
                assert(lines@[j as int].deep_view() =~= lines@[j as int]@);
            }
            let llen: usize = line.len();
            let ghost base = results.entries_v();
            let mut cur: usize = 0;
            loop
                invariant
                    pat@ == args.pattern@,
                    pat@.len() >= 1,
                    line@ == spec_lines[j as int],
                    llen == line@.len(),
                    j < nl,
                    nl == lines@.len(),
                    results.wf(),
                    base + line_scan(path@, j + 1, line@, args.pattern@, 0, meta)
                        == results.entries_v() + line_scan(
                        path@,
                        j + 1,
                        line@,
                        args.pattern@,
                        cur as int,
                        meta,
                    ),
                    results.filecount == old(results).filecount,
                    results.foldercount == old(results).foldercount,
                    results.entries@.len() >= old(results).entries@.len(),
                    results.rendered_v() == old(results).rendered_v()
                        + crate::results::render_delta(
                        old(results).entries@.len() as int,
                        results.entries_v().skip(old(results).entries@.len() as int),
                        args.pathonly,
                        args.pattern@,
                    ),
                ensures
                    results.entries_v() == base + line_scan(
                        path@,
                        j + 1,
                        line@,
                        args.pattern@,
                        0,
                        meta,
                    ),
                    results.wf(),
                    results.filecount == old(results).filecount,
                    results.foldercount == old(results).foldercount,
                    results.entries@.len() >= old(results).entries@.len(),
                    results.rendered_v() == old(results).rendered_v()
                        + crate::results::render_delta(
                        old(results).entries@.len() as int,
                        results.entries_v().skip(old(results).entries@.len() as int),
                        args.pathonly,
                        args.pattern@,
                    ),
                decreases line@.len() + pat@.len() - cur,
            {
                match find_from(line, &pat, cur) {
                    None => {
                        proof {
                            lemma_line_scan_first(
                                path@,
                                j + 1,
                                line@,
                                args.pattern@,
                                cur as int,
                                meta,
                            );
                            assert(base + line_scan(path@, j + 1, line@, args.pattern@, 0, meta)
                                =~= results.entries_v());
                        }
                        break;
                    },
                    Some(i) => {
                        proof {
                            lemma_line_scan_first(
                                path@,
                                j + 1,
                                line@,
                                args.pattern@,
                                cur as int,
                                meta,
                            );
                        }
                        let e = Entry::with_location(path, j + 1, i, meta);
                        let ghost before = results.entries_v();
                        let ghost pre_rendered = results.rendered_v();
                        results.push(e, args);
                        proof {
                            let base0 = old(results).entries@.len() as int;
                            let s_pre = before.skip(base0);
                            assert(results.entries_v() =~= before + seq![e@]);
                            assert(results.entries_v().skip(base0) =~= s_pre + seq![e@]);
                            crate::results::lemma_render_delta_concat(
                                base0,
                                s_pre,
                                seq![e@],
                                args.pathonly,
                                args.pattern@,
                            );
                            assert(base0 + s_pre.len() == before.len());
                            crate::results::lemma_render_delta_one(
                                before.len() as int,
                                e@,
                                args.pathonly,
                                args.pattern@,
                            );
                            assert(results.rendered_v() =~= old(results).rendered_v()
                                + crate::results::render_delta(
                                base0,
                                results.entries_v().skip(base0),
                                args.pathonly,
                                args.pattern@,
                            ));
                            assert(before + (seq![e@] + line_scan(
                                path@,
                                j + 1,
                                line@,
                                args.pattern@,
                                i + pat@.len(),
                                meta,
                            )) =~= (before + seq![e@]) + line_scan(
                                path@,
                                j + 1,
                                line@,
                                args.pattern@,
                                i + pat@.len(),
                                meta,
                            ));
                        }
                        cur = i + pat.len();
                    },
                }
            }
            proof {
                assert(lines_matches(path@, spec_lines, j + 1, args.pattern@, meta)
                    == lines_matches(path@, spec_lines, j as int, args.pattern@, meta) + line_scan(
                    path@,
                    j + 1,
                    spec_lines[j as int],
                    args.pattern@,
                    0,
                    meta,
                ));
                assert(old(results).entries_v() + lines_matches(
                    path@,
                    spec_lines,
                    j + 1,
                    args.pattern@,
                    meta,
                ) =~= base + line_scan(path@, j + 1, line@, args.pattern@, 0, meta));
            }
            j = j + 1;
        }
        proof {
            assert(results.entries_v().skip(old(results).entries@.len() as int) =~= text_matches(
                path@,
                text@,
                args.pattern@,
                meta,
            ));
        }
    }
}

impl Tree {
    /// The name-search walk: visits `node` (reached at `path`) and, with
    /// positive depth, its directory subtree to `depth` levels, filtering
    /// children by the hidden-entry and ignore-rule policies, classifying
    /// each kept child into the sink's counters, and pushing a match entry
    /// for each kept child whose name contains the pattern.
    #[verifier::rlimit(80)]
    pub fn quick_fill(
        &self,
        depth: u8,
        path: String,
        node: &FsNode,
        args: &Arguments,
        results: &mut Results,
    )
        requires
            args.pattern@.len() >= 1,
            old(results).wf(),
            old(results).filecount + walk_spec(
                path@,
                *node,
                depth as nat,
                args.pattern@,
                args.all,
                args.useignore,
                false,
            ).files <= usize::MAX,
            old(results).foldercount + walk_spec(
                path@,
                *node,
                depth as nat,
                args.pattern@,
                args.all,
                args.useignore,
                false,
            ).folders <= usize::MAX,
        ensures
            final(results).wf(),
            final(results).entries_v() == old(results).entries_v() + walk_spec(
                path@,
                *node,
                depth as nat,
                args.pattern@,
                args.all,
                args.useignore,
                false,
            ).entries,
            final(results).filecount == old(results).filecount + walk_spec(
                path@,
                *node,
                depth as nat,
                args.pattern@,
                args.all,
                args.useignore,
                false,
            ).files,
            final(results).foldercount == old(results).foldercount + walk_spec(
                path@,
                *node,
                depth as nat,
                args.pattern@,
                args.all,
                args.useignore,
                false,
            ).folders,
            final(results).rendered_v() == old(results).rendered_v()
                + crate::results::render_delta(
                old(results).entries@.len() as int,
                walk_spec(
                    path@,
                    *node,
                    depth as nat,
                    args.pattern@,
                    args.all,
                    args.useignore,
                    false,
                ).entries,
                args.pathonly,
                args.pattern@,
            ),
        decreases depth,
    {
        if depth == 0 {
            proof {
                assert(results.entries_v() =~= results.entries_v() + Seq::<EntryV>::empty());
                crate::results::lemma_render_delta_empty(
                    old(results).entries@.len() as int,
                    args.pathonly,
                    args.pattern@,
                );
            }
            return;
        }
        match node {
            FsNode::File { .. } => {
                proof {
                    assert(results.entries_v() =~= results.entries_v() + Seq::<EntryV>::empty());
                    crate::results::lemma_render_delta_empty(
                        old(results).entries@.len() as int,
                        args.pathonly,
                        args.pattern@,
                    );
                }
            },
            FsNode::Dir { entries, .. } => {
                let ghost pattern = args.pattern@;
                let ghost all = args.all;
                let ghost useignore = args.useignore;
                let ghost rs = ignore_rules_of(entries@);
                let rules = Tree::read_ignorefile(entries);
                let pat = chars_of(str_view(&args.pattern));
                let n: usize = entries.len();
                let mut i: usize = 0;
                while i < n
                    invariant
                        i <= n,
                        n == entries@.len(),
                        depth >= 1,
                        pat@ == args.pattern@,
                        pat@.len() >= 1,
                        pattern == args.pattern@,
                        all == args.all,
                        useignore == args.useignore,
                        rs == ignore_rules_of(entries@),
                        rules@.len() == rs.len(),
                        forall|k: int| 0 <= k < rules@.len() ==> rules@[k]@ == rs[k],
                        results.wf(),
                        results.entries_v() == old(results).entries_v() + walk_children(
                            path@,
                            entries@,
                            i as int,
                            depth as nat,
                            pattern,
                            all,
                            useignore,
                            false,
                        ).entries,
                        results.filecount == old(results).filecount + walk_children(
                            path@,
                            entries@,
                            i as int,
                            depth as nat,
                            pattern,
                            all,
                            useignore,
                            false,
                        ).files,
                        results.foldercount == old(results).foldercount + walk_children(
                            path@,
                            entries@,
                            i as int,
                            depth as nat,
                            pattern,
                            all,
                            useignore,
                            false,
                        ).folders,
                        old(results).filecount + walk_children(
                            path@,
                            entries@,
                            n as int,
                            depth as nat,
                            pattern,
                            all,
                            useignore,
                            false,
                        ).files <= usize::MAX,
                        old(results).foldercount + walk_children(
                            path@,
                            entries@,
                            n as int,
                            depth as nat,
                            pattern,
                            all,
                            useignore,
                            false,
                        ).folders <= usize::MAX,
                        results.entries@.len() >= old(results).entries@.len(),
                        results.rendered_v() == old(results).rendered_v()
                            + crate::results::render_delta(
                            old(results).entries@.len() as int,
                            results.entries_v().skip(old(results).entries@.len() as int),
                            args.pathonly,
                            args.pattern@,
                        ),
                    decreases n - i,
                {
                    let child = &entries[i];
                    let ghost c = entries@[i as int];
                    let ghost ch = walk_child(
                        path@,
                        entries@,
                        c,
                        depth as nat,
                        pattern,
                        all,
                        useignore,
                        false,
                    );
                    proof {
                        assert(walk_children(
                            path@,
                            entries@,
                            i + 1,
                            depth as nat,
                            pattern,
                            all,
                            useignore,
                            false,
                        ) == wo_add(
                            walk_children(
                                path@,
                                entries@,
                                i as int,
                                depth as nat,
                                pattern,
                                all,
                                useignore,
                                false,
                            ),
                            ch,
                        ));
                        lemma_children_counts_mono(
                            path@,
                            entries@,
                            i + 1,
                            n as int,
                            depth as nat,
                            pattern,
                            all,
                            useignore,
                            false,
                        );
                    }
                    let name_chars = chars_of(str_view(&child.name));
                    let hidden = name_chars.len() > 0 && name_chars[0] == '.';
                    let skipped = (!args.all && hidden) || (args.useignore && in_rules(
                        &rules,
                        &child.name,
                        Ghost(rs),
                    ));
                    proof {
                        assert(skipped == skip_child(c.name@, entries@, all, useignore));
                    }
                    if !skipped {
                        match node_meta(&child.node) {
                            Some(m) => {
                                if m.is_dir {
                                    results.add_foldercount();
                                } else {
                                    results.add_filecount();
                                }
                            },
                            None => {},
                        }
                        let cpath = join_path(&path, &child.name);
                        let ghost before = results.entries_v();
                        if contains_exec(&name_chars, &pat) {
                            let e = Entry::new(&cpath, node_meta(&child.node));
                            let ghost pre_rendered = results.rendered_v();
                            results.push(e, args);
                            proof {
                                let base0 = old(results).entries@.len() as int;
                                assert(results.entries_v() =~= before + seq![e@]);
                                crate::results::lemma_render_delta_one(
                                    before.len() as int,
                                    e@,
                                    args.pathonly,
                                    args.pattern@,
                                );
                                assert(results.rendered_v() == pre_rendered
                                    + crate::results::render_delta(
                                    before.len() as int,
                                    seq![e@],
                                    args.pathonly,
                                    args.pattern@,
                                )) by {
                                    if before.len() < crate::results::OVERFLOW_THRESHOLD as int {
                                        assert(results.rendered_v() =~= pre_rendered + seq![
                                            crate::results::render_line_spec(
                                                e@,
                                                args.pathonly,
                                                args.pattern@,
                                            ),
                                        ]);
                                    } else {
                                        assert(results.rendered_v() =~= pre_rendered + Seq::<
                                            Seq<char>,
                                        >::empty());
                                    }
                                }
                                crate::results::lemma_render_delta_step(
                                    base0,
                                    before,
                                    results.entries_v(),
                                    seq![e@],
                                    old(results).rendered_v(),
                                    pre_rendered,
                                    results.rendered_v(),
                                    args.pathonly,
                                    args.pattern@,
                                );
                            }
                        } else {
                            proof {
                                assert(results.entries_v() =~= before + Seq::<EntryV>::empty());
                            }
                        }
                        let ghost mid = *results;
                        match &child.node {
                            FsNode::Dir { .. } => {
                                self.quick_fill(depth - 1, cpath, &child.node, args, results);
                            },
                            FsNode::File { .. } => {},
                        }
                        proof {
                            let ghost cp = path@ + seq!['/'] + c.name@;
                            let ghost matched: Seq<EntryV> = if contains_seq(c.name@, pattern) {
                                seq![(EntryV { path: cp, loc: None, meta: c.node.meta_of() })]
                            } else {
                                Seq::empty()
                            };
                            let ghost sub = match c.node {
                                FsNode::Dir { .. } => walk_spec(
                                    cp,
                                    c.node,
                                    (depth - 1) as nat,
                                    pattern,
                                    all,
                                    useignore,
                                    false,
                                ),
                                FsNode::File { .. } => wo_empty(),
                            };
                            assert(ch.entries == matched + sub.entries);
                            assert(results.entries_v() =~= old(results).entries_v()
                                + walk_children(
                                path@,
                                entries@,
                                i + 1,
                                depth as nat,
                                pattern,
                                all,
                                useignore,
                                false,
                            ).entries);
                            let base0 = old(results).entries@.len() as int;
                            crate::results::lemma_render_delta_empty(
                                mid.entries@.len() as int,
                                args.pathonly,
                                args.pattern@,
                            );
                            assert(results.entries_v() == mid.entries_v() + sub.entries);
                            crate::results::lemma_render_delta_step(
                                base0,
                                mid.entries_v(),
                                results.entries_v(),
                                sub.entries,
                                old(results).rendered_v(),
                                mid.rendered_v(),
                                results.rendered_v(),
                                args.pathonly,
                                args.pattern@,
                            );
                        }
                    } else {
                        proof {
                            assert(ch == wo_empty());
                            assert(results.entries_v() =~= old(results).entries_v()
                                + walk_children(
                                path@,
                                entries@,
                                i + 1,
                                depth as nat,
                                pattern,
                                all,
                                useignore,
                                false,
                            ).entries);
                        }
                    }
                    i = i + 1;
                }
                proof {
                    assert(results.entries_v().skip(old(results).entries@.len() as int)
                        =~= walk_spec(
                        path@,
                        *node,
                        depth as nat,
                        args.pattern@,
                        args.all,
                        args.useignore,
                        false,
                    ).entries);
                }
            },
        }
    }
}

impl Tree {
    /// The content-search walk: visits `node` (reached at `path`) and, with
    /// positive depth, its directory subtree to `depth` levels, filtering and
    /// classifying children as in the name-search walk; each kept file child
    /// (and a file root) is classified as binary or text and its text is
    /// scanned for the pattern, one match entry per occurrence. A file child
    /// of a visited directory is always inspected: depth bounds directory
    /// descent, not file inspection at the current level.
    #[verifier::rlimit(80)]
    pub fn search_infile(
        &self,
        depth: u8,
        path: String,
        node: &FsNode,
        args: &Arguments,
        results: &mut Results,
    )
        requires
            args.pattern@.len() >= 1,
            old(results).wf(),
            old(results).filecount + walk_spec(
                path@,
                *node,
                depth as nat,
                args.pattern@,
                args.all,
                args.useignore,
                true,
            ).files <= usize::MAX,
            old(results).foldercount + walk_spec(
                path@,
                *node,
                depth as nat,
                args.pattern@,
                args.all,
                args.useignore,
                true,
            ).folders <= usize::MAX,
        ensures
            final(results).wf(),
            final(results).entries_v() == old(results).entries_v() + walk_spec(
                path@,
                *node,
                depth as nat,
                args.pattern@,
                args.all,
                args.useignore,
                true,
            ).entries,
            final(results).filecount == old(results).filecount + walk_spec(
                path@,
                *node,
                depth as nat,
                args.pattern@,
                args.all,
                args.useignore,
                true,
            ).files,
            final(results).foldercount == old(results).foldercount + walk_spec(
                path@,
                *node,
                depth as nat,
                args.pattern@,
                args.all,
                args.useignore,
                true,
            ).folders,
            final(results).rendered_v() == old(results).rendered_v()
                + crate::results::render_delta(
                old(results).entries@.len() as int,
                walk_spec(
                    path@,
                    *node,
                    depth as nat,
                    args.pattern@,
                    args.all,
                    args.useignore,
                    true,
                ).entries,
                args.pathonly,
                args.pattern@,
            ),
        decreases depth,
    {
        if depth == 0 {
            proof {
                assert(results.entries_v() =~= results.entries_v() + Seq::<EntryV>::empty());
                crate::results::lemma_render_delta_empty(
                    old(results).entries@.len() as int,
                    args.pathonly,
                    args.pattern@,
                );
            }
            return;
        }
        match node {
            FsNode::File { meta, sample, text } => {
                scan_file(&path, *meta, sample, text, args, results);
            },
            FsNode::Dir { entries, .. } => {
                let ghost pattern = args.pattern@;
                let ghost all = args.all;
                let ghost useignore = args.useignore;
                let ghost rs = ignore_rules_of(entries@);
                let rules = Tree::read_ignorefile(entries);
                let n: usize = entries.len();
                let mut i: usize = 0;
                while i < n
                    invariant
                        i <= n,
                        n == entries@.len(),
                        depth >= 1,
                        args.pattern@.len() >= 1,
                        pattern == args.pattern@,
                        all == args.all,
                        useignore == args.useignore,
                        rs == ignore_rules_of(entries@),
                        rules@.len() == rs.len(),
                        forall|k: int| 0 <= k < rules@.len() ==> rules@[k]@ == rs[k],
                        results.wf(),
                        results.entries_v() == old(results).entries_v() + walk_children(
                            path@,
                            entries@,
                            i as int,
                            depth as nat,
                            pattern,
                            all,
                            useignore,
                            true,
                        ).entries,
                        results.filecount == old(results).filecount + walk_children(
                            path@,
                            entries@,
                            i as int,
                            depth as nat,
                            pattern,
                            all,
                            useignore,
                            true,
                        ).files,
                        results.foldercount == old(results).foldercount + walk_children(
                            path@,
                            entries@,
                            i as int,
                            depth as nat,
                            pattern,
                            all,
                            useignore,
                            true,
                        ).folders,
                        old(results).filecount + walk_children(
                            path@,
                            entries@,
                            n as int,
                            depth as nat,
                            pattern,
                            all,
                            useignore,
                            true,
                        ).files <= usize::MAX,
                        old(results).foldercount + walk_children(
                            path@,
                            entries@,
                            n as int,
                            depth as nat,
                            pattern,
                            all,
                            useignore,
                            true,
                        ).folders <= usize::MAX,
                        results.entries@.len() >= old(results).entries@.len(),
                        results.rendered_v() == old(results).rendered_v()
                            + crate::results::render_delta(
                            old(results).entries@.len() as int,
                            results.entries_v().skip(old(results).entries@.len() as int),
                            args.pathonly,
                            args.pattern@,
                        ),
                    decreases n - i,
                {
                    let child = &entries[i];
                    let ghost c = entries@[i as int];
                    let ghost ch = walk_child(
                        path@,
                        entries@,
                        c,
                        depth as nat,
                        pattern,
                        all,
                        useignore,
                        true,
                    );
                    proof {
                        assert(walk_children(
                            path@,
                            entries@,
                            i + 1,
                            depth as nat,
                            pattern,
                            all,
                            useignore,
                            true,
                        ) == wo_add(
                            walk_children(
                                path@,
                                entries@,
                                i as int,
                                depth as nat,
                                pattern,
                                all,
                                useignore,
                                true,
                            ),
                            ch,
                        ));
                        lemma_children_counts_mono(
                            path@,
                            entries@,
                            i + 1,
                            n as int,
                            depth as nat,
                            pattern,
                            all,
                            useignore,
                            true,
                        );
                    }
                    let name_chars = chars_of(str_view(&child.name));
                    let hidden = name_chars.len() > 0 && name_chars[0] == '.';
                    let skipped = (!args.all && hidden) || (args.useignore && in_rules(
                        &rules,
                        &child.name,
                        Ghost(rs),
                    ));
                    proof {
                        assert(skipped == skip_child(c.name@, entries@, all, useignore));
                    }
                    if !skipped {
                        match node_meta(&child.node) {
                            Some(m) => {
                                if m.is_dir {
                                    results.add_foldercount();
                                } else {
                                    results.add_filecount();
                                }
                            },
                            None => {},
                        }
                        let cpath = join_path(&path, &child.name);
                        let ghost mid = *results;
                        match &child.node {
                            FsNode::File { meta, sample, text } => {
                                scan_file(&cpath, *meta, sample, text, args, results);
                            },
                            FsNode::Dir { .. } => {
                                self.search_infile(depth - 1, cpath, &child.node, args, results);
                            },
                        }
                        proof {
                            let ghost cp = path@ + seq!['/'] + c.name@;
                            let ghost sub = match c.node {
                                FsNode::File { meta, sample, text } => WalkOut {
                                    entries: file_matches(cp, sample@, text, pattern, meta),
                                    files: 0,
                                    folders: 0,
                                },
                                FsNode::Dir { .. } => walk_spec(
                                    cp,
                                    c.node,
                                    (depth - 1) as nat,
                                    pattern,
                                    all,
                                    useignore,
                                    true,
                                ),
                            };
                            assert(ch.entries =~= sub.entries);
                            assert(results.entries_v() =~= old(results).entries_v()
                                + walk_children(
                                path@,
                                entries@,
                                i + 1,
                                depth as nat,
                                pattern,
                                all,
                                useignore,
                                true,
                            ).entries);
                            let base0 = old(results).entries@.len() as int;
                            assert(results.entries_v() == mid.entries_v() + sub.entries) by {
                                assert(results.entries_v() =~= mid.entries_v() + sub.entries);
                            }
                            crate::results::lemma_render_delta_step(
                                base0,
                                mid.entries_v(),
                                results.entries_v(),
                                sub.entries,
                                old(results).rendered_v(),
                                mid.rendered_v(),
                                results.rendered_v(),
                                args.pathonly,
                                args.pattern@,
                            );
                        }
                    } else {
                        proof {
                            assert(ch == wo_empty());
                            assert(results.entries_v() =~= old(results).entries_v()
                                + walk_children(
                                path@,
                                entries@,
                                i + 1,
                                depth as nat,
                                pattern,
                                all,
                                useignore,
                                true,
                            ).entries);
                        }
                    }
                    i = i + 1;
                }
                proof {
                    assert(results.entries_v().skip(old(results).entries@.len() as int)
                        =~= walk_spec(
                        path@,
                        *node,
                        depth as nat,
                        args.pattern@,
                        args.all,
                        args.useignore,
                        true,
                    ).entries);
                }
            },
        }
    }
}

/// Classifies one file and, when it is textual, scans it for the pattern.
fn scan_file(
    path: &String,
    meta: Option<EntryMeta>,
    sample: &Vec<u8>,
    text: &Option<String>,
    args: &Arguments,
    results: &mut Results,
)
    requires
        args.pattern@.len() >= 1,
        old(results).wf(),
    ensures
        final(results).wf(),
        final(results).entries_v() == old(results).entries_v() + file_matches(
            path@,
            sample@,
            *text,
            args.pattern@,
            meta,
        ),
        final(results).filecount == old(results).filecount,
        final(results).foldercount == old(results).foldercount,
        final(results).rendered_v() == old(results).rendered_v()
            + crate::results::render_delta(
            old(results).entries@.len() as int,
            file_matches(path@, sample@, *text, args.pattern@, meta),
            args.pathonly,
            args.pattern@,
        ),
{
    if Tree::is_file_binary(sample) {
        proof {
            assert(results.entries_v() =~= results.entries_v() + Seq::<EntryV>::empty());
            crate::results::lemma_render_delta_empty(
                old(results).entries@.len() as int,
                args.pathonly,
                args.pattern@,
            );
        }
        return;
    }
    match text {
        None => {
            proof {
                assert(results.entries_v() =~= results.entries_v() + Seq::<EntryV>::empty());
                crate::results::lemma_render_delta_empty(
                    old(results).entries@.len() as int,
                    args.pathonly,
                    args.pattern@,
                );
            }
        },
        Some(t) => {
            Tree::get_infile_results(path, t, meta, args, results);
            proof {
                assert(file_matches(path@, sample@, *text, args.pattern@, meta) == text_matches(
                    path@,
                    t@,
                    args.pattern@,
                    meta,
                ));
            }
        },
    }
}

/// The metadata of a snapshot node.
fn node_meta(n: &FsNode) -> (m: Option<EntryMeta>)
    ensures
        m == n.meta_of(),
{
    match n {
        FsNode::Dir { meta, .. } => *meta,
        FsNode::File { meta, .. } => *meta,
    }
}

/// `s` as a borrowed `&str`.
fn str_view(s: &String) -> (r: &str)
    ensures
        r@ == s@,
{
    s.as_str()
}

/// Joins a parent path and a child name with `/`.
fn join_path(parent: &String, name: &String) -> (r: String)
    ensures
        r@ == parent@ + seq!['/'] + name@,
{
    let mut v = chars_of(str_view(parent));
    v.push('/');
    push_all(&mut v, &chars_of(str_view(name)));
    proof {
        assert(v@ =~= parent@ + seq!['/'] + name@);
    }
    string_of(&v)
}

/// Whether `name` occurs among the parsed rules, whose values are `rs`.
fn in_rules(rules: &Vec<String>, name: &String, Ghost(rs): Ghost<Seq<Seq<char>>>) -> (r: bool)
    requires
        rules@.len() == rs.len(),
        forall|k: int| 0 <= k < rules@.len() ==> rules@[k]@ == rs[k],
    ensures
        r == rs.contains(name@),
{
    let mut k: usize = 0;
    while k < rules.len()
        invariant
            k <= rules@.len(),
            rules@.len() == rs.len(),
            forall|j: int| 0 <= j < rules@.len() ==> rules@[j]@ == rs[j],
            forall|j: int| 0 <= j < k ==> rs[j] != name@,
        decreases rules@.len() - k,
    {
        if rules[k].eq(name) {
            proof {
                assert(rs[k as int] == name@);
            }
            return true;
        }
        k = k + 1;
    }
    proof {
        assert(forall|j: int| 0 <= j < rs.len() ==> rs[j] != name@);
    }
    false
}

/// True when `name` is `.ignore` or `.gitignore`.
fn is_ignore_name_exec(name: &String) -> (r: bool)
    ensures
        r == is_ignore_name(name@),
{
    let a = String::from_str(".ignore");
    let b = String::from_str(".gitignore");
    *name == a || *name == b
}

/// Parses ignore rules from an ignore file's text.
fn parse_rules(t: &String) -> (rules: Vec<String>)
    ensures
        rules@.len() == rules_of_text(t@).len(),
        forall|k: int| 0 <= k < rules@.len() ==> rules@[k]@ == rules_of_text(t@)[k],
{
    let chars = chars_of(t.as_str());
    let lines = split_lines(&chars);
    let mut rules: Vec<String> = Vec::new();
    let ghost spec_lines = lines_of(t@);
    let mut j: usize = 0;
    while j < lines.len()
        invariant
            j <= lines@.len(),
            lines.deep_view() == spec_lines,
            spec_lines == lines_of(t@),
            rules@.len() == rules_upto(spec_lines, j as int).len(),
            forall|k: int|
                0 <= k < rules@.len() ==> rules@[k]@ == rules_upto(spec_lines, j as int)[k],
        decreases lines@.len() - j,
    {
        let trimmed = trim_seps_exec(&lines[j]);
        proof {
            assert(spec_lines[j as int] == lines@[j as int].deep_view());
            assert(lines@[j as int].deep_view() =~= lines@[j as int]@);
        }
        if trimmed.len() > 0 {
            rules.push(string_of(&trimmed));
        }
        j = j + 1;
    }
    rules
}

} // verus!
