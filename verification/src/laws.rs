//! The laws the library proves of itself: depth bounding, the overflow
//! policy, binary exclusion, the locator round trip, and the hidden-entry
//! and ignore-rule filters.

use crate::results::{
    render_line_spec, EntryV, Results, OVERFLOW_THRESHOLD,
};
use crate::snapshot::{EntryMeta, FsEntry, FsNode};
use crate::text::{
    dec_str, dec_val, is_digit, lemma_dec_round_trip, lemma_split_seg, lemma_split_tail, split_by,
};
use crate::tree::{
    file_matches, has_bom, has_null_in_scan, ignore_rules_of, line_scan, lines_matches, node_size,
    skip_child, walk_child, walk_children, walk_spec, wo_empty, WalkOut,
};
use vstd::prelude::*;

verus! {

/// Law: a walk bounded to depth zero visits no entries and emits no matches,
/// whatever the pattern and mode.
pub proof fn lemma_depth_zero(
    path: Seq<char>,
    node: FsNode,
    pattern: Seq<char>,
    all: bool,
    useignore: bool,
    infile: bool,
)
    ensures
        walk_spec(path, node, 0, pattern, all, useignore, infile) == wo_empty(),
{
}

/// Law: once at least the overflow threshold of results has been pushed into
/// a well-formed sink, exactly the first `OVERFLOW_THRESHOLD` of them have
/// been rendered immediately; the remainder are retained, unrendered.
pub proof fn lemma_overflow_policy(r: Results)
    requires
        r.wf(),
        r.entries@.len() >= OVERFLOW_THRESHOLD,
    ensures
        r.rendered@.len() == OVERFLOW_THRESHOLD,
{
}

/// Law: a file whose byte sample holds a zero byte among its first 1024
/// bytes (and does not start with a byte-order mark, which would classify it
/// as encoded text) is never returned as a content-search match, whatever
/// its text would contain.
pub proof fn lemma_binary_never_matches(
    path: Seq<char>,
    sample: Seq<u8>,
    text: Option<String>,
    pattern: Seq<char>,
    meta: Option<EntryMeta>,
)
    requires
        has_null_in_scan(sample),
        !has_bom(sample),
    ensures
        file_matches(path, sample, text, pattern, meta) == Seq::<EntryV>::empty(),
{
}

/// The binary-exclusion law lifted to the walk of a file node: a
/// content-search walk that reaches a file whose sample holds an early zero
/// byte (and no byte-order mark) emits nothing for it.
pub proof fn lemma_binary_file_walk(
    path: Seq<char>,
    meta: Option<EntryMeta>,
    sample: Vec<u8>,
    text: Option<String>,
    depth: nat,
    pattern: Seq<char>,
    all: bool,
    useignore: bool,
)
    requires
        has_null_in_scan(sample@),
        !has_bom(sample@),
    ensures
        walk_spec(
            path,
            (FsNode::File { meta, sample, text }),
            depth,
            pattern,
            all,
            useignore,
            true,
        ).entries == Seq::<EntryV>::empty(),
{
    lemma_binary_never_matches(path, sample@, text, pattern, meta);
}

/// Law (round trip): rendering a content-search entry in path-only mode and
/// re-parsing the printed form by splitting on `:` recovers the path, the
/// line and the column exactly, provided the path itself contains no `:`.
pub proof fn lemma_locator_round_trip(path: Seq<char>, line: usize, col: usize)
    requires
        !path.contains(':'),
    ensures
        split_by(
            render_line_spec(
                (EntryV { path, loc: Some((line, col)), meta: None }),
                true,
                Seq::<char>::empty(),
            ),
            ':',
        ) == seq![path, dec_str(line as int), dec_str(col as int)],
        dec_val(dec_str(line as int)) == line,
        dec_val(dec_str(col as int)) == col,
{
    lemma_dec_round_trip(line as int);
    lemma_dec_round_trip(col as int);
    let d1 = dec_str(line as int);
    let d2 = dec_str(col as int);
    let s = path + seq![':'] + d1 + seq![':'] + d2;
    assert(render_line_spec(
        (EntryV { path, loc: Some((line, col)), meta: None }),
        true,
        Seq::<char>::empty(),
    ) == s);
    let m1 = path.len() as int;
    let m2 = m1 + 1 + d1.len();
    assert(s.len() == m2 + 1 + d2.len());
    assert(forall|k: int| 0 <= k < m1 ==> s[k] == path[k]);
    assert(forall|k: int| 0 <= k < m1 ==> s[k] != ':') by {
        assert(forall|k: int| 0 <= k < m1 ==> path[k] != ':');
    }
    assert(s[m1] == ':');
    assert(forall|k: int| m1 + 1 <= k < m2 ==> s[k] == d1[k - m1 - 1]);
    assert(forall|k: int| m1 + 1 <= k < m2 ==> s[k] != ':') by {
        assert(forall|j: int| 0 <= j < d1.len() ==> is_digit(d1[j]) && d1[j] != ':');
    }
    assert(s[m2] == ':');
    assert(forall|k: int| m2 + 1 <= k < s.len() ==> s[k] == d2[k - m2 - 1]);
    assert(forall|k: int| m2 + 1 <= k < s.len() ==> s[k] != ':') by {
        assert(forall|j: int| 0 <= j < d2.len() ==> is_digit(d2[j]) && d2[j] != ':');
    }
    lemma_split_seg(s, ':', 0, 0, m1);
    lemma_split_seg(s, ':', m1 + 1, m1 + 1, m2);
    lemma_split_tail(s, ':', m2 + 1, m2 + 1);
    assert(s.subrange(0, m1) =~= path);
    assert(s.subrange(m1 + 1, m2) =~= d1);
    assert(s.subrange(m2 + 1, s.len() as int) =~= d2);
    assert(split_by(s, ':') =~= seq![path, d1, d2]);
}

/// `p` strictly extends `base` below a path separator.
pub open spec fn path_extends(p: Seq<char>, base: Seq<char>) -> bool {
    p.len() > base.len() && p.subrange(0, base.len() as int) == base && p[base.len() as int] == '/'
}

/// Every entry a line scan emits carries the scanned file's path.
proof fn lemma_line_scan_paths(
    path: Seq<char>,
    lineno: int,
    line: Seq<char>,
    pattern: Seq<char>,
    from: int,
    meta: Option<EntryMeta>,
)
    ensures
        forall|t: int|
            0 <= t < line_scan(path, lineno, line, pattern, from, meta).len() ==> line_scan(
                path,
                lineno,
                line,
                pattern,
                from,
                meta,
            )[t].path == path,
    decreases line.len() - from + 1,
{
    if pattern.len() <= 0 || from < 0 || from + pattern.len() > line.len() {
    } else if crate::text::match_at(line, pattern, from) {
        lemma_line_scan_paths(path, lineno, line, pattern, from + pattern.len(), meta);
    } else {
        lemma_line_scan_paths(path, lineno, line, pattern, from + 1, meta);
    }
}

/// Every entry a file's text scan emits carries the file's path.
proof fn lemma_lines_matches_paths(
    path: Seq<char>,
    lines: Seq<Seq<char>>,
    upto: int,
    pattern: Seq<char>,
    meta: Option<EntryMeta>,
)
    ensures
        forall|t: int|
            0 <= t < lines_matches(path, lines, upto, pattern, meta).len() ==> lines_matches(
                path,
                lines,
                upto,
                pattern,
                meta,
            )[t].path == path,
    decreases upto,
{
    if upto <= 0 {
    } else {
        lemma_lines_matches_paths(path, lines, upto - 1, pattern, meta);
        lemma_line_scan_paths(path, upto, lines[upto - 1], pattern, 0, meta);
    }
}

/// Every entry a file contributes in content-search mode carries the file's
/// path.
pub proof fn lemma_file_matches_paths(
    path: Seq<char>,
    sample: Seq<u8>,
    text: Option<String>,
    pattern: Seq<char>,
    meta: Option<EntryMeta>,
)
    ensures
        forall|t: int|
            0 <= t < file_matches(path, sample, text, pattern, meta).len() ==> file_matches(
                path,
                sample,
                text,
                pattern,
                meta,
            )[t].path == path,
{
    match text {
        Some(tx) => {
            lemma_lines_matches_paths(
                path,
                crate::text::lines_of(tx@),
                crate::text::lines_of(tx@).len() as int,
                pattern,
                meta,
            );
        },
        None => {},
    }
}

/// Every entry a walk emits lies at or strictly below the walked path.
pub proof fn lemma_walk_paths(
    path: Seq<char>,
    node: FsNode,
    depth: nat,
    pattern: Seq<char>,
    all: bool,
    useignore: bool,
    infile: bool,
)
    ensures
        forall|t: int|
            0 <= t < walk_spec(path, node, depth, pattern, all, useignore, infile).entries.len()
                ==> (#[trigger] walk_spec(
                path,
                node,
                depth,
                pattern,
                all,
                useignore,
                infile,
            ).entries[t]).path == path || path_extends(
                walk_spec(path, node, depth, pattern, all, useignore, infile).entries[t].path,
                path,
            ),
    decreases depth, node_size(node) + 1,
{
    if depth == 0 {
    } else {
        match node {
            FsNode::File { meta, sample, text } => {
                if infile {
                    lemma_file_matches_paths(path, sample@, text, pattern, meta);
                }
            },
            FsNode::Dir { entries, .. } => {
                lemma_children_paths(
                    path,
                    entries@,
                    entries@.len() as int,
                    depth,
                    pattern,
                    all,
                    useignore,
                    infile,
                );
            },
        }
    }
}

/// Every entry the walk of the first `i` children emits lies strictly below
/// the directory's path.
pub proof fn lemma_children_paths(
    path: Seq<char>,
    es: Seq<FsEntry>,
    i: int,
    depth: nat,
    pattern: Seq<char>,
    all: bool,
    useignore: bool,
    infile: bool,
)
    ensures
        forall|t: int|
            0 <= t < walk_children(path, es, i, depth, pattern, all, useignore, infile).entries.len()
                ==> path_extends(
                (#[trigger] walk_children(
                    path,
                    es,
                    i,
                    depth,
                    pattern,
                    all,
                    useignore,
                    infile,
                ).entries[t]).path,
                path,
            ),
    decreases depth, i,
{
    if i <= 0 || i > es.len() || depth == 0 {
    } else {
        lemma_children_paths(path, es, i - 1, depth, pattern, all, useignore, infile);
        lemma_child_paths(path, es, es[i - 1], depth, pattern, all, useignore, infile);
    }
}

/// Every entry one child contributes lies strictly below the directory's
/// path, and its path either is the child's path or strictly extends it.
pub proof fn lemma_child_paths(
    path: Seq<char>,
    es: Seq<FsEntry>,
    c: FsEntry,
    depth: nat,
    pattern: Seq<char>,
    all: bool,
    useignore: bool,
    infile: bool,
)
    ensures
        forall|t: int|
            0 <= t < walk_child(path, es, c, depth, pattern, all, useignore, infile).entries.len()
                ==> path_extends(
                (#[trigger] walk_child(
                    path,
                    es,
                    c,
                    depth,
                    pattern,
                    all,
                    useignore,
                    infile,
                ).entries[t]).path,
                path,
            ) && (walk_child(path, es, c, depth, pattern, all, useignore, infile).entries[t].path
                == path + seq!['/'] + c.name@ || path_extends(
                walk_child(path, es, c, depth, pattern, all, useignore, infile).entries[t].path,
                path + seq!['/'] + c.name@,
            )),
    decreases depth, 0int,
{
    let cpath = path + seq!['/'] + c.name@;
    if depth == 0 || skip_child(c.name@, es, all, useignore) {
    } else {
        assert(path_extends(cpath, path)) by {
            assert(cpath.subrange(0, path.len() as int) =~= path);
        }
        match c.node {
            FsNode::Dir { .. } => {
                lemma_walk_paths(cpath, c.node, (depth - 1) as nat, pattern, all, useignore, infile);
                assert forall|p: Seq<char>|
                    p == cpath || path_extends(p, cpath) implies path_extends(p, path) by {
                    if path_extends(p, cpath) {
                        assert(p.subrange(0, path.len() as int) =~= cpath.subrange(
                            0,
                            path.len() as int,
                        ));
                        assert(cpath.subrange(0, path.len() as int) =~= path);
                    }
                }
            },
            FsNode::File { meta, sample, text } => {
                if infile {
                    lemma_file_matches_paths(cpath, sample@, text, pattern, meta);
                }
            },
        }
    }
}

/// No path segment of `p` at or after position `k` starts with a dot: at
/// every position from `k` on that follows a `/`, the character is not `.`.
pub open spec fn no_hidden_from(p: Seq<char>, k: int) -> bool {
    forall|t: int| k <= t < p.len() && 1 <= t && p[t - 1] == '/' ==> (#[trigger] p[t]) != '.'
}

/// Every name in the snapshot, to `depth` levels of directory descent, is a
/// single path segment (contains no `/`).
pub open spec fn plain_names(node: FsNode, depth: nat) -> bool
    decreases depth, node_size(node) + 1,
{
    if depth == 0 {
        true
    } else {
        match node {
            FsNode::File { .. } => true,
            FsNode::Dir { entries, .. } => plain_children(entries@, entries@.len() as int, depth),
        }
    }
}

/// Every name among the first `i` children, and in their subtrees to
/// `depth - 1` levels, is a single path segment.
pub open spec fn plain_children(es: Seq<FsEntry>, i: int, depth: nat) -> bool
    decreases depth, i,
{
    if i <= 0 || i > es.len() || depth == 0 {
        true
    } else {
        plain_children(es, i - 1, depth) && !es[i - 1].name@.contains('/') && (match es[i
            - 1].node {
            FsNode::Dir { .. } => plain_names(es[i - 1].node, (depth - 1) as nat),
            FsNode::File { .. } => true,
        })
    }
}

/// Law: with hidden entries excluded, no emitted path contains a path
/// segment starting with `.` below the walked root.
pub proof fn lemma_no_hidden_walk(
    path: Seq<char>,
    node: FsNode,
    depth: nat,
    pattern: Seq<char>,
    useignore: bool,
    infile: bool,
)
    requires
        plain_names(node, depth),
    ensures
        forall|t: int|
            0 <= t < walk_spec(path, node, depth, pattern, false, useignore, infile).entries.len()
                ==> no_hidden_from(
                (#[trigger] walk_spec(
                    path,
                    node,
                    depth,
                    pattern,
                    false,
                    useignore,
                    infile,
                ).entries[t]).path,
                path.len() as int + 1,
            ),
    decreases depth, node_size(node) + 1,
{
    if depth == 0 {
    } else {
        match node {
            FsNode::File { meta, sample, text } => {
                if infile {
                    lemma_file_matches_paths(path, sample@, text, pattern, meta);
                }
            },
            FsNode::Dir { entries, .. } => {
                lemma_no_hidden_children(
                    path,
                    entries@,
                    entries@.len() as int,
                    depth,
                    pattern,
                    useignore,
                    infile,
                );
            },
        }
    }
}

/// The hidden-filter law, over the first `i` children of a directory.
pub proof fn lemma_no_hidden_children(
    path: Seq<char>,
    es: Seq<FsEntry>,
    i: int,
    depth: nat,
    pattern: Seq<char>,
    useignore: bool,
    infile: bool,
)
    requires
        plain_children(es, i, depth),
    ensures
        forall|t: int|
            0 <= t < walk_children(path, es, i, depth, pattern, false, useignore, infile).entries.len()
                ==> no_hidden_from(
                (#[trigger] walk_children(
                    path,
                    es,
                    i,
                    depth,
                    pattern,
                    false,
                    useignore,
                    infile,
                ).entries[t]).path,
                path.len() as int + 1,
            ),
    decreases depth, i,
{
    if i <= 0 || i > es.len() || depth == 0 {
    } else {
        lemma_no_hidden_children(path, es, i - 1, depth, pattern, useignore, infile);
        lemma_no_hidden_child(path, es, es[i - 1], depth, pattern, useignore, infile);
    }
}

/// The hidden-filter law, for the contribution of one child whose subtree
/// names are single segments.
pub proof fn lemma_no_hidden_child(
    path: Seq<char>,
    es: Seq<FsEntry>,
    c: FsEntry,
    depth: nat,
    pattern: Seq<char>,
    useignore: bool,
    infile: bool,
)
    requires
        !c.name@.contains('/'),
        c.node matches FsNode::Dir { .. } ==> plain_names(c.node, (depth - 1) as nat),
    ensures
        forall|t: int|
            0 <= t < walk_child(path, es, c, depth, pattern, false, useignore, infile).entries.len()
                ==> no_hidden_from(
                (#[trigger] walk_child(
                    path,
                    es,
                    c,
                    depth,
                    pattern,
                    false,
                    useignore,
                    infile,
                ).entries[t]).path,
                path.len() as int + 1,
            ),
    decreases depth, 0int,
{
    let name = c.name@;
    let cpath = path + seq!['/'] + name;
    if depth == 0 || skip_child(name, es, false, useignore) {
    } else {
        assert(name.len() == 0 || name[0] != '.');
        assert(forall|u: int| 0 <= u < name.len() ==> (#[trigger] name[u]) != '/') by {
            assert forall|u: int| 0 <= u < name.len() implies (#[trigger] name[u]) != '/' by {
                if name[u] == '/' {
                    assert(name.contains('/'));
                }
            }
        }
        assert(no_hidden_from(cpath, path.len() as int + 1)) by {
            assert forall|t: int|
                path.len() as int + 1 <= t < cpath.len() && 1 <= t && cpath[t - 1]
                    == '/' implies (#[trigger] cpath[t]) != '.' by {
                if t == path.len() as int + 1 {
                    assert(cpath[t] == name[0]);
                } else {
                    assert(cpath[t - 1] == name[t - 1 - path.len() - 1]);
                }
            }
        }
        match c.node {
            FsNode::Dir { .. } => {
                lemma_walk_paths(cpath, c.node, (depth - 1) as nat, pattern, false, useignore, infile);
                lemma_no_hidden_walk(cpath, c.node, (depth - 1) as nat, pattern, useignore, infile);
                let sub = walk_spec(cpath, c.node, (depth - 1) as nat, pattern, false, useignore, infile);
                assert forall|t: int|
                    0 <= t < sub.entries.len() implies no_hidden_from(
                    (#[trigger] sub.entries[t]).path,
                    path.len() as int + 1,
                ) by {
                    let p = sub.entries[t].path;
                    assert(p == cpath || path_extends(p, cpath));
                    assert(no_hidden_from(p, cpath.len() as int + 1));
                    if p == cpath {
                        assert(no_hidden_from(p, path.len() as int + 1));
                    } else {
                        assert forall|u: int|
                            path.len() as int + 1 <= u < p.len() && 1 <= u && p[u - 1]
                                == '/' implies (#[trigger] p[u]) != '.' by {
                            if u >= cpath.len() as int + 1 {
                                assert(no_hidden_from(p, cpath.len() as int + 1));
                            } else if u == cpath.len() {
                                assert(p[u] == '/');
                            } else {
                                assert(p[u] == cpath[u]);
                                assert(p[u - 1] == cpath[u - 1]);
                                if u == path.len() as int + 1 {
                                    assert(cpath[u] == name[0]);
                                } else {
                                    assert(cpath[u - 1] == name[u - 1 - path.len() - 1]);
                                }
                            }
                        }
                    }
                }
            },
            FsNode::File { meta, sample, text } => {
                if infile {
                    lemma_file_matches_paths(cpath, sample@, text, pattern, meta);
                }
            },
        }
    }
}

/// `p` is the path `base` or a path strictly below it.
pub open spec fn descends_from(p: Seq<char>, base: Seq<char>) -> bool {
    p == base || path_extends(p, base)
}

/// Law: with ignore rules in force, walking a directory whose ignore file
/// lists the single-segment name `n` emits no entry at the ignored child's
/// path or below it. (A rule that is not a single segment never matches a
/// child name, so nothing is claimed of such rules.)
pub proof fn lemma_ignore_filtered(
    path: Seq<char>,
    es: Seq<FsEntry>,
    i: int,
    depth: nat,
    pattern: Seq<char>,
    all: bool,
    infile: bool,
    n: Seq<char>,
)
    requires
        ignore_rules_of(es).contains(n),
        !n.contains('/'),
        forall|j: int| 0 <= j < es.len() ==> !(#[trigger] es[j].name@).contains('/'),
    ensures
        forall|t: int|
            0 <= t < walk_children(path, es, i, depth, pattern, all, true, infile).entries.len()
                ==> !descends_from(
                (#[trigger] walk_children(path, es, i, depth, pattern, all, true, infile).entries[t]).path,
                path + seq!['/'] + n,
            ),
    decreases i,
{
    let basen = path + seq!['/'] + n;
    if i <= 0 || i > es.len() || depth == 0 {
    } else {
        lemma_ignore_filtered(path, es, i - 1, depth, pattern, all, infile, n);
        let c = es[i - 1];
        let name = c.name@;
        let cpath = path + seq!['/'] + name;
        let ch = walk_child(path, es, c, depth, pattern, all, true, infile);
        if skip_child(name, es, all, true) {
        } else {
            assert(name != n);
            assert(forall|u: int| 0 <= u < name.len() ==> (#[trigger] name[u]) != '/') by {
                assert forall|u: int| 0 <= u < name.len() implies (#[trigger] name[u]) != '/' by {
                    if name[u] == '/' {
                        assert(name.contains('/'));
                    }
                }
            }
            assert(forall|u: int| 0 <= u < n.len() ==> (#[trigger] n[u]) != '/') by {
                assert forall|u: int| 0 <= u < n.len() implies (#[trigger] n[u]) != '/' by {
                    if n[u] == '/' {
                        assert(n.contains('/'));
                    }
                }
            }
            lemma_child_paths(path, es, c, depth, pattern, all, true, infile);
            assert forall|t: int| 0 <= t < ch.entries.len() implies !descends_from(
                (#[trigger] ch.entries[t]).path,
                basen,
            ) by {
                let p = ch.entries[t].path;
                assert(p == cpath || path_extends(p, cpath));
                if p == cpath {
                    if p == basen {
                        assert(name.len() == n.len());
                        assert(name =~= n) by {
                            assert(forall|u: int|
                                0 <= u < name.len() ==> (#[trigger] name[u]) == cpath[path.len() as int + 1 + u]);
                        }
                    }
                    if path_extends(p, basen) {
                        assert(name.len() > n.len());
                        assert(cpath[basen.len() as int] == name[n.len() as int]);
                        assert(name[n.len() as int] == '/');
                    }
                } else {
                    assert(p.subrange(0, cpath.len() as int) == cpath);
                    assert(p[cpath.len() as int] == '/');
                    assert(forall|u: int|
                        0 <= u < cpath.len() ==> (#[trigger] p[u]) == cpath[u]) by {
                        assert(forall|u: int|
                            0 <= u < cpath.len() ==> (#[trigger] p.subrange(
                                0,
                                cpath.len() as int,
                            )[u]) == p[u]);
                    }
                    if p == basen {
                        assert(basen.len() > cpath.len());
                        assert(name.len() < n.len());
                        assert(n[name.len() as int] == basen[path.len() as int + 1 + name.len()]);
                        assert(basen[path.len() as int + 1 + name.len()] == p[cpath.len() as int]);
                        assert(n[name.len() as int] == '/');
                    }
                    if path_extends(p, basen) {
                        assert(forall|u: int|
                            0 <= u < basen.len() ==> (#[trigger] p[u]) == basen[u]) by {
                            assert(forall|u: int|
                                0 <= u < basen.len() ==> (#[trigger] p.subrange(
                                    0,
                                    basen.len() as int,
                                )[u]) == p[u]);
                        }
                        if name.len() == n.len() {
                            assert(name =~= n) by {
                                assert(forall|u: int|
                                    0 <= u < name.len() ==> (#[trigger] name[u]) == p[path.len() as int + 1 + u]);
                                assert(forall|u: int|
                                    0 <= u < n.len() ==> (#[trigger] n[u]) == p[path.len() as int
                                        + 1 + u]);
                            }
                        } else if name.len() < n.len() {
                            assert(n[name.len() as int] == p[cpath.len() as int]);
                            assert(n[name.len() as int] == '/');
                        } else {
                            assert(name[n.len() as int] == p[basen.len() as int]);
                            assert(name[n.len() as int] == '/');
                        }
                    }
                }
            }
        }
    }
}

/// Law: the file and folder counters do not depend on the pattern -- an
/// entry is classified and counted whether or not it matches.
pub proof fn lemma_counts_independent_of_pattern(
    path: Seq<char>,
    node: FsNode,
    depth: nat,
    pattern1: Seq<char>,
    pattern2: Seq<char>,
    all: bool,
    useignore: bool,
    infile: bool,
)
    ensures
        walk_spec(path, node, depth, pattern1, all, useignore, infile).files == walk_spec(
            path,
            node,
            depth,
            pattern2,
            all,
            useignore,
            infile,
        ).files,
        walk_spec(path, node, depth, pattern1, all, useignore, infile).folders == walk_spec(
            path,
            node,
            depth,
            pattern2,
            all,
            useignore,
            infile,
        ).folders,
    decreases depth, node_size(node) + 1,
{
    if depth == 0 {
    } else {
        match node {
            FsNode::File { .. } => {},
            FsNode::Dir { entries, .. } => {
                lemma_counts_children_independent(
                    path,
                    entries@,
                    entries@.len() as int,
                    depth,
                    pattern1,
                    pattern2,
                    all,
                    useignore,
                    infile,
                );
            },
        }
    }
}

/// The counter-independence law, over the first `i` children.
proof fn lemma_counts_children_independent(
    path: Seq<char>,
    es: Seq<FsEntry>,
    i: int,
    depth: nat,
    pattern1: Seq<char>,
    pattern2: Seq<char>,
    all: bool,
    useignore: bool,
    infile: bool,
)
    ensures
        walk_children(path, es, i, depth, pattern1, all, useignore, infile).files
            == walk_children(path, es, i, depth, pattern2, all, useignore, infile).files,
        walk_children(path, es, i, depth, pattern1, all, useignore, infile).folders
            == walk_children(path, es, i, depth, pattern2, all, useignore, infile).folders,
    decreases depth, i,
{
    if i <= 0 || i > es.len() || depth == 0 {
    } else {
        lemma_counts_children_independent(
            path,
            es,
            i - 1,
            depth,
            pattern1,
            pattern2,
            all,
            useignore,
            infile,
        );
        lemma_counts_child_independent(
            path,
            es,
            es[i - 1],
            depth,
            pattern1,
            pattern2,
            all,
            useignore,
            infile,
        );
    }
}

/// The counter-independence law, for one child's contribution.
proof fn lemma_counts_child_independent(
    path: Seq<char>,
    es: Seq<FsEntry>,
    c: FsEntry,
    depth: nat,
    pattern1: Seq<char>,
    pattern2: Seq<char>,
    all: bool,
    useignore: bool,
    infile: bool,
)
    ensures
        walk_child(path, es, c, depth, pattern1, all, useignore, infile).files == walk_child(
            path,
            es,
            c,
            depth,
            pattern2,
            all,
            useignore,
            infile,
        ).files,
        walk_child(path, es, c, depth, pattern1, all, useignore, infile).folders == walk_child(
            path,
            es,
            c,
            depth,
            pattern2,
            all,
            useignore,
            infile,
        ).folders,
    decreases depth, 0int,
{
    if depth == 0 || skip_child(c.name@, es, all, useignore) {
    } else {
        match c.node {
            FsNode::Dir { .. } => {
                lemma_counts_independent_of_pattern(
                    path + seq!['/'] + c.name@,
                    c.node,
                    (depth - 1) as nat,
                    pattern1,
                    pattern2,
                    all,
                    useignore,
                    infile,
                );
            },
            FsNode::File { .. } => {},
        }
    }
}

/// Law: every located content match is a genuine occurrence -- its line is
/// the scanned line, its column is the 0-indexed character offset at which
/// the pattern really occurs -- and successive occurrences on one line are
/// spaced at least a pattern length apart (no overlapping consumption).
pub proof fn lemma_line_scan_sound(
    path: Seq<char>,
    lineno: int,
    line: Seq<char>,
    pattern: Seq<char>,
    from: int,
    meta: Option<EntryMeta>,
)
    requires
        0 <= lineno <= usize::MAX,
        0 <= from,
        line.len() <= usize::MAX,
    ensures
        forall|t: int|
            0 <= t < line_scan(path, lineno, line, pattern, from, meta).len() ==> ((
            #[trigger] line_scan(path, lineno, line, pattern, from, meta)[t]).loc matches Some(lc)
                && lc.0 == lineno as usize && from <= lc.1 && crate::text::match_at(
                line,
                pattern,
                lc.1 as int,
            )),
        forall|t1: int, t2: int|
            0 <= t1 < t2 < line_scan(path, lineno, line, pattern, from, meta).len() ==> (
            #[trigger] line_scan(path, lineno, line, pattern, from, meta)[t1]).loc->Some_0.1
                + pattern.len() <= (#[trigger] line_scan(
                path,
                lineno,
                line,
                pattern,
                from,
                meta,
            )[t2]).loc->Some_0.1,
    decreases line.len() - from + 1,
{
    if pattern.len() <= 0 || from < 0 || from + pattern.len() > line.len() {
    } else if crate::text::match_at(line, pattern, from) {
        lemma_line_scan_sound(path, lineno, line, pattern, from + pattern.len(), meta);
    } else {
        lemma_line_scan_sound(path, lineno, line, pattern, from + 1, meta);
    }
}

/// The ignore-rule law lifted to a whole directory walk: walking a
/// directory node whose ignore file lists the single-segment name `n`, with
/// ignore rules in force, emits no entry at `path/n` or below it.
pub proof fn lemma_ignore_filtered_walk(
    path: Seq<char>,
    node: FsNode,
    depth: nat,
    pattern: Seq<char>,
    all: bool,
    infile: bool,
    n: Seq<char>,
)
    requires
        node matches FsNode::Dir { entries, .. } && ignore_rules_of(entries@).contains(n)
            && forall|j: int|
            0 <= j < entries@.len() ==> !(#[trigger] entries@[j].name@).contains('/'),
        !n.contains('/'),
    ensures
        forall|t: int|
            0 <= t < walk_spec(path, node, depth, pattern, all, true, infile).entries.len()
                ==> !descends_from(
                (#[trigger] walk_spec(path, node, depth, pattern, all, true, infile).entries[t]).path,
                path + seq!['/'] + n,
            ),
{
    if depth > 0 {
        match node {
            FsNode::Dir { entries, .. } => {
                lemma_ignore_filtered(
                    path,
                    entries@,
                    entries@.len() as int,
                    depth,
                    pattern,
                    all,
                    infile,
                    n,
                );
            },
            FsNode::File { .. } => {},
        }
    }
}

/// Law: one child of a visited directory is classified exactly once. A kept
/// child with metadata adds one to exactly one counter (the folder counter
/// when its metadata says directory, the file counter otherwise) besides what
/// its own subtree adds; a kept child without metadata adds nothing of its
/// own but is still walked; a skipped child adds nothing at all.
pub proof fn lemma_child_classification(
    path: Seq<char>,
    es: Seq<FsEntry>,
    c: FsEntry,
    depth: nat,
    pattern: Seq<char>,
    all: bool,
    useignore: bool,
    infile: bool,
)
    requires
        depth > 0,
    ensures
        skip_child(c.name@, es, all, useignore) ==> walk_child(
            path,
            es,
            c,
            depth,
            pattern,
            all,
            useignore,
            infile,
        ) == wo_empty(),
        !skip_child(c.name@, es, all, useignore) ==> {
            let own = child_subtree(path, c, depth, pattern, all, useignore, infile);
            let ch = walk_child(path, es, c, depth, pattern, all, useignore, infile);
            match c.node.meta_of() {
                Some(m) => ch.files == own.files + (if m.is_dir { 0int } else { 1int })
                    && ch.folders == own.folders + (if m.is_dir { 1int } else { 0int }),
                None => ch.files == own.files && ch.folders == own.folders && ch.entries
                    == own.entries,
            }
        },
{
}

/// What one kept child's own subtree (and, in name mode, its name match)
/// contributes, before the child's classification is counted.
pub open spec fn child_subtree(
    path: Seq<char>,
    c: FsEntry,
    depth: nat,
    pattern: Seq<char>,
    all: bool,
    useignore: bool,
    infile: bool,
) -> WalkOut {
    let cpath = path + seq!['/'] + c.name@;
    if infile {
        match c.node {
            FsNode::File { meta, sample, text } => WalkOut {
                entries: file_matches(cpath, sample@, text, pattern, meta),
                files: 0,
                folders: 0,
            },
            FsNode::Dir { .. } => walk_spec(
                cpath,
                c.node,
                (depth - 1) as nat,
                pattern,
                all,
                useignore,
                true,
            ),
        }
    } else {
        let matched: Seq<EntryV> = if crate::text::contains_seq(c.name@, pattern) {
            seq![(EntryV { path: cpath, loc: None, meta: c.node.meta_of() })]
        } else {
            Seq::empty()
        };
        let sub = match c.node {
            FsNode::Dir { .. } => walk_spec(
                cpath,
                c.node,
                (depth - 1) as nat,
                pattern,
                all,
                useignore,
                false,
            ),
            FsNode::File { .. } => wo_empty(),
        };
        WalkOut { entries: matched + sub.entries, files: sub.files, folders: sub.folders }
    }
}

} // verus!
