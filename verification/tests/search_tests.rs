use srch::results::{Entry, Results, OVERFLOW_THRESHOLD};
use srch::snapshot::{EntryMeta, FsEntry, FsNode};
use srch::tree::Tree;
use srch::Arguments;

fn args(pattern: &str) -> Arguments {
    Arguments {
        pattern: pattern.to_string(),
        depth: 3,
        infile: false,
        all: false,
        useignore: false,
        verbose: false,
        pathonly: false,
        get: None,
    }
}

fn file_meta(size: u64) -> Option<EntryMeta> {
    Some(EntryMeta { is_dir: false, size, readonly: false, created: None, modified: None })
}

fn dir_meta() -> Option<EntryMeta> {
    Some(EntryMeta { is_dir: true, size: 0, readonly: false, created: None, modified: None })
}

fn text_file(text: &str) -> FsNode {
    FsNode::File {
        meta: file_meta(text.len() as u64),
        sample: text.as_bytes().iter().take(1024).cloned().collect(),
        text: Some(text.to_string()),
    }
}

fn entry(name: &str, node: FsNode) -> FsEntry {
    FsEntry { name: name.to_string(), node }
}

fn dir(entries: Vec<FsEntry>) -> FsNode {
    FsNode::Dir { meta: dir_meta(), entries }
}

#[test]
fn content_search_columns_ababab() {
    // A line "ababab" with pattern "ab": three occurrences at 0-indexed
    // columns 0, 2 and 4 on line 1 -- three entries, not two.
    let mut a = args("ab");
    a.infile = true;
    let mut results = Results::new();
    Tree::get_infile_results(
        &"./f.txt".to_string(),
        &"ababab".to_string(),
        file_meta(6),
        &a,
        &mut results,
    );
    assert_eq!(results.entries.len(), 3);
    let locs: Vec<(usize, usize)> = results.entries.iter().map(|e| e.loc.unwrap()).collect();
    assert_eq!(locs, vec![(1, 0), (1, 2), (1, 4)]);
    assert!(results.entries.iter().all(|e| e.path == "./f.txt"));
}

#[test]
fn content_search_lines_and_columns() {
    let mut a = args("ne");
    a.infile = true;
    let mut results = Results::new();
    Tree::get_infile_results(
        &"./f.txt".to_string(),
        &"one\ntwo\nnine\n".to_string(),
        file_meta(12),
        &a,
        &mut results,
    );
    let locs: Vec<(usize, usize)> = results.entries.iter().map(|e| e.loc.unwrap()).collect();
    assert_eq!(locs, vec![(1, 1), (3, 2)]);
}

#[test]
fn counters_count_classified_entries_without_matches() {
    // Five files and two subfolders, a pattern that matches nothing:
    // zero matches, file count 5, folder count 2.
    let root = dir(vec![
        entry("a.txt", text_file("alpha")),
        entry("b.txt", text_file("beta")),
        entry("c.txt", text_file("gamma")),
        entry("d.txt", text_file("delta")),
        entry("e.txt", text_file("epsilon")),
        entry("sub1", dir(vec![])),
        entry("sub2", dir(vec![])),
    ]);
    let mut a = args("zzz_no_match");
    a.depth = 1;
    let mut results = Results::new();
    let tree = Tree::new(&".".to_string());
    tree.quick_fill(a.depth, ".".to_string(), &root, &a, &mut results);
    assert_eq!(results.entries.len(), 0);
    assert_eq!(results.get_filecount(), 5);
    assert_eq!(results.get_foldercount(), 2);
}

#[test]
fn depth_zero_visits_nothing() {
    let root = dir(vec![entry("match_me", dir(vec![])), entry("match_too.txt", text_file("x"))]);
    let a = args("match");
    let tree = Tree::new(&".".to_string());
    let mut results = Results::new();
    tree.quick_fill(0, ".".to_string(), &root, &a, &mut results);
    assert_eq!(results.entries.len(), 0);
    assert_eq!(results.get_filecount(), 0);
    assert_eq!(results.get_foldercount(), 0);
    let mut a2 = args("x");
    a2.infile = true;
    let mut results2 = Results::new();
    tree.search_infile(0, ".".to_string(), &root, &a2, &mut results2);
    assert_eq!(results2.entries.len(), 0);
    assert_eq!(results2.get_filecount(), 0);
    assert_eq!(results2.get_foldercount(), 0);
}

#[test]
fn name_search_finds_matches_and_recurses() {
    let root = dir(vec![
        entry("notes", dir(vec![entry("notes.txt", text_file("hello"))])),
        entry("other", dir(vec![])),
    ]);
    let a = args("notes");
    let tree = Tree::new(&".".to_string());
    let mut results = Results::new();
    tree.quick_fill(3, ".".to_string(), &root, &a, &mut results);
    let paths: Vec<&str> = results.entries.iter().map(|e| e.path.as_str()).collect();
    assert_eq!(paths, vec!["./notes", "./notes/notes.txt"]);
    assert_eq!(results.get_filecount(), 1);
    assert_eq!(results.get_foldercount(), 2);
}

#[test]
fn hidden_entries_skipped_unless_all() {
    let root = dir(vec![
        entry(".hidden_match", dir(vec![entry("match_inside", dir(vec![]))])),
        entry("plain_match", dir(vec![])),
    ]);
    let a = args("match");
    let tree = Tree::new(&".".to_string());
    let mut results = Results::new();
    tree.quick_fill(3, ".".to_string(), &root, &a, &mut results);
    let paths: Vec<&str> = results.entries.iter().map(|e| e.path.as_str()).collect();
    assert_eq!(paths, vec!["./plain_match"]);

    let mut a2 = args("match");
    a2.all = true;
    let mut results2 = Results::new();
    tree.quick_fill(3, ".".to_string(), &root, &a2, &mut results2);
    let paths2: Vec<&str> = results2.entries.iter().map(|e| e.path.as_str()).collect();
    assert_eq!(paths2, vec!["./.hidden_match", "./.hidden_match/match_inside", "./plain_match"]);
}

#[test]
fn ignore_rules_exclude_listed_names() {
    let root = dir(vec![
        entry(".ignore", text_file("skipme\n/also_skip/\n\n")),
        entry("skipme", dir(vec![entry("skipme_inner", dir(vec![]))])),
        entry("also_skip", dir(vec![])),
        entry("keepme_skipme_not_listed", dir(vec![])),
    ]);
    let mut a = args("skip");
    a.useignore = true;
    let tree = Tree::new(&".".to_string());
    let mut results = Results::new();
    tree.quick_fill(3, ".".to_string(), &root, &a, &mut results);
    let paths: Vec<&str> = results.entries.iter().map(|e| e.path.as_str()).collect();
    assert_eq!(paths, vec!["./keepme_skipme_not_listed"]);
}

#[test]
fn ignore_rules_only_apply_when_enabled() {
    let root = dir(vec![
        entry(".ignore", text_file("skipme\n")),
        entry("skipme", dir(vec![])),
    ]);
    let mut a = args("skipme");
    a.all = true;
    let tree = Tree::new(&".".to_string());
    let mut results = Results::new();
    tree.quick_fill(3, ".".to_string(), &root, &a, &mut results);
    let paths: Vec<&str> = results.entries.iter().map(|e| e.path.as_str()).collect();
    assert_eq!(paths, vec!["./skipme"]);
}

#[test]
fn read_ignorefile_trims_and_drops_empty_lines() {
    let entries = vec![
        entry("a.txt", text_file("x")),
        entry(".gitignore", text_file("/target/\n\nbuild\\\r\nplain\n")),
    ];
    let rules = Tree::read_ignorefile(&entries);
    assert_eq!(rules, vec!["target".to_string(), "build".to_string(), "plain".to_string()]);
}

#[test]
fn read_ignorefile_first_found_wins() {
    let entries = vec![
        entry(".gitignore", text_file("from_git\n")),
        entry(".ignore", text_file("from_ignore\n")),
    ];
    let rules = Tree::read_ignorefile(&entries);
    assert_eq!(rules, vec!["from_git".to_string()]);
}

#[test]
fn read_ignorefile_missing_or_unreadable_is_empty() {
    let no_file = vec![entry("a.txt", text_file("x"))];
    assert!(Tree::read_ignorefile(&no_file).is_empty());
    let unreadable = vec![entry(
        ".ignore",
        FsNode::File { meta: file_meta(4), sample: vec![0, 1, 2], text: None },
    )];
    assert!(Tree::read_ignorefile(&unreadable).is_empty());
}

#[test]
fn binary_files_never_match_content() {
    // The sample holds a null byte among its first 1024 bytes, so the file
    // classifies as binary and is excluded even though its text contains the
    // pattern.
    let mut sample = b"needle".to_vec();
    sample.push(0u8);
    let root = dir(vec![entry(
        "bin.dat",
        FsNode::File { meta: file_meta(7), sample, text: Some("needle".to_string()) },
    )]);
    let mut a = args("needle");
    a.infile = true;
    let tree = Tree::new(&".".to_string());
    let mut results = Results::new();
    tree.search_infile(3, ".".to_string(), &root, &a, &mut results);
    assert_eq!(results.entries.len(), 0);
    assert_eq!(results.get_filecount(), 1);
}

#[test]
fn is_file_binary_classification() {
    assert!(Tree::is_file_binary(&vec![b'a', 0u8, b'b']));
    assert!(!Tree::is_file_binary(&b"plain text".to_vec()));
    // A UTF-16LE byte-order mark classifies as text even with null bytes.
    assert!(!Tree::is_file_binary(&vec![0xff, 0xfe, b'a', 0u8]));
    // Empty samples classify as text.
    assert!(!Tree::is_file_binary(&Vec::new()));
}

#[test]
fn content_search_inspects_file_children_at_depth_one() {
    let root = dir(vec![entry("f.txt", text_file("needle here"))]);
    let mut a = args("needle");
    a.infile = true;
    let tree = Tree::new(&".".to_string());
    let mut results = Results::new();
    tree.search_infile(1, ".".to_string(), &root, &a, &mut results);
    assert_eq!(results.entries.len(), 1);
    assert_eq!(results.entries[0].path, "./f.txt");
    assert_eq!(results.entries[0].loc, Some((1, 0)));
}

#[test]
fn content_search_bounds_directory_descent() {
    let root = dir(vec![entry("sub", dir(vec![entry("f.txt", text_file("needle"))]))]);
    let mut a = args("needle");
    a.infile = true;
    let tree = Tree::new(&".".to_string());
    let mut shallow = Results::new();
    tree.search_infile(1, ".".to_string(), &root, &a, &mut shallow);
    assert_eq!(shallow.entries.len(), 0);
    let mut deep = Results::new();
    tree.search_infile(2, ".".to_string(), &root, &a, &mut deep);
    assert_eq!(deep.entries.len(), 1);
    assert_eq!(deep.entries[0].path, "./sub/f.txt");
}

#[test]
fn overflow_renders_exactly_threshold_entries() {
    let a = args("x");
    let mut results = Results::new();
    for i in 0..(OVERFLOW_THRESHOLD + 1) {
        let e = Entry::new(&format!("./file{}", i), None);
        results.push(e, &a);
    }
    assert_eq!(results.entries.len(), OVERFLOW_THRESHOLD + 1);
    assert_eq!(results.rendered_lines().len(), OVERFLOW_THRESHOLD);
    // The retained remainder was never rendered, and nothing was rendered
    // twice: the rendered lines are exactly the first `threshold` entries.
    for (i, line) in results.rendered_lines().iter().enumerate() {
        assert!(line.contains(&format!("file{}", i)));
    }
}

#[test]
fn locator_round_trip_in_path_only_mode() {
    let mut a = args("irrelevant");
    a.pathonly = true;
    let e = Entry::with_location(&"./dir/file.txt".to_string(), 12, 34, None);
    let line = srch::results::render_entry_line(&e, &a);
    let parts: Vec<&str> = line.split(':').collect();
    assert_eq!(parts, vec!["./dir/file.txt", "12", "34"]);
    assert_eq!(parts[1].parse::<usize>().unwrap(), 12);
    assert_eq!(parts[2].parse::<usize>().unwrap(), 34);
}

#[test]
fn path_only_renders_name_entries_verbatim() {
    let mut a = args("file");
    a.pathonly = true;
    let e = Entry::new(&"./dir/file.txt".to_string(), None);
    assert_eq!(srch::results::render_entry_line(&e, &a), "./dir/file.txt");
}

#[test]
fn name_render_highlights_only_last_occurrence() {
    let a = args("ab");
    let e = Entry::new(&"./ab/ab.txt".to_string(), None);
    let line = srch::results::render_entry_line(&e, &a);
    assert_eq!(line, "./ab/\u{1b}[31mab\u{1b}[0m.txt");
}

#[test]
fn content_render_colours_location_fields() {
    let a = args("x");
    let e = Entry::with_location(&"./f.txt".to_string(), 3, 7, None);
    let line = srch::results::render_entry_line(&e, &a);
    assert_eq!(line, "./f.txt:\u{1b}[36m3\u{1b}[0m:\u{1b}[36m7\u{1b}[0m");
}

#[test]
fn write_renders_every_retained_entry() {
    let mut a = args("zz");
    a.pathonly = true;
    let mut results = Results::new();
    results.push(Entry::new(&"./one_zz".to_string(), None), &a);
    results.push(Entry::with_location(&"./two".to_string(), 1, 2, None), &a);
    let out = results.write(&a);
    assert_eq!(out, vec!["./one_zz".to_string(), "./two:1:2".to_string()]);
}

#[test]
fn select_restricts_to_single_result() {
    let a = args("f");
    let mut results = Results::new();
    results.push(Entry::new(&"./first".to_string(), None), &a);
    results.push(Entry::new(&"./second".to_string(), None), &a);
    assert!(results.select(1).is_ok());
    assert_eq!(results.entries.len(), 1);
    assert_eq!(results.entries[0].path, "./second");
}

#[test]
fn select_out_of_range_is_an_error() {
    let a = args("f");
    let mut results = Results::new();
    results.push(Entry::new(&"./only".to_string(), None), &a);
    let r = results.select(5);
    assert_eq!(r, Err(srch::results::SearchError::IndexOutOfRange));
    assert_eq!(results.entries.len(), 1);
}

#[test]
fn summary_reports_counts_and_elapsed() {
    let a = args("one");
    let mut results = Results::new();
    results.push(Entry::new(&"./one".to_string(), None), &a);
    let s = results.summary(42);
    assert_eq!(s, "\nFound 1 results.\nSearched through 0 file(s) and 0 folder(s) in 42 ms.");
}

#[test]
fn metadata_block_for_files_and_dirs() {
    let meta = EntryMeta { is_dir: false, size: 2048, readonly: true, created: None, modified: None };
    let lines = srch::results::metadata_lines(&meta);
    assert_eq!(
        lines,
        vec![
            "Created:        _".to_string(),
            "Last modified:  _".to_string(),
            "File type:      file".to_string(),
            "File size:      2KB".to_string(),
            "Permissions:    read only".to_string(),
        ]
    );
    let dmeta = EntryMeta { is_dir: true, size: 0, readonly: false, created: None, modified: None };
    let dlines = srch::results::metadata_lines(&dmeta);
    assert_eq!(dlines.len(), 4);
    assert_eq!(dlines[2], "File type:      dir");
    assert_eq!(dlines[3], "Permissions:    all");
}

#[test]
fn metadata_block_formats_local_timestamps() {
    let meta = EntryMeta {
        is_dir: false,
        size: 10,
        readonly: false,
        created: Some(0),
        modified: Some(1431648000),
    };
    let lines = srch::results::metadata_lines(&meta);
    // The calendar fields depend on the machine's time zone; the shape does
    // not: `label + DD/MM/YY HH:MM:SS`.
    let created = &lines[0]["Created:        ".len()..];
    assert_eq!(created.len(), 17);
    assert_eq!(&created[2..3], "/");
    assert_eq!(&created[5..6], "/");
    assert_eq!(&created[8..9], " ");
    assert_eq!(&created[11..12], ":");
    assert_eq!(&created[14..15], ":");
}

#[test]
fn size_buckets_choose_largest_non_truncating_unit() {
    let mk = |size| EntryMeta { is_dir: false, size, readonly: false, created: None, modified: None };
    assert_eq!(srch::results::metadata_lines(&mk(500))[3], "File size:      0KB");
    assert_eq!(srch::results::metadata_lines(&mk(2048))[3], "File size:      2KB");
    assert_eq!(srch::results::metadata_lines(&mk(1048576))[3], "File size:      1MB");
    assert_eq!(srch::results::metadata_lines(&mk(5 * 1048576))[3], "File size:      5MB");
    assert_eq!(
        srch::results::metadata_lines(&mk(3 * 1073741824))[3],
        "File size:      3GB"
    );
}

#[test]
fn entries_without_metadata_are_not_counted_but_still_match() {
    let root = dir(vec![entry(
        "match_no_meta",
        FsNode::File { meta: None, sample: Vec::new(), text: None },
    )]);
    let a = args("match");
    let tree = Tree::new(&".".to_string());
    let mut results = Results::new();
    tree.quick_fill(1, ".".to_string(), &root, &a, &mut results);
    assert_eq!(results.entries.len(), 1);
    assert_eq!(results.get_filecount(), 0);
    assert_eq!(results.get_foldercount(), 0);
    assert!(!results.entries[0].is_dir());
}

#[test]
fn tree_keeps_its_root_path() {
    let t = Tree::new(&"./somewhere".to_string());
    assert_eq!(t.path(), "./somewhere");
}

#[test]
fn empty_directory_yields_nothing() {
    let root = dir(vec![]);
    let a = args("anything");
    let tree = Tree::new(&".".to_string());
    let mut results = Results::new();
    tree.quick_fill(3, ".".to_string(), &root, &a, &mut results);
    assert_eq!(results.entries.len(), 0);
    assert_eq!(results.get_filecount(), 0);
    assert_eq!(results.get_foldercount(), 0);
}

#[test]
fn crlf_lines_are_located_like_lf_lines() {
    let mut a = args("hit");
    a.infile = true;
    let mut results = Results::new();
    Tree::get_infile_results(
        &"./f.txt".to_string(),
        &"miss\r\nhit\r\n".to_string(),
        file_meta(11),
        &a,
        &mut results,
    );
    assert_eq!(results.entries.len(), 1);
    assert_eq!(results.entries[0].loc, Some((2, 0)));
}

#[test]
fn limit_keeps_first_n_results() {
    let a = args("f");
    let mut results = Results::new();
    results.push(Entry::new(&"./one".to_string(), None), &a);
    results.push(Entry::new(&"./two".to_string(), None), &a);
    results.push(Entry::new(&"./three".to_string(), None), &a);
    results.limit(2);
    let paths: Vec<&str> = results.entries.iter().map(|e| e.path.as_str()).collect();
    assert_eq!(paths, vec!["./one", "./two"]);
    results.limit(10);
    assert_eq!(results.entries.len(), 2);
}

#[test]
fn timestamps_outside_the_representable_range_render_placeholder() {
    let meta = EntryMeta {
        is_dir: false,
        size: 1,
        readonly: false,
        created: Some(srch::results::MIN_TIMESTAMP - 1),
        modified: Some(srch::results::MAX_TIMESTAMP.checked_add(1).unwrap()),
    };
    let lines = srch::results::metadata_lines(&meta);
    assert_eq!(lines[0], "Created:        _");
    assert_eq!(lines[1], "Last modified:  _");
}

#[test]
fn in_range_timestamps_never_render_placeholder() {
    let meta = EntryMeta {
        is_dir: false,
        size: 1,
        readonly: false,
        created: Some(0),
        modified: Some(srch::results::MAX_TIMESTAMP),
    };
    let lines = srch::results::metadata_lines(&meta);
    assert_ne!(&lines[0]["Created:        ".len()..], "_");
    assert_ne!(&lines[1]["Last modified:  ".len()..], "_");
}
