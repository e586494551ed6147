//! The records of the scan history, and what the library computes on their
//! way into and out of the database: the grouping of a scan's results by
//! file, and the decoding of stored columns.
use vstd::prelude::*;

use crate::layout::{seq_lt, lemma_seq_lt_order, name_lt};
use crate::text::{chars_of, chars_eq};
use crate::go_parser::{texts, opt_text};

verus! {

/// A saved scan, as the history lists it.
#[derive(Debug, Clone)]
pub struct ScanSummary {
    pub id: i64,
    pub repo_path: String,
    pub scanned_at: i64,
    pub total_structs: i64,
    pub padded_structs: i64,
    pub bytes_saved: i64,
    pub ignore_patterns: Vec<String>,
    pub target_arch: String,
    pub language: String,
}

/// The results of one scan in one file.
#[derive(Debug, Clone)]
pub struct FileScanResult {
    pub file_path: String,
    pub structs: Vec<StructSummary>,
}

/// One analysed declaration of a scan, without its definitions.
#[derive(Debug, Clone)]
pub struct StructSummary {
    pub id: i64,
    pub struct_name: String,
    pub line_number: i64,
    pub current_size: i64,
    pub optimal_size: i64,
    pub bytes_saved: i64,
    pub has_generics: bool,
    pub has_embedded: bool,
    pub declaration_kind: String,
}

/// One analysed declaration of a scan, with its current and suggested
/// definitions.
#[derive(Debug, Clone)]
pub struct StructDetail {
    pub id: i64,
    pub scan_id: i64,
    pub file_path: String,
    pub struct_name: String,
    pub line_number: i64,
    pub current_size: i64,
    pub optimal_size: i64,
    pub bytes_saved: i64,
    pub current_def: String,
    pub optimized_def: String,
    pub has_generics: bool,
    pub has_embedded: bool,
    pub declaration_kind: String,
}

/// The results among `rows` whose file path is `path`, in the order of
/// `rows`.
pub open spec fn rows_for(rows: Seq<(String, StructSummary)>, path: Seq<char>) -> Seq<StructSummary>
    decreases rows.len(),
{
    if rows.len() == 0 {
        seq![]
    } else {
        (if rows[0].0@ == path {
            seq![rows[0].1]
        } else {
            seq![]
        }) + rows_for(rows.drop_first(), path)
    }
}

/// `files` groups `rows` by file path: one group for each path that occurs
/// in `rows`, in increasing order of path, each holding the results of its
/// path in the order of `rows`.
pub open spec fn grouped(files: Seq<FileScanResult>, rows: Seq<(String, StructSummary)>) -> bool {
    &&& forall|i: int, j: int|
        0 <= i < j < files.len() ==> seq_lt(#[trigger] files[i].file_path@, #[trigger] files[j].file_path@)
    &&& forall|i: int| 0 <= i < files.len() ==> #[trigger] files[i].structs@ == rows_for(rows, files[i].file_path@)
    &&& forall|i: int| 0 <= i < files.len() ==> (#[trigger] files[i]).structs@.len() > 0
    &&& forall|k: int|
        0 <= k < rows.len() ==> exists|i: int| 0 <= i < files.len() && files[i].file_path@ == (#[trigger] rows[k]).0@
}

proof fn lemma_rows_for_cons(row: (String, StructSummary), rest: Seq<(String, StructSummary)>, path: Seq<char>)
    ensures
        rows_for(seq![row] + rest, path) == (if row.0@ == path {
            seq![row.1]
        } else {
            seq![]
        }) + rows_for(rest, path),
{
    assert((seq![row] + rest).drop_first() =~= rest);
}

/// Adds a result in front of the rows that `files` groups.
fn add_row(files: &mut Vec<FileScanResult>, path: String, s: StructSummary, Ghost(rest): Ghost<
    Seq<(String, StructSummary)>,
>)
    requires
        grouped(old(files)@, rest),
    ensures
        grouped(final(files)@, seq![(path, s)] + rest),
{
    let ghost row = (path, s);
    let ghost rows = seq![row] + rest;
    let ghost old_files = files@;
    let pc = chars_of(path.as_str());
    let mut i: usize = 0;
    while i < files.len() && name_lt(chars_of(files[i].file_path.as_str()).as_slice(), pc.as_slice())
        invariant
            files@ == old_files,
            pc@ == path@,
            i <= files@.len(),
            forall|j: int| 0 <= j < i ==> seq_lt(#[trigger] files@[j].file_path@, path@),
        decreases files@.len() - i,
    {
        i = i + 1;
    }
    assert forall|p: Seq<char>| #[trigger] rows_for(rows, p) == (if row.0@ == p {
        seq![row.1]
    } else {
        seq![]
    }) + rows_for(rest, p) by {
        lemma_rows_for_cons(row, rest, p);
    }
    assert(rows[0] == row);
    assert forall|k: int| 0 < k < rows.len() implies #[trigger] rows[k] == rest[k - 1] by {}
    if i < files.len() && chars_eq(chars_of(files[i].file_path.as_str()).as_slice(), pc.as_slice()) {
        let mut g = files.remove(i);
        g.structs.insert(0, s);
        files.insert(i, g);
        assert(files@ =~= old_files.update(i as int, g));
        assert forall|j: int| 0 <= j < files@.len() implies #[trigger] files@[j].structs@ == rows_for(
            rows,
            files@[j].file_path@,
        ) by {
            if j != i {
                assert(files@[j] == old_files[j]);
                assert(old_files[j].file_path@ != path@) by {
                    lemma_seq_lt_order(old_files[j].file_path@, old_files[i as int].file_path@, path@);
                    lemma_seq_lt_order(old_files[i as int].file_path@, old_files[j].file_path@, path@);
                }
            } else {
                assert(g.structs@ =~= seq![s] + old_files[i as int].structs@);
            }
        }
        assert forall|k: int| 0 <= k < rows.len() implies exists|j: int|
            0 <= j < files@.len() && files@[j].file_path@ == (#[trigger] rows[k]).0@ by {
            if k == 0 {
                assert(files@[i as int].file_path@ == rows[k].0@);
            } else {
                let k1 = k - 1;
                assert(rest[k1] == rows[k]);
                let j = choose|j: int| 0 <= j < old_files.len() && old_files[j].file_path@ == (#[trigger] rest[k1]).0@;
                assert(files@[j].file_path@ == rows[k].0@);
            }
        }
        assert forall|a: int, b: int| 0 <= a < b < files@.len() implies seq_lt(
            #[trigger] files@[a].file_path@,
            #[trigger] files@[b].file_path@,
        ) by {
            assert(old_files[a].file_path@ == files@[a].file_path@);
            assert(old_files[b].file_path@ == files@[b].file_path@);
        }
        assert forall|a: int| 0 <= a < files@.len() implies (#[trigger] files@[a]).structs@.len() > 0 by {
            if a != i {
                assert(files@[a] == old_files[a]);
            }
        }
    } else {
        let mut structs: Vec<StructSummary> = Vec::new();
        structs.push(s);
        let g = FileScanResult { file_path: path, structs };
        files.insert(i, g);
        assert(files@ =~= old_files.insert(i as int, g));
        proof {
            if i < old_files.len() {
                assert(seq_lt(path@, old_files[i as int].file_path@)) by {
                    lemma_seq_lt_order(path@, old_files[i as int].file_path@, path@);
                }
            }
        }
        assert forall|j: int| 0 <= j < old_files.len() implies #[trigger] old_files[j].file_path@ != path@ by {
            if j < i {
                lemma_seq_lt_order(path@, path@, path@);
            } else {
                lemma_seq_lt_order(path@, old_files[i as int].file_path@, old_files[j].file_path@);
                if j > i {
                    assert(seq_lt(old_files[i as int].file_path@, old_files[j].file_path@));
                }
                lemma_seq_lt_order(path@, path@, path@);
            }
        }
        assert forall|j: int| 0 <= j < files@.len() implies #[trigger] files@[j].structs@ == rows_for(
            rows,
            files@[j].file_path@,
        ) by {
            if j < i {
                assert(files@[j] == old_files[j]);
            } else if j > i {
                assert(files@[j] == old_files[j - 1]);
            } else {
                assert(rows_for(rest, path@) =~= Seq::<StructSummary>::empty()) by {
                    if rows_for(rest, path@).len() > 0 {
                        lemma_rows_for_nonempty(rest, path@);
                        let k = choose|k: int| 0 <= k < rest.len() && (#[trigger] rest[k]).0@ == path@;
                        let jj = choose|jj: int| 0 <= jj < old_files.len() && old_files[jj].file_path@ == (#[trigger] rest[k]).0@;
                        assert(old_files[jj].file_path@ != path@);
                    }
                }
                assert(g.structs@ =~= seq![s]);
            }
        }
        assert forall|k: int| 0 <= k < rows.len() implies exists|j: int|
            0 <= j < files@.len() && files@[j].file_path@ == (#[trigger] rows[k]).0@ by {
            if k == 0 {
                assert(files@[i as int].file_path@ == rows[k].0@);
            } else {
                let k1 = k - 1;
                assert(rest[k1] == rows[k]);
                let j = choose|j: int| 0 <= j < old_files.len() && old_files[j].file_path@ == (#[trigger] rest[k1]).0@;
                if j < i {
                    assert(files@[j].file_path@ == rows[k].0@);
                } else {
                    assert(files@[j + 1].file_path@ == rows[k].0@);
                }
            }
        }
        assert forall|a: int, b: int| 0 <= a < b < files@.len() implies seq_lt(
            #[trigger] files@[a].file_path@,
            #[trigger] files@[b].file_path@,
        ) by {
            if b < i {
            } else if b == i {
                assert(seq_lt(files@[a].file_path@, path@));
            } else if a < i {
                assert(files@[b].file_path@ == old_files[b - 1].file_path@);
                assert(seq_lt(old_files[a].file_path@, old_files[b - 1].file_path@));
            } else if a == i {
                assert(files@[b].file_path@ == old_files[b - 1].file_path@);
                if b - 1 > i {
                    assert(seq_lt(old_files[i as int].file_path@, old_files[b - 1].file_path@));
                    lemma_seq_lt_order(path@, old_files[i as int].file_path@, old_files[b - 1].file_path@);
                }
            } else {
                assert(files@[a].file_path@ == old_files[a - 1].file_path@);
                assert(files@[b].file_path@ == old_files[b - 1].file_path@);
            }
        }
        assert forall|a: int| 0 <= a < files@.len() implies (#[trigger] files@[a]).structs@.len() > 0 by {
            if a < i {
                assert(files@[a] == old_files[a]);
            } else if a > i {
                assert(files@[a] == old_files[a - 1]);
            }
        }
    }
}

/// A path with results in `rows` is the path of one of the rows.
proof fn lemma_rows_for_nonempty(rows: Seq<(String, StructSummary)>, path: Seq<char>)
    requires
        rows_for(rows, path).len() > 0,
    ensures
        exists|k: int| 0 <= k < rows.len() && (#[trigger] rows[k]).0@ == path,
    decreases rows.len(),
{
    if rows[0].0@ != path {
        lemma_rows_for_nonempty(rows.drop_first(), path);
        let k = choose|k: int| 0 <= k < rows.drop_first().len() && (#[trigger] rows.drop_first()[k]).0@ == path;
        assert(rows[k + 1] == rows.drop_first()[k]);
    }
}

/// Groups the results of a scan by file: one group per file path, in
/// increasing order of path, each holding that file's results in the order
/// they come in.
pub fn group_by_file(rows: Vec<(String, StructSummary)>) -> (files: Vec<FileScanResult>)
    ensures
        grouped(files@, rows@),
{
    let ghost all = rows@;
    let mut rows = rows;
    let mut files: Vec<FileScanResult> = Vec::new();
    assert(all.subrange(all.len() as int, all.len() as int) =~= Seq::<(String, StructSummary)>::empty());
    while rows.len() > 0
        invariant
            rows@.len() <= all.len(),
            rows@ == all.subrange(0, rows@.len() as int),
            grouped(files@, all.subrange(rows@.len() as int, all.len() as int)),
        decreases rows@.len(),
    {
        let ghost n = rows@.len() as int;
        let ghost rest = all.subrange(n, all.len() as int);
        let (path, s) = match rows.pop() {
            Some(row) => row,
            None => {
                return files;
            },
        };
        assert((path, s) == all[n - 1]);
        assert(rows@ =~= all.subrange(0, n - 1));
        assert(seq![(path, s)] + rest =~= all.subrange(n - 1, all.len() as int));
        add_row(&mut files, path, s, Ghost(rest));
    }
    assert(all.subrange(0, all.len() as int) =~= all);
    files
}

/// The number of results the groups hold together.
pub open spec fn group_sizes(files: Seq<FileScanResult>) -> int
    decreases files.len(),
{
    if files.len() == 0 {
        0
    } else {
        group_sizes(files.drop_last()) + files.last().structs@.len()
    }
}

/// The number of results of `rows` whose path is one of `paths`, counting a
/// path as often as it occurs.
pub open spec fn count_rows(rows: Seq<(String, StructSummary)>, paths: Seq<Seq<char>>) -> int
    decreases paths.len(),
{
    if paths.len() == 0 {
        0
    } else {
        count_rows(rows, paths.drop_last()) + rows_for(rows, paths.last()).len()
    }
}

/// How often `x` occurs in `ps`.
pub open spec fn occurrences(ps: Seq<Seq<char>>, x: Seq<char>) -> int
    decreases ps.len(),
{
    if ps.len() == 0 {
        0
    } else {
        occurrences(ps.drop_last(), x) + if ps.last() == x {
            1int
        } else {
            0int
        }
    }
}

pub open spec fn file_paths(files: Seq<FileScanResult>) -> Seq<Seq<char>> {
    files.map_values(|f: FileScanResult| f.file_path@)
}

proof fn lemma_count_rows_cons(row: (String, StructSummary), rest: Seq<(String, StructSummary)>, ps: Seq<Seq<char>>)
    ensures
        count_rows(seq![row] + rest, ps) == count_rows(rest, ps) + occurrences(ps, row.0@),
    decreases ps.len(),
{
    if ps.len() > 0 {
        lemma_count_rows_cons(row, rest, ps.drop_last());
        lemma_rows_for_cons(row, rest, ps.last());
    }
}

proof fn lemma_occurrences_absent(ps: Seq<Seq<char>>, x: Seq<char>)
    requires
        forall|i: int| 0 <= i < ps.len() ==> ps[i] != x,
    ensures
        occurrences(ps, x) == 0,
    decreases ps.len(),
{
    if ps.len() > 0 {
        lemma_occurrences_absent(ps.drop_last(), x);
    }
}

proof fn lemma_occurrences_once(ps: Seq<Seq<char>>, x: Seq<char>, k: int)
    requires
        forall|i: int, j: int| 0 <= i < j < ps.len() ==> ps[i] != ps[j],
        0 <= k < ps.len(),
        ps[k] == x,
    ensures
        occurrences(ps, x) == 1,
    decreases ps.len(),
{
    let h = ps.drop_last();
    if k == ps.len() - 1 {
        assert forall|i: int| 0 <= i < h.len() implies h[i] != x by {
            assert(h[i] == ps[i]);
        }
        lemma_occurrences_absent(h, x);
    } else {
        assert(h[k] == x);
        lemma_occurrences_once(h, x, k);
    }
}

proof fn lemma_count_rows_all(rows: Seq<(String, StructSummary)>, ps: Seq<Seq<char>>)
    requires
        forall|i: int, j: int| 0 <= i < j < ps.len() ==> ps[i] != ps[j],
        forall|k: int| 0 <= k < rows.len() ==> ps.contains((#[trigger] rows[k]).0@),
    ensures
        count_rows(rows, ps) == rows.len(),
    decreases rows.len(),
{
    if rows.len() == 0 {
        assert(count_rows(rows, ps) == 0) by {
            lemma_count_rows_empty(rows, ps);
        }
    } else {
        let row = rows[0];
        let rest = rows.drop_first();
        assert(seq![row] + rest =~= rows);
        assert forall|k: int| 0 <= k < rest.len() implies ps.contains((#[trigger] rest[k]).0@) by {
            assert(rest[k] == rows[k + 1]);
        }
        lemma_count_rows_all(rest, ps);
        lemma_count_rows_cons(row, rest, ps);
        assert(ps.contains(rows[0].0@));
        let k = choose|k: int| 0 <= k < ps.len() && ps[k] == row.0@;
        lemma_occurrences_once(ps, row.0@, k);
    }
}

proof fn lemma_count_rows_empty(rows: Seq<(String, StructSummary)>, ps: Seq<Seq<char>>)
    requires
        rows.len() == 0,
    ensures
        count_rows(rows, ps) == 0,
    decreases ps.len(),
{
    if ps.len() > 0 {
        lemma_count_rows_empty(rows, ps.drop_last());
    }
}

proof fn lemma_group_sizes_count(files: Seq<FileScanResult>, rows: Seq<(String, StructSummary)>)
    requires
        forall|i: int| 0 <= i < files.len() ==> #[trigger] files[i].structs@ == rows_for(rows, files[i].file_path@),
    ensures
        group_sizes(files) == count_rows(rows, file_paths(files)),
    decreases files.len(),
{
    if files.len() > 0 {
        let h = files.drop_last();
        assert forall|i: int| 0 <= i < h.len() implies #[trigger] h[i].structs@ == rows_for(rows, h[i].file_path@) by {
            assert(h[i] == files[i]);
        }
        lemma_group_sizes_count(h, rows);
        assert(file_paths(files).drop_last() =~= file_paths(h));
        assert(file_paths(files).last() == files.last().file_path@);
        assert(files.last() == files[files.len() - 1]);
    }
}

/// Grouping loses and repeats no result: the groups hold, together, as many
/// results as there were rows.
pub proof fn lemma_grouping_keeps_every_row(files: Seq<FileScanResult>, rows: Seq<(String, StructSummary)>)
    requires
        grouped(files, rows),
    ensures
        group_sizes(files) == rows.len(),
{
    let ps = file_paths(files);
    lemma_group_sizes_count(files, rows);
    assert forall|i: int, j: int| 0 <= i < j < ps.len() implies ps[i] != ps[j] by {
        assert(seq_lt(files[i].file_path@, files[j].file_path@));
        lemma_seq_lt_order(files[i].file_path@, files[j].file_path@, files[j].file_path@);
    }
    assert forall|k: int| 0 <= k < rows.len() implies ps.contains((#[trigger] rows[k]).0@) by {
        let i = choose|i: int| 0 <= i < files.len() && files[i].file_path@ == (#[trigger] rows[k]).0@;
        assert(ps[i] == rows[k].0@);
    }
    lemma_count_rows_all(rows, ps);
}

/// Within each file path, the rows come in order of line number.
pub open spec fn lines_ordered(rows: Seq<(String, StructSummary)>) -> bool {
    forall|i: int, j: int|
        0 <= i < j < rows.len() && (#[trigger] rows[i]).0@ == (#[trigger] rows[j]).0@ ==> rows[i].1.line_number
            <= rows[j].1.line_number
}

/// The results come in order of line number.
pub open spec fn by_line(ss: Seq<StructSummary>) -> bool {
    forall|i: int, j: int| 0 <= i < j < ss.len() ==> (#[trigger] ss[i]).line_number <= (#[trigger] ss[j]).line_number
}

proof fn lemma_rows_for_lines_at_least(rows: Seq<(String, StructSummary)>, path: Seq<char>, bound: int)
    requires
        forall|k: int| 0 <= k < rows.len() && (#[trigger] rows[k]).0@ == path ==> rows[k].1.line_number >= bound,
    ensures
        forall|m: int| 0 <= m < rows_for(rows, path).len() ==> (#[trigger] rows_for(rows, path)[m]).line_number >= bound,
    decreases rows.len(),
{
    if rows.len() > 0 {
        let rest = rows.drop_first();
        assert forall|k: int| 0 <= k < rest.len() && (#[trigger] rest[k]).0@ == path implies rest[k].1.line_number >= bound by {
            assert(rest[k] == rows[k + 1]);
        }
        lemma_rows_for_lines_at_least(rest, path, bound);
        let head: Seq<StructSummary> = if rows[0].0@ == path {
            seq![rows[0].1]
        } else {
            seq![]
        };
        assert(rows_for(rows, path) == head + rows_for(rest, path));
        assert forall|m: int| 0 <= m < rows_for(rows, path).len() implies (#[trigger] rows_for(rows, path)[m]).line_number
            >= bound by {
            if m >= head.len() {
                assert(rows_for(rows, path)[m] == rows_for(rest, path)[m - head.len()]);
            }
        }
    }
}

proof fn lemma_rows_for_by_line(rows: Seq<(String, StructSummary)>, path: Seq<char>)
    requires
        lines_ordered(rows),
    ensures
        by_line(rows_for(rows, path)),
    decreases rows.len(),
{
    if rows.len() > 0 {
        let rest = rows.drop_first();
        assert(lines_ordered(rest)) by {
            assert forall|i: int, j: int|
                0 <= i < j < rest.len() && (#[trigger] rest[i]).0@ == (#[trigger] rest[j]).0@ implies rest[i].1.line_number
                <= rest[j].1.line_number by {
                assert(rest[i] == rows[i + 1] && rest[j] == rows[j + 1]);
            }
        }
        lemma_rows_for_by_line(rest, path);
        let tail = rows_for(rest, path);
        if rows[0].0@ == path {
            assert forall|k: int| 0 <= k < rest.len() && (#[trigger] rest[k]).0@ == path implies rest[k].1.line_number
                >= rows[0].1.line_number by {
                assert(rest[k] == rows[k + 1]);
                assert(rows[0].0@ == rows[k + 1].0@);
            }
            lemma_rows_for_lines_at_least(rest, path, rows[0].1.line_number as int);
            let all = seq![rows[0].1] + tail;
            assert(rows_for(rows, path) == all);
            assert forall|i: int, j: int| 0 <= i < j < all.len() implies (#[trigger] all[i]).line_number <= (
            #[trigger] all[j]).line_number by {
                if i == 0 {
                    assert(all[j] == tail[j - 1]);
                } else {
                    assert(all[i] == tail[i - 1] && all[j] == tail[j - 1]);
                }
            }
        } else {
            assert(rows_for(rows, path) =~= tail);
        }
    }
}

/// Rows that come in order of line number within each file give groups in
/// order of line number.
pub proof fn lemma_grouping_keeps_line_order(files: Seq<FileScanResult>, rows: Seq<(String, StructSummary)>)
    requires
        grouped(files, rows),
        lines_ordered(rows),
    ensures
        forall|i: int| 0 <= i < files.len() ==> by_line(#[trigger] files[i].structs@),
{
    assert forall|i: int| 0 <= i < files.len() implies by_line(#[trigger] files[i].structs@) by {
        lemma_rows_for_by_line(rows, files[i].file_path@);
    }
}

/// A lower-case hexadecimal digit.
pub open spec fn hex_digit(n: int) -> char {
    if n < 10 {
        (48 + n) as char
    } else {
        (87 + n) as char
    }
}

/// A character as serde_json writes it inside a JSON string: `"` and `\`
/// behind a backslash, the control characters with short escapes as
/// `\b \t \n \f \r`, the other control characters as `\u00XX`, and every
/// other character as it is.
pub open spec fn json_escaped_char(c: char) -> Seq<char> {
    if c == '"' {
        seq!['\\', '"']
    } else if c == '\\' {
        seq!['\\', '\\']
    } else if c == '\x08' {
        seq!['\\', 'b']
    } else if c == '\t' {
        seq!['\\', 't']
    } else if c == '\n' {
        seq!['\\', 'n']
    } else if c == '\x0c' {
        seq!['\\', 'f']
    } else if c == '\r' {
        seq!['\\', 'r']
    } else if (c as int) < 0x20 {
        seq!['\\', 'u', '0', '0', hex_digit((c as int) / 16), hex_digit((c as int) % 16)]
    } else {
        seq![c]
    }
}

/// The characters of `s`, each as serde_json writes it in a JSON string.
pub open spec fn json_escaped(s: Seq<char>) -> Seq<char>
    decreases s.len(),
{
    if s.len() == 0 {
        seq![]
    } else {
        json_escaped(s.drop_last()) + json_escaped_char(s.last())
    }
}

/// A JSON string literal, as serde_json writes it.
pub open spec fn json_string(s: Seq<char>) -> Seq<char> {
    seq!['"'] + json_escaped(s) + seq!['"']
}

/// The string literals of `v`, separated by commas.
pub open spec fn json_items(v: Seq<Seq<char>>) -> Seq<char>
    decreases v.len(),
{
    if v.len() == 0 {
        seq![]
    } else if v.len() == 1 {
        json_string(v[0])
    } else {
        json_items(v.drop_last()) + seq![','] + json_string(v.last())
    }
}

/// The JSON text that serde_json writes for a list of strings: the string
/// literals between `[` and `]`, separated by commas, with no spaces.
pub open spec fn json_of_strings(v: Seq<Seq<char>>) -> Seq<char> {
    seq!['['] + json_items(v) + seq![']']
}

/// The list of strings that serde_json reads from a text, if the text is a
/// JSON array of strings.
pub uninterp spec fn json_string_list(s: Seq<char>) -> Option<Seq<Seq<char>>>;

/// `serde_json::to_string` on a list of strings. The call fails only where a
/// `Serialize` impl fails or a map has a key that is no string; neither can
/// happen to strings, so the result is always there: the compact array that
/// `json_of_strings` spells out (serde_json's `CompactFormatter` and its
/// `ESCAPE` table).
#[verifier::external_body]
fn strings_to_json(v: &Vec<String>) -> (r: Option<String>)
    ensures
        opt_text(r) == Some(json_of_strings(texts(v@))),
{
    serde_json::to_string(v).ok()
}

/// `serde_json::from_str` into a list of strings: `None` where the text is
/// not a JSON array of strings. Which list a text reads as is named, not
/// stated; but a text that `serde_json::to_string` wrote for a list reads
/// back as that list (the writer escapes in strings exactly what the reader
/// unescapes).
#[verifier::external_body]
fn strings_from_json(s: &str) -> (r: Option<Vec<String>>)
    ensures
        match r {
            Some(v) => json_string_list(s@) == Some(texts(v@)) && forall|l: Seq<Seq<char>>|
                s@ == #[trigger] json_of_strings(l) ==> texts(v@) == l,
            None => json_string_list(s@) is None && forall|l: Seq<Seq<char>>| s@ != #[trigger] json_of_strings(l),
        },
{
    serde_json::from_str::<Vec<String>>(s).ok()
}

/// The uppercase form of a text, as `str::to_uppercase` computes it.
pub uninterp spec fn uppercase(s: Seq<char>) -> Seq<char>;

/// `str::to_uppercase`: the uppercase form of `s` by Unicode's case
/// mappings, which the name stands for.
#[verifier::external_body]
fn to_uppercase(s: &str) -> (r: String)
    ensures
        r@ == uppercase(s@),
{
    s.to_uppercase()
}

/// The text stored for a scan's ignore patterns: their JSON array, or `[]`
/// where it cannot be written.
pub fn patterns_to_column(ignore_patterns: &Vec<String>) -> (r: String)
    ensures
        r@ == json_of_strings(texts(ignore_patterns@)),
{
    match strings_to_json(ignore_patterns) {
        Some(t) => t,
        None => String::from_str("[]"),
    }
}

/// The ignore patterns read back from their stored text; none where the text
/// is not a JSON array of strings. Patterns read back from the text that
/// `patterns_to_column` stored for them are those patterns.
pub fn patterns_from_column(column: &str) -> (r: Vec<String>)
    ensures
        texts(r@) == match json_string_list(column@) {
            Some(v) => v,
            None => Seq::<Seq<char>>::empty(),
        },
        forall|v: Seq<Seq<char>>| column@ == #[trigger] json_of_strings(v) ==> texts(r@) == v,
{
    match strings_from_json(column) {
        Some(v) => v,
        None => {
            let v: Vec<String> = Vec::new();
            assert(texts(v@) =~= Seq::<Seq<char>>::empty());
            v
        },
    }
}

/// The language stored for a scan: the option's language in upper case.
pub fn language_column(language: &str) -> (r: String)
    ensures
        r@ == uppercase(language@),
{
    to_uppercase(language)
}

/// A stored text that may be missing, with the default that stands in for it.
pub open spec fn text_or(o: Option<String>, default: Seq<char>) -> Seq<char> {
    match o {
        Some(t) => t@,
        None => default,
    }
}

fn string_or(o: Option<String>, default: &str) -> (r: String)
    ensures
        r@ == text_or(o, default@),
{
    match o {
        Some(t) => t,
        None => String::from_str(default),
    }
}

/// A scan of the history, read from its stored columns: the ignore patterns
/// from their JSON text, and `GO` for a scan stored without a language.
pub fn scan_summary_from_columns(
    id: i64,
    repo_path: String,
    scanned_at: i64,
    total_structs: i64,
    padded_structs: i64,
    bytes_saved: i64,
    patterns_json: &str,
    target_arch: String,
    language: Option<String>,
) -> (r: ScanSummary)
    ensures
        r.id == id,
        r.repo_path == repo_path,
        r.scanned_at == scanned_at,
        r.total_structs == total_structs,
        r.padded_structs == padded_structs,
        r.bytes_saved == bytes_saved,
        texts(r.ignore_patterns@) == match json_string_list(patterns_json@) {
            Some(v) => v,
            None => Seq::<Seq<char>>::empty(),
        },
        forall|v: Seq<Seq<char>>| patterns_json@ == #[trigger] json_of_strings(v) ==> texts(r.ignore_patterns@) == v,
        r.target_arch == target_arch,
        r.language@ == text_or(language, "GO"@),
{
    ScanSummary {
        id,
        repo_path,
        scanned_at,
        total_structs,
        padded_structs,
        bytes_saved,
        ignore_patterns: patterns_from_column(patterns_json),
        target_arch,
        language: string_or(language, "GO"),
    }
}

/// A declaration's result, read from its stored columns: a flag is set where
/// its column is not 0, and a result stored without a kind is a `struct`.
pub fn struct_summary_from_columns(
    id: i64,
    struct_name: String,
    line_number: i64,
    current_size: i64,
    optimal_size: i64,
    bytes_saved: i64,
    has_generics: i64,
    has_embedded: i64,
    declaration_kind: Option<String>,
) -> (r: StructSummary)
    ensures
        r.id == id,
        r.struct_name == struct_name,
        r.line_number == line_number,
        r.current_size == current_size,
        r.optimal_size == optimal_size,
        r.bytes_saved == bytes_saved,
        r.has_generics == (has_generics != 0),
        r.has_embedded == (has_embedded != 0),
        r.declaration_kind@ == text_or(declaration_kind, "struct"@),
{
    StructSummary {
        id,
        struct_name,
        line_number,
        current_size,
        optimal_size,
        bytes_saved,
        has_generics: has_generics != 0,
        has_embedded: has_embedded != 0,
        declaration_kind: string_or(declaration_kind, "struct"),
    }
}

/// A declaration's full result, read from its stored columns, with the same
/// readings of flags and kind as `struct_summary_from_columns`.
pub fn struct_detail_from_columns(
    id: i64,
    scan_id: i64,
    file_path: String,
    struct_name: String,
    line_number: i64,
    sizes: (i64, i64, i64),
    current_def: String,
    optimized_def: String,
    has_generics: i64,
    has_embedded: i64,
    declaration_kind: Option<String>,
) -> (r: StructDetail)
    ensures
        r.id == id,
        r.scan_id == scan_id,
        r.file_path == file_path,
        r.struct_name == struct_name,
        r.line_number == line_number,
        r.current_size == sizes.0,
        r.optimal_size == sizes.1,
        r.bytes_saved == sizes.2,
        r.current_def == current_def,
        r.optimized_def == optimized_def,
        r.has_generics == (has_generics != 0),
        r.has_embedded == (has_embedded != 0),
        r.declaration_kind@ == text_or(declaration_kind, "struct"@),
{
    StructDetail {
        id,
        scan_id,
        file_path,
        struct_name,
        line_number,
        current_size: sizes.0,
        optimal_size: sizes.1,
        bytes_saved: sizes.2,
        current_def,
        optimized_def,
        has_generics: has_generics != 0,
        has_embedded: has_embedded != 0,
        declaration_kind: string_or(declaration_kind, "struct"),
    }
}

} // verus!
