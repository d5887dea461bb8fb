//! The scanner: splits text into lines, drives the matcher over each line,
//! and formats the matching records, for a single file or for the entries
//! of a directory walk.

use vstd::prelude::*;
use vstd::string::StrSliceExecFns;
use vstd::string::StringExecFns;

use crate::matcher::CompiledPattern;

verus! {

/// The position of the first line feed in `s`, or `s.len()` if there is none.
pub open spec fn first_nl(s: Seq<char>) -> int
    decreases s.len(),
{
    if s.len() == 0 {
        0
    } else if s[0] == '\n' {
        0
    } else {
        1 + first_nl(s.drop_first())
    }
}

/// `first_nl` points at the first line feed: nothing before it is one, and
/// it is one itself unless the text holds none at all.
pub proof fn lemma_first_nl_bounds(s: Seq<char>)
    ensures
        0 <= first_nl(s) <= s.len(),
        forall|k: int| 0 <= k < first_nl(s) ==> s[k] != '\n',
        first_nl(s) < s.len() ==> s[first_nl(s)] == '\n',
    decreases s.len(),
{
    if s.len() == 0 {
    } else if s[0] == '\n' {
    } else {
        lemma_first_nl_bounds(s.drop_first());
        assert forall|k: int| 0 <= k < first_nl(s) implies s[k] != '\n' by {
            if k > 0 {
                assert(s.drop_first()[k - 1] != '\n');
            }
        }
    }
}

/// A position with no line feed before it, and a line feed at it (or the
/// end of the text), is where `first_nl` points.
pub proof fn lemma_first_nl_is(s: Seq<char>, i: int)
    requires
        0 <= i <= s.len(),
        forall|k: int| 0 <= k < i ==> s[k] != '\n',
        i < s.len() ==> s[i] == '\n',
    ensures
        first_nl(s) == i,
    decreases s.len(),
{
    if s.len() == 0 {
    } else if s[0] == '\n' {
        assert(i == 0);
    } else {
        assert(i >= 1);
        lemma_first_nl_is(s.drop_first(), i - 1);
    }
}

/// Strips one trailing carriage return: the remnant a "\r\n" terminator
/// leaves on a line once the line feed is consumed.
pub open spec fn chomp_cr(l: Seq<char>) -> Seq<char> {
    if l.len() > 0 && l.last() == '\r' {
        l.drop_last()
    } else {
        l
    }
}

/// The lines of a text: split at each line feed, with a carriage return
/// directly before the line feed not part of the line; a final
/// unterminated line is still a line, and a trailing terminator does not
/// open an empty one.
pub open spec fn spec_lines(s: Seq<char>) -> Seq<Seq<char>>
    decreases s.len(),
    via spec_lines_decreases
{
    if s.len() == 0 {
        Seq::empty()
    } else {
        let i = first_nl(s);
        if i == s.len() {
            seq![s]
        } else {
            seq![chomp_cr(s.subrange(0, i))] + spec_lines(s.subrange(i + 1, s.len() as int))
        }
    }
}

#[via_fn]
proof fn spec_lines_decreases(s: Seq<char>) {
    lemma_first_nl_bounds(s);
}

/// The views of a vector of owned strings.
pub open spec fn views_of(v: Seq<String>) -> Seq<Seq<char>> {
    v.map_values(|l: String| l@)
}

/// Splits a text into its lines, as `spec_lines` describes them.
pub fn split_lines(content: &str) -> (lines: Vec<String>)
    ensures
        views_of(lines@) == spec_lines(content@),
{
    let n: usize = content.unicode_len();
    let mut lines: Vec<String> = Vec::new();
    let mut start: usize = 0;
    let mut i: usize = 0;
    proof {
        assert(content@.subrange(0, n as int) =~= content@);
        assert(views_of(lines@) + spec_lines(content@) =~= spec_lines(content@));
    }
    while i < n
        invariant
            start <= i <= n,
            n == content@.len(),
            forall|k: int| start <= k < i ==> content@[k] != '\n',
            spec_lines(content@) == views_of(lines@) + spec_lines(
                content@.subrange(start as int, n as int),
            ),
        decreases n - i,
    {
        if content.get_char(i) == '\n' {
            let end: usize = if i > start && content.get_char(i - 1) == '\r' {
                i - 1
            } else {
                i
            };
            let piece: &str = content.substring_char(start, end);
            proof {
                let rest = content@.subrange(start as int, n as int);
                assert forall|k: int| 0 <= k < i - start implies rest[k] != '\n' by {
                    assert(content@[start + k] != '\n');
                }
                lemma_first_nl_is(rest, i - start);
                assert(rest.subrange(0, i - start) =~= content@.subrange(start as int, i as int));
                if end == i {
                    if i > start {
                        assert(rest.subrange(0, i - start).last() == content@[i - 1]);
                    }
                    assert(chomp_cr(rest.subrange(0, i - start)) =~= piece@);
                } else {
                    assert(rest.subrange(0, i - start).last() == content@[i - 1]);
                    assert(chomp_cr(rest.subrange(0, i - start)) =~= rest.subrange(
                        0,
                        i - start,
                    ).drop_last());
                    assert(chomp_cr(rest.subrange(0, i - start)) =~= piece@);
                }
                assert(rest.subrange(i - start + 1, rest.len() as int) =~= content@.subrange(
                    i + 1,
                    n as int,
                ));
                assert(spec_lines(rest) == seq![piece@] + spec_lines(
                    content@.subrange(i + 1, n as int),
                ));
            }
            let ghost old_views = views_of(lines@);
            lines.push(piece.to_owned());
            proof {
                assert(views_of(lines@) =~= old_views + seq![piece@]);
                assert(views_of(lines@) + spec_lines(content@.subrange(i + 1, n as int)) =~= (
                old_views + (seq![piece@] + spec_lines(content@.subrange(i + 1, n as int)))));
            }
            start = i + 1;
        }
        i += 1;
    }
    proof {
        let rest = content@.subrange(start as int, n as int);
        if start < n {
            lemma_first_nl_is(rest, rest.len() as int);
            assert(spec_lines(rest) == seq![rest]);
            assert(spec_lines(content@) == views_of(lines@) + seq![rest]);
        }
    }
    if start < n {
        let piece: &str = content.substring_char(start, n);
        let ghost old_views = views_of(lines@);
        lines.push(piece.to_owned());
        proof {
            assert(piece@ =~= content@.subrange(start as int, n as int));
            assert(views_of(lines@) =~= old_views + seq![piece@]);
        }
    } else {
        proof {
            assert(content@.subrange(start as int, n as int).len() == 0);
            assert(views_of(lines@) + spec_lines(content@.subrange(start as int, n as int))
                =~= views_of(lines@));
        }
    }
    lines
}

/// The match predicate of one compiled pattern, as a function on line views.
pub open spec fn line_pred(c: CompiledPattern) -> spec_fn(Seq<char>) -> bool {
    |l: Seq<char>| c.matches_line(l)
}

/// The lines of `content` on which the compiled pattern's verdict is true,
/// in the order they stand in the text.
pub open spec fn matching_lines(c: CompiledPattern, content: Seq<char>) -> Seq<Seq<char>> {
    spec_lines(content).filter(line_pred(c))
}

/// Scans the text of one file: every line on which the pattern's verdict
/// is true, in order, and no other.
pub fn scan_content(c: &CompiledPattern, content: &str) -> (out: Vec<String>)
    requires
        c.wf(),
    ensures
        views_of(out@) == matching_lines(*c, content@),
{
    let lines = split_lines(content);
    let mut out: Vec<String> = Vec::new();
    let mut idx: usize = 0;
    while idx < lines.len()
        invariant
            c.wf(),
            idx <= lines@.len(),
            views_of(lines@) == spec_lines(content@),
            views_of(out@) == views_of(lines@).subrange(0, idx as int).filter(line_pred(*c)),
        decreases lines@.len() - idx,
    {
        proof {
            reveal(Seq::filter);
            assert(views_of(lines@).subrange(0, idx + 1).drop_last() =~= views_of(
                lines@,
            ).subrange(0, idx as int));
            assert(views_of(lines@).subrange(0, idx + 1).last() == lines@[idx as int]@);
        }
        let line: &String = &lines[idx];
        if c.is_match(line.as_str()) {
            let ghost old_views = views_of(out@);
            out.push(line.clone());
            proof {
                assert(views_of(out@) =~= old_views.push(line@));
            }
        }
        idx += 1;
    }
    proof {
        assert(views_of(lines@).subrange(0, lines@.len() as int) =~= views_of(lines@));
    }
    out
}

/// The record the scanner emits for a matching line of a walked file: the
/// file's path, a separating ": ", then the line.
pub open spec fn record_of(path: Seq<char>, line: Seq<char>) -> Seq<char> {
    path + seq![':', ' '] + line
}

/// The record former for one path, as a function on line views.
pub open spec fn record_fn(path: Seq<char>) -> spec_fn(Seq<char>) -> Seq<char> {
    |l: Seq<char>| record_of(path, l)
}

/// One entry of a directory walk handed to the scanner: the entry's path
/// and its text, or `None` where the walk or the read of this entry
/// failed.
pub struct FileEntry {
    pub path: String,
    pub content: Option<String>,
}

/// The view of an entry's content.
pub open spec fn content_view(content: Option<String>) -> Option<Seq<char>> {
    match content {
        Option::None => Option::None,
        Option::Some(s) => Option::Some(s@),
    }
}

/// The records one entry contributes: none where it could not be read,
/// else one record per matching line, in line order.
pub open spec fn entry_records(c: CompiledPattern, path: Seq<char>, content: Option<Seq<char>>) -> Seq<
    Seq<char>,
> {
    match content {
        Option::None => Seq::empty(),
        Option::Some(text) => matching_lines(c, text).map_values(record_fn(path)),
    }
}

/// The records of a whole walk: each entry's records in entry order, with
/// failed entries contributing nothing.
pub open spec fn tree_records(c: CompiledPattern, entries: Seq<FileEntry>) -> Seq<Seq<char>>
    decreases entries.len(),
{
    if entries.len() == 0 {
        Seq::empty()
    } else {
        entry_records(c, entries[0].path@, content_view(entries[0].content)) + tree_records(
            c,
            entries.drop_first(),
        )
    }
}

/// The records of one readable entry.
fn entry_output(c: &CompiledPattern, path: &str, content: &str) -> (out: Vec<String>)
    requires
        c.wf(),
    ensures
        views_of(out@) == entry_records(*c, path@, Option::Some(content@)),
{
    let lines = split_lines(content);
    let mut out: Vec<String> = Vec::new();
    let mut idx: usize = 0;
    while idx < lines.len()
        invariant
            c.wf(),
            idx <= lines@.len(),
            views_of(lines@) == spec_lines(content@),
            views_of(out@) == views_of(lines@).subrange(0, idx as int).filter(
                line_pred(*c),
            ).map_values(record_fn(path@)),
        decreases lines@.len() - idx,
    {
        proof {
            reveal(Seq::filter);
            assert(views_of(lines@).subrange(0, idx + 1).drop_last() =~= views_of(
                lines@,
            ).subrange(0, idx as int));
            assert(views_of(lines@).subrange(0, idx + 1).last() == lines@[idx as int]@);
        }
        let line: &String = &lines[idx];
        if c.is_match(line.as_str()) {
            let mut rec: String = path.to_owned();
            rec.append(": ");
            rec.append(line.as_str());
            proof {
                reveal_strlit(": ");
                assert(rec@ =~= record_of(path@, line@));
            }
            let ghost old_views = views_of(out@);
            let ghost old_kept = views_of(lines@).subrange(0, idx as int).filter(line_pred(*c));
            out.push(rec);
            proof {
                assert(views_of(out@) =~= old_views.push(record_of(path@, line@)));
                assert(old_kept.push(lines@[idx as int]@).map_values(record_fn(path@)) =~= old_kept.map_values(
                    record_fn(path@),
                ).push(record_of(path@, lines@[idx as int]@)));
            }
        }
        idx += 1;
    }
    proof {
        assert(views_of(lines@).subrange(0, lines@.len() as int) =~= views_of(lines@));
    }
    out
}

/// Scans the entries of a directory walk: records for every line of every
/// readable entry on which the pattern's verdict is true, in entry order
/// and then in line order; entries whose walk or read failed are skipped
/// silently and contribute nothing.
pub fn scan_entries(c: &CompiledPattern, entries: &Vec<FileEntry>) -> (out: Vec<String>)
    requires
        c.wf(),
    ensures
        views_of(out@) == tree_records(*c, entries@),
{
    let mut out: Vec<String> = Vec::new();
    let mut idx: usize = 0;
    let n: usize = entries.len();
    proof {
        assert(entries@.subrange(0, n as int) =~= entries@);
        assert(views_of(out@) + tree_records(*c, entries@) =~= tree_records(*c, entries@));
    }
    while idx < n
        invariant
            c.wf(),
            idx <= n,
            n == entries@.len(),
            tree_records(*c, entries@) == views_of(out@) + tree_records(
                *c,
                entries@.subrange(idx as int, n as int),
            ),
        decreases n - idx,
    {
        proof {
            let sub = entries@.subrange(idx as int, n as int);
            assert(sub[0] == entries@[idx as int]);
            assert(sub.drop_first() =~= entries@.subrange(idx + 1, n as int));
        }
        let entry: &FileEntry = &entries[idx];
        match &entry.content {
            Option::Some(text) => {
                let mut recs = entry_output(c, entry.path.as_str(), text.as_str());
                let ghost old_out = views_of(out@);
                let ghost rec_views = views_of(recs@);
                out.append(&mut recs);
                proof {
                    assert(views_of(out@) =~= old_out + rec_views);
                    assert(views_of(out@) + tree_records(*c, entries@.subrange(idx + 1, n as int))
                        =~= old_out + (rec_views + tree_records(
                        *c,
                        entries@.subrange(idx + 1, n as int),
                    )));
                }
            },
            Option::None => {},
        }
        idx += 1;
    }
    proof {
        assert(entries@.subrange(n as int, n as int).len() == 0);
        assert(views_of(out@) + tree_records(*c, entries@.subrange(n as int, n as int)) =~= views_of(
            out@,
        ));
    }
    out
}

/// Walk records distribute over splitting the entry list: scanning a walk
/// is scanning its parts in order.
pub proof fn lemma_tree_records_concat(c: CompiledPattern, a: Seq<FileEntry>, b: Seq<FileEntry>)
    ensures
        tree_records(c, a + b) == tree_records(c, a) + tree_records(c, b),
    decreases a.len(),
{
    if a.len() == 0 {
        assert(a + b =~= b);
        assert(tree_records(c, a) + tree_records(c, b) =~= tree_records(c, b));
    } else {
        assert((a + b)[0] == a[0]);
        assert((a + b).drop_first() =~= a.drop_first() + b);
        lemma_tree_records_concat(c, a.drop_first(), b);
        assert(tree_records(c, a + b) =~= tree_records(c, a) + tree_records(c, b));
    }
}

/// Tree-walk resilience: an entry that could not be read contributes
/// nothing, so inserting one anywhere in a walk leaves the records exactly
/// those of the readable entries.
pub proof fn lemma_unreadable_entry_ignored(
    c: CompiledPattern,
    entries: Seq<FileEntry>,
    i: int,
    bad: FileEntry,
)
    requires
        0 <= i <= entries.len(),
        bad.content is None,
    ensures
        tree_records(c, entries.insert(i, bad)) == tree_records(c, entries),
{
    let pre = entries.subrange(0, i);
    let post = entries.subrange(i, entries.len() as int);
    assert(entries.insert(i, bad) =~= pre + (seq![bad] + post));
    lemma_tree_records_concat(c, pre, seq![bad] + post);
    lemma_tree_records_concat(c, seq![bad], post);
    assert(seq![bad].drop_first() =~= Seq::<FileEntry>::empty());
    assert(tree_records(c, seq![bad].drop_first()) == tree_records(c, Seq::<FileEntry>::empty()));
    assert(tree_records(c, Seq::<FileEntry>::empty()) == Seq::<Seq<char>>::empty());
    assert(seq![bad][0] == bad);
    assert(entry_records(c, bad.path@, content_view(bad.content)) == Seq::<Seq<char>>::empty());
    assert(tree_records(c, seq![bad]) =~= Seq::<Seq<char>>::empty());
    assert(tree_records(c, seq![bad] + post) =~= tree_records(c, post));
    assert(entries =~= pre + post);
    lemma_tree_records_concat(c, pre, post);
    assert(tree_records(c, entries.insert(i, bad)) =~= tree_records(c, entries));
}

} // verus!
