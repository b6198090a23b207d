//! The spool of a run: one file of JSON lines for each resource.

use vstd::prelude::*;
use crate::json::{
    json_parse, json_text, plain, readable, reads_alike, show_json, Json, JsonView, MAX_DEPTH,
};
use crate::text::{parts, same, sorted, sorted_from, texts};

verus! {

/// The spool of one run, a directory of its own.
#[derive(Debug)]
pub struct RunSpool {
    pub dir: String,
}

/// A file of the spool that is being written.
#[derive(Debug)]
pub struct SpoolWriter {
    pub file: String,
    pub rows: u64,
}

impl RunSpool {
    /// The spool of a run, named after it.
    pub fn create(run_id: &str) -> (r: RunSpool)
        ensures
            r.dir@ == run_id@,
    {
        RunSpool { dir: run_id.to_owned() }
    }

    /// The file of a resource, with nothing in it.
    pub fn writer(&self, resource: &str) -> (r: SpoolWriter)
        ensures
            r.file@ == resource@ + ".ndjson"@,
            r.rows == 0,
    {
        let mut file = resource.to_owned();
        file.append(".ndjson");
        SpoolWriter { file, rows: 0 }
    }
}

/// The line that a row becomes.
pub open spec fn row_line(row: JsonView) -> Seq<char> {
    json_text(row).push('\n')
}

impl SpoolWriter {
    /// Writes one more row: the line for it, whose only line break is its end.
    pub fn write_row(&mut self, row: &Json) -> (r: String)
        requires
            old(self).rows < u64::MAX,
        ensures
            r@ == row_line(row@),
            !r@.drop_last().contains('\n'),
            plain(row@, MAX_DEPTH as nat) ==> json_parse(r@.drop_last()) == Some(row@),
            readable(row@, MAX_DEPTH as nat) ==> reads_alike(r@.drop_last(), row@),
            final(self).rows == old(self).rows + 1,
            final(self).file == old(self).file,
    {
        let mut line = show_json(row);
        let ghost form = line@;
        line.push('\n');
        assert(line@.drop_last() =~= form);
        self.rows = self.rows + 1;
        line
    }

    /// The file and how many rows it has.
    pub fn finish(self) -> (r: (String, u64))
        ensures
            r.0@ == self.file@,
            r.1 == self.rows,
    {
        (self.file, self.rows)
    }
}

/// The text of a file with these lines.
pub open spec fn file_text(lines: Seq<Seq<char>>) -> Seq<char>
    decreases lines.len(),
{
    if lines.len() == 0 {
        Seq::empty()
    } else {
        file_text(lines.drop_last()) + lines.last().push('\n')
    }
}

proof fn lemma_parts_extend(a: Seq<char>, b: Seq<char>, c: char)
    requires
        !b.contains(c),
    ensures
        parts(a + b, c) == parts(a, c).drop_last().push(parts(a, c).last() + b),
    decreases b.len(),
{
    crate::text::lemma_parts_some(a, c);
    if b.len() == 0 {
        assert(a + b =~= a);
        assert(parts(a, c).last() + b =~= parts(a, c).last());
        assert(parts(a, c).drop_last().push(parts(a, c).last()) =~= parts(a, c));
    } else {
        let shorter = b.drop_last();
        assert(!shorter.contains(c)) by {
            if shorter.contains(c) {
                let i = choose|i: int| 0 <= i < shorter.len() && shorter[i] == c;
                assert(b[i] == c);
            }
        }
        assert(b.last() == b[b.len() - 1]);
        assert(b.contains(b.last()));
        lemma_parts_extend(a, shorter, c);
        assert((a + b).drop_last() =~= a + shorter);
        assert((a + b).last() == b.last());
        let before = parts(a, c).drop_last().push(parts(a, c).last() + shorter);
        assert(before.drop_last() =~= parts(a, c).drop_last());
        assert((parts(a, c).last() + shorter).push(b.last()) =~= parts(a, c).last() + b);
    }
}

/// Each row is one line: a file whose rows have no line break in them falls into exactly its rows
/// when it is cut at its line breaks, with nothing behind the last.
pub proof fn law_each_row_is_one_line(lines: Seq<Seq<char>>)
    requires
        forall|i: int| 0 <= i < lines.len() ==> !(#[trigger] lines[i]).contains('\n'),
    ensures
        parts(file_text(lines), '\n') == lines.push(Seq::empty()),
    decreases lines.len(),
{
    if lines.len() == 0 {
        assert(lines.push(Seq::<char>::empty()) =~= seq![Seq::<char>::empty()]);
    } else {
        let head = lines.drop_last();
        let line = lines.last();
        assert(line == lines[lines.len() - 1]);
        assert forall|i: int| 0 <= i < head.len() implies !(#[trigger] head[i]).contains('\n') by {
            assert(head[i] == lines[i]);
        }
        law_each_row_is_one_line(head);
        let before = file_text(head);
        lemma_parts_extend(before, line, '\n');
        let open = before + line;
        assert(file_text(lines) =~= open.push('\n'));
        assert(open.push('\n').drop_last() =~= open);
        assert(parts(before, '\n').last() == Seq::<char>::empty());
        assert(Seq::<char>::empty() + line =~= line);
        assert(parts(open, '\n') =~= lines);
    }
}

// ---- leftovers ----

/// The directories that earlier runs left behind: all but the one to keep.
pub open spec fn orphans(entries: Seq<(String, bool)>, keep: Seq<char>) -> Seq<Seq<char>>
    decreases entries.len(),
{
    if entries.len() == 0 {
        Seq::empty()
    } else {
        let before = orphans(entries.drop_last(), keep);
        let e = entries.last();
        if e.1 && e.0@ != keep {
            before.push(e.0@)
        } else {
            before
        }
    }
}

/// The directories to remove, sorted. Each entry of the spool root is its name and whether it is a
/// directory.
pub fn sweep_orphans(entries: &Vec<(String, bool)>, keep_run_id: &str) -> (r: Vec<String>)
    ensures
        sorted_from(texts(r@), orphans(entries@, keep_run_id@)),
{
    let mut out: Vec<String> = Vec::new();
    let mut i: usize = 0;
    assert(texts(out@) =~= orphans(entries@.take(0), keep_run_id@));
    while i < entries.len()
        invariant
            i <= entries@.len(),
            texts(out@) == orphans(entries@.take(i as int), keep_run_id@),
        decreases entries@.len() - i,
    {
        let ghost had = out@;
        assert(entries@.take(i + 1).drop_last() =~= entries@.take(i as int));
        if entries[i].1 && !same(&entries[i].0, keep_run_id) {
            let name = entries[i].0.clone();
            out.push(name);
            assert(texts(out@) =~= texts(had).push(name@));
        }
        i += 1;
    }
    assert(entries@.take(entries@.len() as int) =~= entries@);
    sorted(out)
}

/// The spool of the run itself is never swept.
pub proof fn law_own_spool_is_kept(entries: Seq<(String, bool)>, keep: Seq<char>)
    ensures
        !orphans(entries, keep).contains(keep),
    decreases entries.len(),
{
    if entries.len() > 0 {
        law_own_spool_is_kept(entries.drop_last(), keep);
        let before = orphans(entries.drop_last(), keep);
        let now = orphans(entries, keep);
        if now.contains(keep) {
            let i = choose|i: int| 0 <= i < now.len() && now[i] == keep;
            if i < before.len() {
                assert(before[i] == keep);
            }
        }
    }
}

/// A row becomes its text and one line break behind it.
pub proof fn law_line_is_text_and_break(row: JsonView)
    ensures
        row_line(row).len() == json_text(row).len() + 1,
        row_line(row).drop_last() == json_text(row),
        row_line(row).last() == '\n',
{
    assert(row_line(row).drop_last() =~= json_text(row));
}

/// Everything that earlier runs left behind is swept, and nothing else: each directory but the one
/// to keep, and no file.
pub proof fn law_leftovers_are_swept(entries: Seq<(String, bool)>, keep: Seq<char>, name: Seq<char>)
    ensures
        orphans(entries, keep).contains(name) <==> name != keep && exists|i: int|
            0 <= i < entries.len() && (#[trigger] entries[i]).0@ == name && entries[i].1,
    decreases entries.len(),
{
    let all = orphans(entries, keep);
    if entries.len() > 0 {
        let rest = entries.drop_last();
        let n = entries.len() - 1;
        let before = orphans(rest, keep);
        law_leftovers_are_swept(rest, keep, name);
        if all.contains(name) {
            let k = choose|k: int| 0 <= k < all.len() && all[k] == name;
            if k < before.len() {
                assert(before[k] == name);
                assert(before.contains(name));
                let i = choose|i: int|
                    0 <= i < rest.len() && (#[trigger] rest[i]).0@ == name && rest[i].1;
                assert(entries[i] == rest[i]);
            } else {
                assert(entries[n].0@ == name);
            }
        }
        if name != keep && exists|i: int|
            0 <= i < entries.len() && (#[trigger] entries[i]).0@ == name && entries[i].1 {
            let i = choose|i: int|
                0 <= i < entries.len() && (#[trigger] entries[i]).0@ == name && entries[i].1;
            if i < n {
                assert(rest[i] == entries[i]);
                assert(before.contains(name));
                let k = choose|k: int| 0 <= k < before.len() && before[k] == name;
                assert(all[k] == name);
            } else {
                assert(all[before.len() as int] == name);
            }
        }
    }
}

} // verus!
