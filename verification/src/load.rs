//! Load jobs: how a spool file is cut into uploads, what is uploaded, and how a job is followed
//! to its end; and queries.

use vstd::prelude::*;
use vstd::utf8::{encode_utf8, valid_utf8};
use crate::admin::{bare_request, document_request, v2, ApiRequest, BqSink, Method};
use crate::error::{success, SinkError};
use crate::json::{
    array, as_text, at, elements, fields, found_text, items, json_text, lemma_found_at, no_fields,
    object, put, show_json, text, within, Json, JsonView,
};
use crate::secret::text_of_utf8;
use crate::tables::is_word;
use crate::text::{
    decimal, is_digit, lemma_decimal_digits, lemma_decimal_injective, parse_u64, parsed_u64,
    replace_char, replaced, show_u64,
};

verus! {

/// How many bytes one upload holds at most. BigQuery takes no upload of a hundred megabytes; this
/// stays below.
pub const MAX_CHUNK_BYTES: u64 = 94_371_840;

// ---- job identifiers ----

/// The identifier of the load job for one chunk of one resource of one run.
pub open spec fn job_id_text(run_id: Seq<char>, job_key: Seq<char>, chunk: nat) -> Seq<char> {
    "clarify_bq_"@ + replaced(run_id, '-', '_') + "_"@ + job_key + "_"@ + decimal(chunk)
}

/// The identifier of a load job. The same chunk of the same resource of the same run always gets
/// the same one, so that a job is never run twice.
pub fn job_id(run_id: &str, job_key: &str, chunk: usize) -> (r: String)
    ensures
        r@ == job_id_text(run_id@, job_key@, chunk as nat),
{
    let mut s = "clarify_bq_".to_owned();
    s.append(&replace_char(run_id, '-', '_'));
    s.append("_");
    s.append(job_key);
    s.append("_");
    s.append(&show_u64(chunk as u64));
    s
}

/// Whether `s` is made of ASCII letters, digits, underscores and hyphens.
pub open spec fn hyphenated_name(s: Seq<char>) -> bool {
    forall|i: int| 0 <= i < s.len() ==> is_word(#[trigger] s[i]) || s[i] == '-'
}

/// A job identifier is made of ASCII letters, digits and underscores, where the run identifier
/// may have hyphens besides.
pub proof fn law_job_ids_are_legal(run_id: Seq<char>, job_key: Seq<char>, chunk: nat)
    requires
        hyphenated_name(run_id),
        forall|i: int| 0 <= i < job_key.len() ==> is_word(#[trigger] job_key[i]),
    ensures
        forall|i: int|
            0 <= i < job_id_text(run_id, job_key, chunk).len() ==> is_word(
                #[trigger] job_id_text(run_id, job_key, chunk)[i],
            ),
{
    reveal_strlit("clarify_bq_");
    reveal_strlit("_");
    lemma_decimal_digits(chunk);
    let run = replaced(run_id, '-', '_');
    assert forall|i: int| 0 <= i < run.len() implies is_word(#[trigger] run[i]) by {
        assert(is_word(run_id[i]) || run_id[i] == '-');
    }
    let d = decimal(chunk);
    assert forall|i: int| 0 <= i < d.len() implies is_word(#[trigger] d[i]) by {
        assert(is_digit(d[i]));
    }
    let a = "clarify_bq_"@;
    let b = a + run;
    let c = b + "_"@;
    let e = c + job_key;
    let f = e + "_"@;
    assert(forall|i: int| 0 <= i < b.len() ==> is_word(#[trigger] b[i]));
    assert(forall|i: int| 0 <= i < c.len() ==> is_word(#[trigger] c[i]));
    assert(forall|i: int| 0 <= i < e.len() ==> is_word(#[trigger] e[i]));
    assert(forall|i: int| 0 <= i < f.len() ==> is_word(#[trigger] f[i]));
}

/// Within a run, different chunks and different resources never share a job identifier.
pub proof fn law_job_ids_are_distinct(
    run_id: Seq<char>,
    key_a: Seq<char>,
    chunk_a: nat,
    key_b: Seq<char>,
    chunk_b: nat,
)
    requires
        job_id_text(run_id, key_a, chunk_a) == job_id_text(run_id, key_b, chunk_b),
    ensures
        key_a == key_b,
        chunk_a == chunk_b,
{
    reveal_strlit("_");
    let head = "clarify_bq_"@ + replaced(run_id, '-', '_') + "_"@;
    let (da, db) = (decimal(chunk_a), decimal(chunk_b));
    let (ta, tb) = (key_a + "_"@ + da, key_b + "_"@ + db);
    let (wa, wb) = (
        job_id_text(run_id, key_a, chunk_a),
        job_id_text(run_id, key_b, chunk_b),
    );
    lemma_decimal_digits(chunk_a);
    lemma_decimal_digits(chunk_b);
    assert(wa =~= head + ta);
    assert(wb =~= head + tb);
    assert(wa.skip(head.len() as int) =~= ta);
    assert(wb.skip(head.len() as int) =~= tb);
    assert(ta == tb);
    // The last underscore of each is the one before its number.
    let (pa, pb) = (key_a.len() as int, key_b.len() as int);
    assert(ta[pa] == '_');
    assert(tb[pb] == '_');
    if pa < pb {
        assert(is_digit(da[pb - pa - 1]));
        assert(ta[pb] == da[pb - pa - 1]);
    } else if pb < pa {
        assert(is_digit(db[pa - pb - 1]));
        assert(tb[pa] == db[pa - pb - 1]);
    }
    assert(ta.take(pa) =~= key_a);
    assert(tb.take(pb) =~= key_b);
    assert(ta.skip(pa + 1) =~= da);
    assert(tb.skip(pb + 1) =~= db);
    lemma_decimal_injective(chunk_a, chunk_b);
}

/// Whether `s` has the form of a UUID with hyphens: 36 characters, hyphens at four places and
/// lower-case hexadecimal digits at all others.
pub open spec fn uuid_form(s: Seq<char>) -> bool {
    s.len() == 36 && forall|i: int|
        0 <= i < s.len() ==> if i == 8 || i == 13 || i == 18 || i == 23 {
            #[trigger] s[i] == '-'
        } else {
            '0' <= s[i] <= '9' || 'a' <= s[i] <= 'f'
        }
}

/// No two runs share a job identifier, whatever they load: a job that is there already is an earlier
/// attempt at the same chunk of the same resource of the same run.
pub proof fn law_job_ids_are_distinct_across_runs(
    run_a: Seq<char>,
    key_a: Seq<char>,
    chunk_a: nat,
    run_b: Seq<char>,
    key_b: Seq<char>,
    chunk_b: nat,
)
    requires
        uuid_form(run_a),
        uuid_form(run_b),
        job_id_text(run_a, key_a, chunk_a) == job_id_text(run_b, key_b, chunk_b),
    ensures
        run_a == run_b,
        key_a == key_b,
        chunk_a == chunk_b,
{
    let head = "clarify_bq_"@;
    let n = head.len() as int;
    let (ra, rb) = (replaced(run_a, '-', '_'), replaced(run_b, '-', '_'));
    let (wa, wb) = (
        job_id_text(run_a, key_a, chunk_a),
        job_id_text(run_b, key_b, chunk_b),
    );
    assert(wa.subrange(n, n + 36) =~= ra);
    assert(wb.subrange(n, n + 36) =~= rb);
    assert forall|i: int| 0 <= i < 36 implies run_a[i] == run_b[i] by {
        assert(ra[i] == rb[i]);
    }
    assert(run_a =~= run_b);
    law_job_ids_are_distinct(run_a, key_a, chunk_a, key_b, chunk_b);
}

// ---- cutting a file into chunks ----

/// Whether a line ends just before position `i`: with its line break, or with the data.
pub open spec fn line_end(data: Seq<u8>, i: int) -> bool {
    0 < i <= data.len() && (data[i - 1] == 10u8 || i == data.len())
}

/// Whether the line that goes on from position `i` ends just before `e`.
pub open spec fn next_end(data: Seq<u8>, i: int, e: int) -> bool {
    &&& i < e
    &&& line_end(data, e)
    &&& forall|k: int| i < k < e ==> !#[trigger] line_end(data, k)
}

/// Whether a line goes from `s` to `e`, with its line break where it has one.
pub open spec fn line_at(data: Seq<u8>, s: int, e: int) -> bool {
    &&& 0 <= s
    &&& s == 0 || data[s - 1] == 10u8
    &&& next_end(data, s, e)
}

/// Whether the line from `s` to `e` can be loaded: it is UTF-8, and no longer than a chunk may be.
pub open spec fn fits(data: Seq<u8>, max_bytes: u64, s: int, e: int) -> bool {
    valid_utf8(data.subrange(s, e)) && e - s <= max_bytes
}

/// Whether every line can be loaded.
pub open spec fn all_fit(data: Seq<u8>, max_bytes: u64) -> bool {
    forall|s: int, e: int| #[trigger] line_at(data, s, e) ==> fits(data, max_bytes, s, e)
}

/// Why data cannot be cut into chunks.
#[derive(Debug, Clone, Copy, PartialEq, Eq, Structural)]
pub enum SplitError {
    /// A line is no UTF-8.
    NotUtf8,
    /// A line is longer than a chunk may be.
    TooLong,
}

impl SplitError {
    /// What is said of data that cannot be cut.
    pub fn message(&self) -> (r: &'static str)
        ensures
            r@ == match self {
                SplitError::NotUtf8 => "stream did not contain valid UTF-8"@,
                SplitError::TooLong => "a line is longer than a chunk may be"@,
            },
    {
        match self {
            SplitError::NotUtf8 => "stream did not contain valid UTF-8",
            SplitError::TooLong => "a line is longer than a chunk may be",
        }
    }
}

/// Whether the line from `s` to `e` is the first that cannot be loaded, for this reason.
pub open spec fn first_misfit(
    data: Seq<u8>,
    max_bytes: u64,
    s: int,
    e: int,
    why: SplitError,
) -> bool {
    &&& line_at(data, s, e)
    &&& !fits(data, max_bytes, s, e)
    &&& forall|a: int, b: int| #[trigger]
        line_at(data, a, b) && b <= s ==> fits(data, max_bytes, a, b)
    &&& why == if valid_utf8(data.subrange(s, e)) {
        SplitError::TooLong
    } else {
        SplitError::NotUtf8
    }
}

/// Whether data cannot be cut into chunks for this reason: that of the first line that cannot be
/// loaded.
pub open spec fn unsplittable(data: Seq<u8>, max_bytes: u64, why: SplitError) -> bool {
    exists|s: int, e: int| #[trigger] first_misfit(data, max_bytes, s, e, why)
}

/// Whether a range is one chunk: whole lines, as many as fit, and at least one.
pub open spec fn chunk(data: Seq<u8>, max_bytes: u64, range: (u64, u64)) -> bool {
    &&& range.0 < range.1
    &&& line_end(data, range.1 as int)
    &&& range.1 - range.0 <= max_bytes
    &&& forall|e: int| #[trigger]
        next_end(data, range.1 as int, e) ==> e - range.0 > max_bytes
}

/// Whether the ranges follow each other from 0 up to `to`.
pub open spec fn contiguous(ranges: Seq<(u64, u64)>, to: int) -> bool {
    if ranges.len() == 0 {
        to == 0
    } else {
        &&& ranges[0].0 == 0
        &&& ranges.last().1 == to
        &&& forall|i: int| #![trigger ranges[i]]
            0 <= i < ranges.len() - 1 ==> ranges[i].1 == ranges[i + 1].0
    }
}

/// Whether the ranges are the chunks that `data` is cut into.
pub open spec fn chunks(data: Seq<u8>, max_bytes: u64, ranges: Seq<(u64, u64)>) -> bool {
    &&& contiguous(ranges, data.len() as int)
    &&& forall|i: int| 0 <= i < ranges.len() ==> chunk(data, max_bytes, #[trigger] ranges[i])
}

/// Whether `line` is one line: not empty, and with no line break before its last byte.
spec fn one_line(line: Seq<u8>) -> bool {
    line.len() > 0 && forall|k: int| 0 <= k < line.len() - 1 ==> line[k] != 10u8
}

/// Behind whole lines, one more line is the only new one, and the others stay what they were.
proof fn lemma_one_more_line(had: Seq<u8>, line: Seq<u8>)
    requires
        had.len() > 0 ==> had.last() == 10u8,
        one_line(line),
    ensures
        forall|k: int| k <= had.len() ==> line_end(had + line, k) == line_end(had, k),
        forall|k: int| had.len() < k < had.len() + line.len() ==> !line_end(had + line, k),
        next_end(had + line, had.len() as int, (had.len() + line.len()) as int),
        line_at(had + line, had.len() as int, (had.len() + line.len()) as int),
        (had + line).subrange(had.len() as int, (had.len() + line.len()) as int) == line,
        forall|s: int, e: int| #[trigger]
            line_at(had + line, s, e) ==> if e <= had.len() {
                line_at(had, s, e) && (had + line).subrange(s, e) == had.subrange(s, e)
            } else {
                s == had.len() && e == had.len() + line.len()
            },
{
    let now = had + line;
    assert forall|k: int| k <= had.len() implies line_end(now, k) == line_end(had, k) by {
        if 0 < k <= had.len() {
            assert(now[k - 1] == had[k - 1]);
        }
    }
    assert forall|k: int| had.len() < k < now.len() implies !line_end(now, k) by {
        assert(now[k - 1] == line[k - 1 - had.len()]);
    }
    assert(next_end(now, had.len() as int, now.len() as int));
    if had.len() > 0 {
        assert(now[had.len() - 1] == had.last());
    }
    assert(now.subrange(had.len() as int, now.len() as int) =~= line);
    assert forall|s: int, e: int| #[trigger] line_at(now, s, e) implies if e <= had.len() {
        line_at(had, s, e) && now.subrange(s, e) == had.subrange(s, e)
    } else {
        s == had.len() && e == now.len()
    } by {
        if e <= had.len() {
            if s > 0 {
                assert(now[s - 1] == had[s - 1]);
            }
            assert forall|k: int| s < k < e implies !#[trigger] line_end(had, k) by {
                assert(line_end(now, k) == line_end(had, k));
            }
            assert(line_end(had, e));
            assert(now.subrange(s, e) =~= had.subrange(s, e));
        } else {
            if e < now.len() {
                assert(!line_end(now, e));
            }
            if s < had.len() {
                assert(line_end(had, had.len() as int));
                assert(line_end(now, had.len() as int));
            }
            if s > had.len() {
                assert(line_end(now, s));
            }
        }
    }
}

/// A line that cannot be loaded, behind lines that all can, is the first.
proof fn lemma_new_misfit(had: Seq<u8>, line: Seq<u8>, max_bytes: u64)
    requires
        had.len() > 0 ==> had.last() == 10u8,
        one_line(line),
        all_fit(had, max_bytes),
        !valid_utf8(line) || line.len() > max_bytes,
    ensures
        first_misfit(
            had + line,
            max_bytes,
            had.len() as int,
            (had + line).len() as int,
            if valid_utf8(line) {
                SplitError::TooLong
            } else {
                SplitError::NotUtf8
            },
        ),
{
    lemma_one_more_line(had, line);
    let now = had + line;
    assert forall|a: int, b: int| #[trigger] line_at(now, a, b) && b <= had.len() implies fits(
        now,
        max_bytes,
        a,
        b,
    ) by {
        assert(line_at(had, a, b));
    }
}

/// With one more line that can be loaded, all can.
proof fn lemma_all_fit(had: Seq<u8>, line: Seq<u8>, max_bytes: u64)
    requires
        had.len() > 0 ==> had.last() == 10u8,
        one_line(line),
        all_fit(had, max_bytes),
        valid_utf8(line),
        line.len() <= max_bytes,
    ensures
        all_fit(had + line, max_bytes),
{
    lemma_one_more_line(had, line);
    let now = had + line;
    assert forall|a: int, b: int| #[trigger] line_at(now, a, b) implies fits(
        now,
        max_bytes,
        a,
        b,
    ) by {
        if b <= had.len() {
            assert(line_at(had, a, b));
        }
    }
}

/// A chunk of whole lines stays one when a line comes behind.
proof fn lemma_chunk_stays(had: Seq<u8>, line: Seq<u8>, max_bytes: u64, r: (u64, u64))
    requires
        had.len() > 0 ==> had.last() == 10u8,
        one_line(line),
        chunk(had, max_bytes, r),
        r.1 < had.len(),
    ensures
        chunk(had + line, max_bytes, r),
{
    lemma_one_more_line(had, line);
    let now = had + line;
    assert(line_end(now, r.1 as int) == line_end(had, r.1 as int));
    assert forall|e: int| #[trigger] next_end(now, r.1 as int, e) implies e - r.0 > max_bytes by {
        if e > had.len() {
            assert(line_end(had, had.len() as int));
            assert(line_end(now, had.len() as int));
        }
        assert(line_end(now, e) == line_end(had, e));
        assert forall|k: int| r.1 < k < e implies !#[trigger] line_end(had, k) by {
            assert(line_end(now, k) == line_end(had, k));
        }
        assert(next_end(had, r.1 as int, e));
    }
}

/// Lines to which the next would be too much are a chunk.
proof fn lemma_new_chunk(had: Seq<u8>, line: Seq<u8>, max_bytes: u64, r: (u64, u64))
    requires
        had.len() > 0 ==> had.last() == 10u8,
        one_line(line),
        r.0 < r.1,
        r.1 == had.len(),
        r.1 - r.0 <= max_bytes,
        had.len() + line.len() - r.0 > max_bytes,
    ensures
        chunk(had + line, max_bytes, r),
{
    lemma_one_more_line(had, line);
    let now = had + line;
    assert(line_end(had, r.1 as int));
    assert(line_end(now, r.1 as int));
    assert forall|e: int| #[trigger] next_end(now, r.1 as int, e) implies e - r.0 > max_bytes by {
        if e < now.len() {
            assert(!line_end(now, e));
        }
    }
}

/// Ranges that follow each other still do with one more that begins where they end.
proof fn lemma_longer(before: Seq<(u64, u64)>, r: (u64, u64))
    requires
        contiguous(before, r.0 as int),
    ensures
        contiguous(before.push(r), r.1 as int),
{
    let after = before.push(r);
    assert forall|i: int| #![trigger after[i]] 0 <= i < after.len() - 1 implies after[i].1
        == after[i + 1].0 by {
        assert(after[i] == before[i]);
        if i + 1 < before.len() {
            assert(after[i + 1] == before[i + 1]);
        } else {
            assert(before.last() == before[i]);
        }
    }
}

/// A line that ended with its line break, and those before it, stay what they were whatever comes.
proof fn lemma_misfit_stays(
    data: Seq<u8>,
    more: Seq<u8>,
    max_bytes: u64,
    s: int,
    e: int,
    why: SplitError,
)
    requires
        first_misfit(data, max_bytes, s, e, why),
        data[e - 1] == 10u8,
    ensures
        first_misfit(data + more, max_bytes, s, e, why),
{
    let now = data + more;
    assert forall|k: int| k <= e implies line_end(now, k) == line_end(data, k) by {
        if 0 < k <= e {
            assert(now[k - 1] == data[k - 1]);
        }
    }
    if s > 0 {
        assert(now[s - 1] == data[s - 1]);
    }
    assert(now.subrange(s, e) =~= data.subrange(s, e));
    assert forall|k: int| s < k < e implies !#[trigger] line_end(now, k) by {
        assert(line_end(now, k) == line_end(data, k));
    }
    assert forall|a: int, b: int| #[trigger] line_at(now, a, b) && b <= s implies fits(
        now,
        max_bytes,
        a,
        b,
    ) by {
        if a > 0 {
            assert(now[a - 1] == data[a - 1]);
        }
        assert forall|k: int| a < k < b implies !#[trigger] line_end(data, k) by {
            assert(line_end(now, k) == line_end(data, k));
        }
        assert(line_end(data, b));
        assert(line_at(data, a, b));
        assert(now.subrange(a, b) =~= data.subrange(a, b));
    }
}

/// Cuts data that arrives piece by piece into chunks of whole lines.
pub struct ChunkSplitter {
    max_bytes: u64,
    start: u64,
    pos: u64,
    tail: Vec<u8>,
    ranges: Vec<(u64, u64)>,
    misfit: Option<SplitError>,
    lines: Ghost<Seq<u8>>,
    seen: Ghost<Seq<u8>>,
}

impl ChunkSplitter {
    /// The data that has arrived.
    pub closed spec fn data(&self) -> Seq<u8> {
        self.seen@
    }

    /// The most bytes that a chunk has.
    pub closed spec fn max_bytes(&self) -> u64 {
        self.max_bytes
    }

    /// Whether the lines that were taken in are cut as they should be.
    spec fn cut(&self) -> bool {
        &&& self.lines@.len() == self.pos
        &&& self.start <= self.pos
        &&& self.pos > 0 ==> self.start < self.pos
        &&& self.start > 0 ==> self.lines@[self.start - 1] == 10u8
        &&& contiguous(self.ranges@, self.start as int)
        &&& forall|i: int|
            0 <= i < self.ranges@.len() ==> #[trigger] self.ranges@[i].1 <= self.start && chunk(
                self.lines@,
                self.max_bytes,
                self.ranges@[i],
            )
        &&& self.pos - self.start <= self.max_bytes
        &&& all_fit(self.lines@, self.max_bytes)
    }

    /// Whether the splitter is in order.
    pub closed spec fn wf(&self) -> bool {
        match self.misfit {
            None => {
                &&& self.cut()
                &&& self.seen@ == self.lines@ + self.tail@
                &&& self.pos > 0 ==> self.lines@.last() == 10u8
                &&& forall|k: int| 0 <= k < self.tail@.len() ==> self.tail@[k] != 10u8
            },
            Some(why) => exists|s: int, e: int| #[trigger]
                first_misfit(self.seen@, self.max_bytes, s, e, why) && self.seen@[e - 1] == 10u8,
        }
    }

    /// A splitter to which nothing has come yet.
    pub fn new(max_bytes: u64) -> (r: Self)
        ensures
            r.wf(),
            r.max_bytes() == max_bytes,
            r.data() == Seq::<u8>::empty(),
    {
        let r = ChunkSplitter {
            max_bytes,
            start: 0,
            pos: 0,
            tail: Vec::new(),
            ranges: Vec::new(),
            misfit: None,
            lines: Ghost(Seq::empty()),
            seen: Ghost(Seq::empty()),
        };
        assert(r.seen@ =~= r.lines@ + r.tail@);
        r
    }

    /// Takes in the line that the tail holds.
    fn line(&mut self)
        requires
            old(self).cut(),
            old(self).misfit is None,
            old(self).pos > 0 ==> old(self).lines@.last() == 10u8,
            one_line(old(self).tail@),
            old(self).pos + old(self).tail@.len() <= u64::MAX,
        ensures
            final(self).max_bytes == old(self).max_bytes,
            final(self).seen == old(self).seen,
            final(self).tail@.len() == 0,
            match final(self).misfit {
                None => {
                    &&& final(self).cut()
                    &&& final(self).lines@ == old(self).lines@ + old(self).tail@
                    &&& final(self).pos > final(self).start
                },
                Some(why) => first_misfit(
                    old(self).lines@ + old(self).tail@,
                    old(self).max_bytes,
                    old(self).lines@.len() as int,
                    (old(self).lines@ + old(self).tail@).len() as int,
                    why,
                ),
            },
    {
        let n: u64 = self.tail.len() as u64;
        let ghost had = self.lines@;
        let ghost line = self.tail@;
        let ghost now = had + line;
        let mut bytes: Vec<u8> = Vec::new();
        std::mem::swap(&mut bytes, &mut self.tail);
        if text_of_utf8(bytes).is_err() {
            proof {
                lemma_new_misfit(had, line, self.max_bytes);
            }
            self.misfit = Some(SplitError::NotUtf8);
            return;
        }
        if n > self.max_bytes {
            proof {
                lemma_new_misfit(had, line, self.max_bytes);
            }
            self.misfit = Some(SplitError::TooLong);
            return;
        }
        let ghost before = self.ranges@;
        if self.pos + n - self.start > self.max_bytes && self.pos > self.start {
            let ghost range = (self.start, self.pos);
            self.ranges.push((self.start, self.pos));
            self.start = self.pos;
            proof {
                lemma_new_chunk(had, line, self.max_bytes, range);
                lemma_longer(before, range);
            }
        }
        proof {
            lemma_all_fit(had, line, self.max_bytes);
            assert forall|i: int| 0 <= i < self.ranges@.len() implies #[trigger] self.ranges@[i].1
                <= self.start && chunk(now, self.max_bytes, self.ranges@[i]) by {
                if i < before.len() {
                    assert(self.ranges@[i] == before[i]);
                    lemma_chunk_stays(had, line, self.max_bytes, before[i]);
                }
            }
            if self.start > 0 {
                assert(now[self.start - 1] == had[self.start - 1]);
            }
        }
        self.pos = self.pos + n;
        self.lines = Ghost(now);
    }

    /// Takes in more data.
    pub fn feed(&mut self, bytes: &[u8])
        requires
            old(self).wf(),
            old(self).data().len() + bytes@.len() <= u64::MAX,
        ensures
            final(self).wf(),
            final(self).max_bytes() == old(self).max_bytes(),
            final(self).data() == old(self).data() + bytes@,
    {
        let mut i: usize = 0;
        let ghost had = self.seen@;
        assert(had + bytes@.take(0) =~= had);
        while i < bytes.len()
            invariant
                i <= bytes@.len(),
                self.wf(),
                self.max_bytes == old(self).max_bytes,
                self.seen@ == had + bytes@.take(i as int),
                had.len() + bytes@.len() <= u64::MAX,
            decreases bytes@.len() - i,
        {
            let b = bytes[i];
            let ghost seen = self.seen@;
            let ghost lines = self.lines@;
            let ghost tail = self.tail@;
            self.seen = Ghost(seen.push(b));
            assert(seen.push(b) =~= seen + seq![b]);
            assert(bytes@.take(i + 1) =~= bytes@.take(i as int).push(b));
            assert(had + bytes@.take(i + 1) =~= seen.push(b));
            if self.misfit.is_none() {
                self.tail.push(b);
                assert(lines + tail.push(b) =~= seen.push(b));
                if b == 10u8 {
                    assert(lines.len() + tail.len() == seen.len());
                    self.line();
                    proof {
                        if self.misfit is None {
                            assert(self.seen@ =~= self.lines@ + self.tail@);
                            assert(self.lines@.last() == tail.push(b).last());
                        } else {
                            assert(seen.push(b)[seen.len() as int] == b);
                        }
                    }
                }
            } else {
                proof {
                    let why = self.misfit->Some_0;
                    let (s, e) = choose|s: int, e: int| #[trigger]
                        first_misfit(seen, self.max_bytes, s, e, why) && seen[e - 1] == 10u8;
                    lemma_misfit_stays(seen, seq![b], self.max_bytes, s, e, why);
                    assert(self.seen@[e - 1] == seen[e - 1]);
                }
            }
            i += 1;
        }
        assert(bytes@.take(bytes@.len() as int) =~= bytes@);
    }

    /// The chunks, once all data has come; or why there are none, where a line cannot be loaded.
    pub fn finish(self) -> (r: Result<Vec<(u64, u64)>, SplitError>)
        requires
            self.wf(),
            self.data().len() <= u64::MAX,
        ensures
            split(r, self.data(), self.max_bytes()),
    {
        let mut s = self;
        if let Some(why) = s.misfit {
            return Err(why);
        }
        if s.tail.len() > 0 {
            s.line();
            if let Some(why) = s.misfit {
                return Err(why);
            }
        } else {
            assert(s.lines@ =~= self.seen@);
        }
        assert(s.lines@ =~= self.data());
        if s.pos > s.start {
            let ghost before = s.ranges@;
            s.ranges.push((s.start, s.pos));
            proof {
                assert(chunk(s.lines@, s.max_bytes, (s.start, s.pos)));
                lemma_longer(before, (s.start, s.pos));
            }
        }
        Ok(s.ranges)
    }
}

/// Whether data is cut as it should be: into its chunks exactly where every line can be loaded, and
/// otherwise not at all.
pub open spec fn split(
    r: Result<Vec<(u64, u64)>, SplitError>,
    data: Seq<u8>,
    max_bytes: u64,
) -> bool {
    match r {
        Ok(ranges) => all_fit(data, max_bytes) && chunks(data, max_bytes, ranges@),
        Err(why) => !all_fit(data, max_bytes) && unsplittable(data, max_bytes, why),
    }
}

/// The chunks that data is cut into: ranges of whole lines, each as long as it can be without
/// going over `max_bytes`. Data with a line that is no UTF-8, or that is itself longer, is not cut.
pub fn split_points(data: &[u8], max_bytes: u64) -> (r: Result<Vec<(u64, u64)>, SplitError>)
    requires
        data@.len() <= u64::MAX,
    ensures
        split(r, data@, max_bytes),
{
    let mut s = ChunkSplitter::new(max_bytes);
    s.feed(data);
    assert(Seq::<u8>::empty() + data@ =~= data@);
    s.finish()
}

/// The bytes of a list of ranges, one behind the other.
pub open spec fn gathered(data: Seq<u8>, ranges: Seq<(u64, u64)>) -> Seq<u8>
    decreases ranges.len(),
{
    if ranges.len() == 0 {
        Seq::empty()
    } else {
        gathered(data, ranges.drop_last()) + data.subrange(
            ranges.last().0 as int,
            ranges.last().1 as int,
        )
    }
}

/// The chunks hold every byte once and in order: put together they are the data again.
pub proof fn law_chunks_are_the_data(data: Seq<u8>, max_bytes: u64, ranges: Seq<(u64, u64)>)
    requires
        chunks(data, max_bytes, ranges),
    ensures
        gathered(data, ranges) == data,
{
    lemma_gathered(data, max_bytes, ranges, ranges.len() as int);
    assert(ranges.take(ranges.len() as int) =~= ranges);
    if ranges.len() == 0 {
        assert(gathered(data, ranges) =~= data);
    } else {
        assert(data.take(data.len() as int) =~= data);
    }
}

proof fn lemma_gathered(data: Seq<u8>, max_bytes: u64, ranges: Seq<(u64, u64)>, n: int)
    requires
        chunks(data, max_bytes, ranges),
        0 <= n <= ranges.len(),
    ensures
        n > 0 ==> gathered(data, ranges.take(n)) == data.take(ranges[n - 1].1 as int),
        n == 0 ==> gathered(data, ranges.take(n)) == Seq::<u8>::empty(),
    decreases n,
{
    if n > 0 {
        lemma_gathered(data, max_bytes, ranges, n - 1);
        let head = ranges.take(n);
        assert(head.drop_last() =~= ranges.take(n - 1));
        assert(head.last() == ranges[n - 1]);
        assert(chunk(data, max_bytes, ranges[n - 1]));
        if n > 1 {
            assert(ranges[n - 2].1 == ranges[n - 1].0);
        }
        assert(gathered(data, head) =~= data.take(ranges[n - 1].1 as int));
    }
}

/// Behind any position before the end of a line, some line ends next.
proof fn lemma_next_end(data: Seq<u8>, i: int, j: int) -> (e: int)
    requires
        i < j,
        line_end(data, j),
    ensures
        next_end(data, i, e),
        e <= j,
    decreases j - i,
{
    if exists|k: int| i < k < j && line_end(data, k) {
        let k = choose|k: int| i < k < j && line_end(data, k);
        lemma_next_end(data, i, k)
    } else {
        j
    }
}

proof fn lemma_chunk_end(data: Seq<u8>, max_bytes: u64, a: (u64, u64), b: (u64, u64))
    requires
        chunk(data, max_bytes, a),
        chunk(data, max_bytes, b),
        a.0 == b.0,
    ensures
        a.1 >= b.1,
{
    if a.1 < b.1 {
        let e = lemma_next_end(data, a.1 as int, b.1 as int);
        assert(e - a.0 > max_bytes);
    }
}

proof fn lemma_chunk_at(
    data: Seq<u8>,
    max_bytes: u64,
    a: Seq<(u64, u64)>,
    b: Seq<(u64, u64)>,
    i: int,
)
    requires
        chunks(data, max_bytes, a),
        chunks(data, max_bytes, b),
        0 <= i < a.len(),
        i < b.len(),
    ensures
        a[i] == b[i],
    decreases i,
{
    if i > 0 {
        lemma_chunk_at(data, max_bytes, a, b, i - 1);
        assert(a[i - 1].1 == a[i].0);
        assert(b[i - 1].1 == b[i].0);
    }
    lemma_chunk_end(data, max_bytes, a[i], b[i]);
    lemma_chunk_end(data, max_bytes, b[i], a[i]);
}

/// Data is cut into chunks in one way only.
pub proof fn law_chunks_are_unique(
    data: Seq<u8>,
    max_bytes: u64,
    a: Seq<(u64, u64)>,
    b: Seq<(u64, u64)>,
)
    requires
        chunks(data, max_bytes, a),
        chunks(data, max_bytes, b),
    ensures
        a == b,
{
    assert forall|i: int| 0 <= i < a.len() && i < b.len() implies a[i] == b[i] by {
        lemma_chunk_at(data, max_bytes, a, b, i);
    }
    lemma_chunk_count(data, max_bytes, a, b);
    lemma_chunk_count(data, max_bytes, b, a);
    assert(a =~= b);
}

proof fn lemma_chunk_count(data: Seq<u8>, max_bytes: u64, a: Seq<(u64, u64)>, b: Seq<(u64, u64)>)
    requires
        chunks(data, max_bytes, a),
        chunks(data, max_bytes, b),
        forall|i: int| 0 <= i < a.len() && i < b.len() ==> a[i] == b[i],
    ensures
        a.len() >= b.len(),
{
    if a.len() < b.len() {
        let n = a.len() as int;
        assert(chunk(data, max_bytes, b[n]));
        if n > 0 {
            assert(a.last() == a[n - 1]);
            assert(b[n - 1].1 == b[n].0);
        }
    }
}

/// No chunk is longer than it may be, and each begins and ends where a line does.
pub proof fn law_chunks_stay_below(data: Seq<u8>, max_bytes: u64, ranges: Seq<(u64, u64)>, i: int)
    requires
        chunks(data, max_bytes, ranges),
        0 <= i < ranges.len(),
    ensures
        ranges[i].1 - ranges[i].0 <= max_bytes,
        ranges[i].0 == 0 || line_end(data, ranges[i].0 as int),
        line_end(data, ranges[i].1 as int),
{
    assert(chunk(data, max_bytes, ranges[i]));
    if i > 0 {
        assert(chunk(data, max_bytes, ranges[i - 1]));
        assert(ranges[i - 1].1 == ranges[i].0);
    }
}

/// Data has one reason at most not to be cut.
pub proof fn law_one_reason_not_to_split(
    data: Seq<u8>,
    max_bytes: u64,
    a: SplitError,
    b: SplitError,
)
    requires
        unsplittable(data, max_bytes, a),
        unsplittable(data, max_bytes, b),
    ensures
        a == b,
{
    let (s, e) = choose|s: int, e: int| #[trigger] first_misfit(data, max_bytes, s, e, a);
    let (t, f) = choose|t: int, f: int| #[trigger] first_misfit(data, max_bytes, t, f, b);
    // Of two different lines one ends before the other begins.
    if s < t {
        if e > t {
            assert(line_end(data, t));
        }
        assert(line_at(data, s, e) && e <= t);
    } else if t < s {
        if f > s {
            assert(line_end(data, s));
        }
        assert(line_at(data, t, f) && f <= s);
    } else if e < f {
        assert(!line_end(data, e));
    } else if f < e {
        assert(!line_end(data, f));
    }
}

// ---- uploading ----

/// The document that describes the load job of one chunk. It only ever appends: nothing that is
/// in the table is overwritten.
pub open spec fn load_document(sink: BqSink, table: Seq<char>, jid: Seq<char>) -> JsonView {
    JsonView::Object(
        fields().push(
            (
                "configuration"@,
                JsonView::Object(fields().push(("load"@, load_configuration(sink, table)))),
            ),
        ).push(
            (
                "jobReference"@,
                JsonView::Object(
                    fields().push(("jobId"@, JsonView::Text(jid))).push(
                        ("location"@, JsonView::Text(sink.location@)),
                    ).push(("projectId"@, JsonView::Text(sink.project@))),
                ),
            ),
        ),
    )
}

/// What the load job is told of the table and the file.
pub open spec fn load_configuration(sink: BqSink, table: Seq<char>) -> JsonView {
    JsonView::Object(
        fields().push(
            (
                "destinationTable"@,
                JsonView::Object(
                    fields().push(("datasetId"@, JsonView::Text(sink.dataset@))).push(
                        ("projectId"@, JsonView::Text(sink.project@)),
                    ).push(("tableId"@, JsonView::Text(table))),
                ),
            ),
        ).push(
            (
                "schemaUpdateOptions"@,
                JsonView::Array(seq![JsonView::Text("ALLOW_FIELD_ADDITION"@)]),
            ),
        ).push(("sourceFormat"@, JsonView::Text("NEWLINE_DELIMITED_JSON"@))).push(
            ("writeDisposition"@, JsonView::Text("WRITE_APPEND"@)),
        ),
    )
}

/// A backup is append-only: whatever the table and the job, the load job appends to what is there.
pub proof fn law_loads_append(sink: BqSink, table: Seq<char>, jid: Seq<char>)
    ensures
        at(
            at(at(load_document(sink, table, jid), "configuration"@), "load"@),
            "writeDisposition"@,
        ) == JsonView::Text("WRITE_APPEND"@),
{
    reveal_strlit("configuration");
    reveal_strlit("load");
    reveal_strlit("writeDisposition");
    reveal_strlit("destinationTable");
    reveal_strlit("schemaUpdateOptions");
    reveal_strlit("sourceFormat");
    reveal_with_fuel(crate::json::find_member, 5);
    let inner = load_configuration(sink, table)->Object_0;
    assert("destinationTable"@[0] != "writeDisposition"@[0]);
    assert("schemaUpdateOptions"@[0] != "writeDisposition"@[0]);
    assert("sourceFormat"@[0] != "writeDisposition"@[0]);
    assert(inner.drop_first().drop_first().drop_first()[0] == inner[3]);
}

/// What stands in an upload before the data.
pub open spec fn upload_head(config: Seq<char>) -> Seq<char> {
    "--clarify_bq_boundary\r\nContent-Type: application/json; charset=UTF-8\r\n\r\n"@ + config
        + "\r\n--clarify_bq_boundary\r\nContent-Type: application/octet-stream\r\n\r\n"@
}

/// What stands in an upload behind the data.
pub open spec fn upload_tail() -> Seq<char> {
    "\r\n--clarify_bq_boundary--\r\n"@
}

/// An upload: where it goes, what kind it is, and its bytes.
#[derive(Debug)]
pub struct Upload {
    pub url: String,
    pub content_type: String,
    pub body: Vec<u8>,
}

/// The address that uploads go to.
pub open spec fn upload_address(sink: BqSink) -> Seq<char> {
    sink.base@ + "/upload/bigquery/v2/projects/"@ + sink.project@ + "/jobs?uploadType=multipart"@
}

/// The address of a job.
pub open spec fn job_address(sink: BqSink, jid: Seq<char>) -> Seq<char> {
    v2(sink, "/jobs/"@ + jid + "?location="@ + sink.location@)
}

/// What is known of a job.
#[derive(Debug)]
pub enum PollStep {
    /// It is not done.
    Again,
    /// It is done and brought this many rows.
    Done(u64),
    /// It failed, or cannot be asked about.
    Fail(SinkError),
}

/// Whether a job's document says that the job is done.
pub open spec fn job_done(body: JsonView) -> bool {
    at(at(body, "status"@), "state"@) == JsonView::Text("DONE"@)
}

/// The error that a job's document reports; null where it reports none.
pub open spec fn job_error(body: JsonView) -> JsonView {
    at(at(body, "status"@), "errorResult"@)
}

/// Why a job failed.
pub open spec fn job_failure(body: JsonView) -> Seq<char> {
    match as_text(at(job_error(body), "message"@)) {
        Some(m) => m,
        None => "unknown"@,
    }
}

/// How many rows a job brought; none where its document does not say.
pub open spec fn job_rows(body: JsonView) -> u64 {
    match as_text(at(at(at(body, "statistics"@), "load"@), "outputRows"@)) {
        Some(s) => match parsed_u64(s) {
            Some(n) => n,
            None => 0,
        },
        None => 0,
    }
}

fn add_bytes(body: &mut Vec<u8>, more: &[u8])
    ensures
        final(body)@ == old(body)@ + more@,
{
    body.extend_from_slice(more);
    assert(body@ =~= old(body)@ + more@);
}

impl BqSink {
    /// The upload that starts the load job of one chunk.
    pub fn submit_chunk(&self, table: &str, jid: &str, data: &[u8]) -> (r: Upload)
        ensures
            r.url@ == upload_address(*self),
            r.content_type@ == "multipart/related; boundary=clarify_bq_boundary"@,
            r.body@ == encode_utf8(
                upload_head(json_text(load_document(*self, table@, jid@))),
            ) + data@ + encode_utf8(upload_tail()),
    {
        let mut reference = no_fields();
        put(&mut reference, "jobId", text(jid));
        put(&mut reference, "location", text(&self.location));
        put(&mut reference, "projectId", text(&self.project));
        let mut destination = no_fields();
        put(&mut destination, "datasetId", text(&self.dataset));
        put(&mut destination, "projectId", text(&self.project));
        put(&mut destination, "tableId", text(table));
        let mut options: Vec<Json> = Vec::new();
        let addition = text("ALLOW_FIELD_ADDITION");
        options.push(addition);
        assert(items(options@) =~= seq![JsonView::Text("ALLOW_FIELD_ADDITION"@)]);
        let mut load = no_fields();
        put(&mut load, "destinationTable", object(destination));
        put(&mut load, "schemaUpdateOptions", array(options));
        put(&mut load, "sourceFormat", text("NEWLINE_DELIMITED_JSON"));
        put(&mut load, "writeDisposition", text("WRITE_APPEND"));
        let mut configuration = no_fields();
        put(&mut configuration, "load", object(load));
        let mut m = no_fields();
        put(&mut m, "configuration", object(configuration));
        put(&mut m, "jobReference", object(reference));
        let config = show_json(&object(m));

        let mut head =
            "--clarify_bq_boundary\r\nContent-Type: application/json; charset=UTF-8\r\n\r\n".to_owned();
        head.append(&config);
        head.append("\r\n--clarify_bq_boundary\r\nContent-Type: application/octet-stream\r\n\r\n");
        let mut body: Vec<u8> = Vec::new();
        add_bytes(&mut body, head.as_str().as_bytes());
        assert(body@ =~= encode_utf8(head@));
        add_bytes(&mut body, data);
        add_bytes(&mut body, "\r\n--clarify_bq_boundary--\r\n".as_bytes());

        let mut url = self.base.clone();
        url.append("/upload/bigquery/v2/projects/");
        url.append(&self.project);
        url.append("/jobs?uploadType=multipart");
        Upload {
            url,
            content_type: "multipart/related; boundary=clarify_bq_boundary".to_owned(),
            body,
        }
    }

    /// Asks how a job is doing.
    pub fn poll_job(&self, jid: &str) -> (r: ApiRequest)
        ensures
            bare_request(r, Method::Get, job_address(*self, jid@)),
    {
        let mut tail = "/jobs/".to_owned();
        tail.append(jid);
        tail.append("?location=");
        tail.append(&self.location);
        ApiRequest { method: Method::Get, url: self.v2_url(&tail), body: None }
    }

    /// Takes what the service says of a job.
    pub fn job_polled(&self, jid: &str, status: u16, body: &Json) -> (r: PollStep)
        ensures
            match r {
                PollStep::Again => success(status) && !job_done(body@),
                PollStep::Done(rows) => success(status) && job_done(body@) && job_error(body@)
                    == JsonView::Null && rows == job_rows(body@),
                PollStep::Fail(SinkError::Http { status: s, url, body: b }) => !success(status)
                    && s == status && url@ == job_address(*self, jid@) && b@ == json_text(body@),
                PollStep::Fail(SinkError::JobFailed { job_id, reason }) => success(status)
                    && job_done(body@) && job_error(body@) != JsonView::Null && job_id@ == jid@
                    && reason@ == job_failure(body@),
                PollStep::Fail(_) => false,
            },
    {
        if !(status >= 200 && status < 300) {
            let url = self.poll_job(jid).url;
            return PollStep::Fail(SinkError::Http { status, url, body: show_json(body) });
        }
        let state = body.get("status");
        let done = match within(state, "state") {
            Some(s) => s.is_text("DONE"),
            None => false,
        };
        if !done {
            return PollStep::Again;
        }
        let error = within(state, "errorResult");
        let failed = match error {
            Some(Json::Null) => false,
            Some(_) => true,
            None => false,
        };
        if failed {
            let reason = match found_text(within(error, "message")) {
                Some(m) => m.clone(),
                None => "unknown".to_owned(),
            };
            return PollStep::Fail(SinkError::JobFailed { job_id: jid.to_owned(), reason });
        }
        let rows = within(within(body.get("statistics"), "load"), "outputRows");
        let count: u64 = match found_text(rows) {
            Some(s) => match parse_u64(s) {
                Some(n) => n,
                None => 0,
            },
            None => 0,
        };
        PollStep::Done(count)
    }
}

impl Upload {
    /// Takes the response to an upload. A job identifier that is taken belongs to an earlier
    /// attempt at the same chunk, whose job is then followed instead.
    pub fn submitted(&self, status: u16, body: &str) -> (r: Result<(), SinkError>)
        ensures
            match r {
                Ok(_) => success(status) || status == 409,
                Err(SinkError::Http { status: s, url, body: b }) => !success(status) && status
                    != 409 && s == status && url@ == self.url@ && b@ == body@,
                Err(_) => false,
            },
    {
        if (status >= 200 && status < 300) || status == 409 {
            return Ok(());
        }
        Err(SinkError::Http { status, url: self.url.clone(), body: body.to_owned() })
    }
}

// ---- loading a file, chunk by chunk ----

/// A file on its way into a table.
#[derive(Debug)]
pub struct LoadRun {
    pub table: String,
    pub job_key: String,
    pub run_id: String,
    pub ranges: Vec<(u64, u64)>,
    pub committed: usize,
    pub rows: u64,
}

/// The next chunk to load: its job and its bytes.
#[derive(Debug)]
pub struct ChunkJob {
    pub job_id: String,
    pub start: u64,
    pub end: u64,
}

impl BqSink {
    /// Begins to load a file that is cut into these ranges.
    pub fn load_ndjson(
        &self,
        table: &str,
        job_key: &str,
        ranges: Vec<(u64, u64)>,
        run_id: &str,
    ) -> (r: LoadRun)
        ensures
            r.table@ == table@,
            r.job_key@ == job_key@,
            r.run_id@ == run_id@,
            r.ranges@ == ranges@,
            r.committed == 0,
            r.rows == 0,
    {
        LoadRun {
            table: table.to_owned(),
            job_key: job_key.to_owned(),
            run_id: run_id.to_owned(),
            ranges,
            committed: 0,
            rows: 0,
        }
    }
}

impl LoadRun {
    /// The chunk that is next, in order; none once all are committed.
    pub fn next(&self) -> (r: Option<ChunkJob>)
        ensures
            r is Some <==> self.committed < self.ranges@.len(),
            r matches Some(c) ==> c.job_id@ == job_id_text(
                self.run_id@,
                self.job_key@,
                self.committed as nat,
            ) && (c.start, c.end) == self.ranges@[self.committed as int],
    {
        if self.committed >= self.ranges.len() {
            return None;
        }
        let (start, end) = self.ranges[self.committed];
        Some(ChunkJob { job_id: job_id(&self.run_id, &self.job_key, self.committed), start, end })
    }

    /// Counts the chunk that was next as committed, with the rows that its job brought.
    pub fn commit(&mut self, rows: u64)
        requires
            old(self).committed < old(self).ranges@.len(),
            old(self).rows + rows <= u64::MAX,
        ensures
            final(self).committed == old(self).committed + 1,
            final(self).rows == old(self).rows + rows,
            final(self).table == old(self).table,
            final(self).job_key == old(self).job_key,
            final(self).run_id == old(self).run_id,
            final(self).ranges == old(self).ranges,
    {
        assert(self.committed < self.ranges.len());
        self.rows = self.rows + rows;
        self.committed = self.committed + 1;
    }
}

// ---- queries ----

/// The document of a query.
pub open spec fn query_document(sink: BqSink, sql: Seq<char>) -> JsonView {
    JsonView::Object(
        fields().push(("location"@, JsonView::Text(sink.location@))).push(
            ("query"@, JsonView::Text(sql)),
        ).push(("useLegacySql"@, JsonView::Bool(false))),
    )
}

/// The cells of one row of a result.
pub open spec fn row_cells(row: JsonView) -> Seq<JsonView> {
    elements(at(row, "f"@)).map_values(|c: JsonView| at(c, "v"@))
}

/// The rows of a result.
pub open spec fn result_rows(body: JsonView) -> Seq<Seq<JsonView>> {
    elements(at(body, "rows"@)).map_values(|r: JsonView| row_cells(r))
}

/// What a list of rows holds.
pub open spec fn row_views(rows: Seq<Vec<Json>>) -> Seq<Seq<JsonView>> {
    rows.map_values(|r: Vec<Json>| items(r@))
}

fn cells(row: &Json) -> (r: Vec<Json>)
    ensures
        items(r@) == row_cells(row@),
{
    broadcast use crate::json::lemma_array_view;

    let mut out: Vec<Json> = Vec::new();
    let ghost want = row_cells(row@);
    match row.get("f") {
        Some(Json::Array(list)) => {
            let mut i: usize = 0;
            assert(elements(at(row@, "f"@)) == items(list@));
            while i < list.len()
                invariant
                    i <= list@.len(),
                    want == items(list@).map_values(|c: JsonView| at(c, "v"@)),
                    items(out@) == want.take(i as int),
                decreases list@.len() - i,
            {
                let ghost had = out@;
                let cell = match list[i].get("v") {
                    Some(v) => v.clone(),
                    None => Json::Null,
                };
                out.push(cell);
                assert(items(out@) =~= items(had).push(cell@));
                assert(want[i as int] == at(list@[i as int]@, "v"@));
                i += 1;
                assert(items(out@) =~= want.take(i as int));
            }
            assert(want.take(list@.len() as int) =~= want);
        },
        _ => {
            assert(items(out@) =~= want);
        },
    }
    out
}

impl BqSink {
    /// Asks a query.
    pub fn query(&self, sql: &str) -> (r: ApiRequest)
        ensures
            document_request(r, Method::Post, v2(*self, "/queries"@), query_document(*self, sql@)),
    {
        let mut m = no_fields();
        put(&mut m, "location", text(&self.location));
        put(&mut m, "query", text(sql));
        put(&mut m, "useLegacySql", Json::Bool(false));
        ApiRequest { method: Method::Post, url: self.v2_url("/queries"), body: Some(object(m)) }
    }

    /// Takes the response to a query: its rows, each as the list of its cells.
    pub fn queried(&self, status: u16, body: &Json) -> (r: Result<Vec<Vec<Json>>, SinkError>)
        ensures
            match r {
                Ok(rows) => success(status) && row_views(rows@) == result_rows(body@),
                Err(SinkError::Http { status: s, url, body: b }) => !success(status) && s == status
                    && url@ == v2(*self, "/queries"@) && b@ == json_text(body@),
                Err(_) => false,
            },
    {
        broadcast use crate::json::lemma_array_view;

        if !(status >= 200 && status < 300) {
            return Err(
                SinkError::Http { status, url: self.v2_url("/queries"), body: show_json(body) },
            );
        }
        let mut out: Vec<Vec<Json>> = Vec::new();
        let ghost want = result_rows(body@);
        match body.get("rows") {
            Some(Json::Array(list)) => {
                let mut i: usize = 0;
                assert(elements(at(body@, "rows"@)) == items(list@));
                while i < list.len()
                    invariant
                        i <= list@.len(),
                        want == items(list@).map_values(|r: JsonView| row_cells(r)),
                        row_views(out@) == want.take(i as int),
                    decreases list@.len() - i,
                {
                    let ghost had = out@;
                    let row = cells(&list[i]);
                    out.push(row);
                    assert(row_views(out@) =~= row_views(had).push(items(row@)));
                    assert(want[i as int] == row_cells(list@[i as int]@));
                    i += 1;
                    assert(row_views(out@) =~= want.take(i as int));
                }
                assert(want.take(list@.len() as int) =~= want);
            },
            _ => {
                assert(row_views(out@) =~= want);
            },
        }
        Ok(out)
    }
}

// ---- what is asked of load jobs, and what they answer ----

proof fn reveal_load_names()
    ensures
        "configuration"@ != "jobReference"@,
        "destinationTable"@ != "schemaUpdateOptions"@,
        "destinationTable"@ != "sourceFormat"@,
        "destinationTable"@ != "writeDisposition"@,
        "schemaUpdateOptions"@ != "sourceFormat"@,
        "schemaUpdateOptions"@ != "writeDisposition"@,
        "sourceFormat"@ != "writeDisposition"@,
        "datasetId"@ != "projectId"@,
        "datasetId"@ != "tableId"@,
        "projectId"@ != "tableId"@,
        "jobId"@ != "location"@,
        "jobId"@ != "projectId"@,
        "location"@ != "projectId"@,
        "location"@ != "query"@,
        "location"@ != "useLegacySql"@,
        "query"@ != "useLegacySql"@,
{
    reveal_strlit("configuration");
    reveal_strlit("jobReference");
    reveal_strlit("destinationTable");
    reveal_strlit("schemaUpdateOptions");
    reveal_strlit("sourceFormat");
    reveal_strlit("writeDisposition");
    reveal_strlit("datasetId");
    reveal_strlit("projectId");
    reveal_strlit("tableId");
    reveal_strlit("jobId");
    reveal_strlit("location");
    reveal_strlit("query");
    reveal_strlit("useLegacySql");
    assert("configuration"@[0] == 'c' && "jobReference"@[0] == 'j');
    assert("destinationTable"@[0] == 'd' && "schemaUpdateOptions"@[1] == 'c');
    assert("sourceFormat"@[1] == 'o' && "writeDisposition"@[0] == 'w');
    assert("schemaUpdateOptions"@[0] == 's' && "sourceFormat"@[0] == 's');
    assert("datasetId"@[0] == 'd' && "projectId"@[0] == 'p' && "tableId"@[0] == 't');
    assert("jobId"@[0] == 'j' && "location"@[0] == 'l' && "query"@[0] == 'q');
    assert("useLegacySql"@[0] == 'u');
}

/// A load job brings lines of JSON into the table that it is for, of the dataset and the project of
/// the backup, under its own identifier and in the location of the backup.
pub proof fn law_load_job_is_for_its_table(sink: BqSink, table: Seq<char>, jid: Seq<char>)
    ensures
        ({
            let doc = load_document(sink, table, jid);
            let load = at(at(doc, "configuration"@), "load"@);
            &&& at(at(load, "destinationTable"@), "tableId"@) == JsonView::Text(table)
            &&& at(at(load, "destinationTable"@), "datasetId"@) == JsonView::Text(sink.dataset@)
            &&& at(at(load, "destinationTable"@), "projectId"@) == JsonView::Text(sink.project@)
            &&& at(load, "sourceFormat"@) == JsonView::Text("NEWLINE_DELIMITED_JSON"@)
            &&& at(load, "writeDisposition"@) == JsonView::Text("WRITE_APPEND"@)
            &&& at(load, "schemaUpdateOptions"@) == JsonView::Array(
                seq![JsonView::Text("ALLOW_FIELD_ADDITION"@)],
            )
            &&& at(at(doc, "jobReference"@), "jobId"@) == JsonView::Text(jid)
            &&& at(at(doc, "jobReference"@), "location"@) == JsonView::Text(sink.location@)
            &&& at(at(doc, "jobReference"@), "projectId"@) == JsonView::Text(sink.project@)
        }),
{
    reveal_load_names();
    let m = load_document(sink, table, jid)->Object_0;
    lemma_found_at(m, 0);
    lemma_found_at(m, 1);
    lemma_found_at(m[0].1->Object_0, 0);
    let load = load_configuration(sink, table)->Object_0;
    lemma_found_at(load, 0);
    lemma_found_at(load, 1);
    lemma_found_at(load, 2);
    lemma_found_at(load, 3);
    let destination = load[0].1->Object_0;
    lemma_found_at(destination, 0);
    lemma_found_at(destination, 1);
    lemma_found_at(destination, 2);
    let reference = m[1].1->Object_0;
    lemma_found_at(reference, 0);
    lemma_found_at(reference, 1);
    lemma_found_at(reference, 2);
}

/// What stands around the data of an upload: the description of the job as JSON, then the data, each
/// set off by the boundary that the content type of the upload names.
pub proof fn law_upload_is_set_off_by_its_boundary(config: Seq<char>)
    ensures
        upload_head(config) == "--"@ + "clarify_bq_boundary"@
            + "\r\nContent-Type: application/json; charset=UTF-8\r\n\r\n"@ + config + "\r\n--"@
            + "clarify_bq_boundary"@ + "\r\nContent-Type: application/octet-stream\r\n\r\n"@,
        upload_tail() == "\r\n--"@ + "clarify_bq_boundary"@ + "--\r\n"@,
        "multipart/related; boundary=clarify_bq_boundary"@ == "multipart/related; boundary="@
            + "clarify_bq_boundary"@,
{
    let b = "clarify_bq_boundary"@;
    let json = "\r\nContent-Type: application/json; charset=UTF-8\r\n\r\n"@;
    let bytes = "\r\nContent-Type: application/octet-stream\r\n\r\n"@;
    assert("--clarify_bq_boundary\r\nContent-Type: application/json; charset=UTF-8\r\n\r\n"@
        =~= "--"@ + b + json) by {
        reveal_strlit(
            "--clarify_bq_boundary\r\nContent-Type: application/json; charset=UTF-8\r\n\r\n",
        );
        reveal_strlit("--");
        reveal_strlit("clarify_bq_boundary");
        reveal_strlit("\r\nContent-Type: application/json; charset=UTF-8\r\n\r\n");
    }
    assert("\r\n--clarify_bq_boundary\r\nContent-Type: application/octet-stream\r\n\r\n"@
        =~= "\r\n--"@ + b + bytes) by {
        reveal_strlit(
            "\r\n--clarify_bq_boundary\r\nContent-Type: application/octet-stream\r\n\r\n",
        );
        reveal_strlit("\r\n--");
        reveal_strlit("clarify_bq_boundary");
        reveal_strlit("\r\nContent-Type: application/octet-stream\r\n\r\n");
    }
    assert("\r\n--clarify_bq_boundary--\r\n"@ =~= "\r\n--"@ + b + "--\r\n"@) by {
        reveal_strlit("\r\n--clarify_bq_boundary--\r\n");
        reveal_strlit("\r\n--");
        reveal_strlit("clarify_bq_boundary");
        reveal_strlit("--\r\n");
    }
    assert("multipart/related; boundary=clarify_bq_boundary"@ =~= "multipart/related; boundary="@
        + b) by {
        reveal_strlit("multipart/related; boundary=clarify_bq_boundary");
        reveal_strlit("multipart/related; boundary=");
        reveal_strlit("clarify_bq_boundary");
    }
    assert("--"@ + b + json + config + ("\r\n--"@ + b + bytes) =~= "--"@ + b + json + config
        + "\r\n--"@ + b + bytes);
}

/// A job is asked about under its own identifier, in the project and the location of the backup;
/// uploads go to the project as well.
pub proof fn law_jobs_are_asked_about_by_identifier(sink: BqSink, jid: Seq<char>)
    ensures
        job_address(sink, jid) == sink.base@ + "/bigquery/v2/projects/"@ + sink.project@
            + "/jobs/"@ + jid + "?location="@ + sink.location@,
        upload_address(sink) == sink.base@ + "/upload"@ + "/bigquery/v2/projects/"@ + sink.project@
            + "/jobs?uploadType=multipart"@,
{
    reveal_strlit("/upload");
    reveal_strlit("/bigquery/v2/projects/");
    reveal_strlit("/upload/bigquery/v2/projects/");
    assert(job_address(sink, jid) =~= sink.base@ + "/bigquery/v2/projects/"@ + sink.project@
        + "/jobs/"@ + jid + "?location="@ + sink.location@);
    assert("/upload/bigquery/v2/projects/"@ =~= "/upload"@ + "/bigquery/v2/projects/"@);
    assert(upload_address(sink) =~= sink.base@ + "/upload"@ + "/bigquery/v2/projects/"@
        + sink.project@ + "/jobs?uploadType=multipart"@);
}

/// What a job's document is taken for: done where its state is `DONE`, failed where it also has an
/// error, whose message is the reason, and with as many rows as it says.
pub proof fn law_job_documents_say_how_jobs_ended(body: JsonView, rows: u64, message: Seq<char>)
    ensures
        job_done(body) <==> at(at(body, "status"@), "state"@) == JsonView::Text("DONE"@),
        job_error(body) == at(at(body, "status"@), "errorResult"@),
        at(at(at(body, "status"@), "errorResult"@), "message"@) == JsonView::Text(message)
            ==> job_failure(body) == message,
        !(at(at(at(body, "status"@), "errorResult"@), "message"@) is Text) ==> job_failure(body)
            == "unknown"@,
        at(at(at(body, "statistics"@), "load"@), "outputRows"@) == JsonView::Text(
            decimal(rows as nat),
        ) ==> job_rows(body) == rows,
        !(at(at(at(body, "statistics"@), "load"@), "outputRows"@) is Text) ==> job_rows(body) == 0,
{
    crate::text::law_decimal_reads_back(rows);
}

/// A query is asked as it is, in standard SQL and in the location of the backup.
pub proof fn law_queries_are_asked_as_they_are(sink: BqSink, sql: Seq<char>)
    ensures
        at(query_document(sink, sql), "query"@) == JsonView::Text(sql),
        at(query_document(sink, sql), "useLegacySql"@) == JsonView::Bool(false),
        at(query_document(sink, sql), "location"@) == JsonView::Text(sink.location@),
{
    reveal_load_names();
    let m = query_document(sink, sql)->Object_0;
    lemma_found_at(m, 0);
    lemma_found_at(m, 1);
    lemma_found_at(m, 2);
}

/// What a query brought is every row and every cell of its response, each in its place.
pub proof fn law_every_cell_is_read(
    body: JsonView,
    rows: Seq<JsonView>,
    cells: Seq<JsonView>,
    i: int,
    j: int,
)
    requires
        at(body, "rows"@) == JsonView::Array(rows),
        0 <= i < rows.len(),
        at(rows[i], "f"@) == JsonView::Array(cells),
        0 <= j < cells.len(),
    ensures
        result_rows(body).len() == rows.len(),
        result_rows(body)[i].len() == cells.len(),
        result_rows(body)[i][j] == at(cells[j], "v"@),
{
    assert(result_rows(body)[i] == row_cells(rows[i]));
}

/// A row without cells is a row that has none.
pub proof fn law_rows_without_cells_stay_rows(body: JsonView, rows: Seq<JsonView>, i: int)
    requires
        at(body, "rows"@) == JsonView::Array(rows),
        0 <= i < rows.len(),
        !(at(rows[i], "f"@) is Array),
    ensures
        result_rows(body).len() == rows.len(),
        result_rows(body)[i].len() == 0,
{
    assert(result_rows(body)[i] == row_cells(rows[i]));
}

/// A response without rows brought none.
pub proof fn law_no_rows_are_made_up(body: JsonView)
    requires
        !(at(body, "rows"@) is Array),
    ensures
        result_rows(body).len() == 0,
{
}

/// A job identifier names the run, the resource and the chunk, in this order.
pub proof fn law_job_ids_name_run_resource_and_chunk(
    run_id: Seq<char>,
    job_key: Seq<char>,
    chunk: nat,
    i: int,
)
    requires
        0 <= i < run_id.len(),
    ensures
        ({
            let id = job_id_text(run_id, job_key, chunk);
            let n = "clarify_bq_"@.len();
            &&& id.len() == n + run_id.len() + 1 + job_key.len() + 1 + decimal(chunk).len()
            &&& id.take(n as int) == "clarify_bq_"@
            &&& id[n + i] == if run_id[i] == '-' {
                '_'
            } else {
                run_id[i]
            }
            &&& id.skip((n + run_id.len()) as int) == "_"@ + job_key + "_"@ + decimal(chunk)
        }),
{
    reveal_strlit("_");
    let id = job_id_text(run_id, job_key, chunk);
    let n = "clarify_bq_"@.len();
    assert(id.take(n as int) =~= "clarify_bq_"@);
    assert(id[n + i] == replaced(run_id, '-', '_')[i]);
    assert(id.skip((n + run_id.len()) as int) =~= "_"@ + job_key + "_"@ + decimal(chunk));
}

/// Every chunk ends behind a line break or with the data, and takes all the lines that still fit:
/// with the line that follows it would be too long.
pub proof fn law_chunks_take_what_fits(
    data: Seq<u8>,
    max_bytes: u64,
    ranges: Seq<(u64, u64)>,
    i: int,
    e: int,
)
    requires
        chunks(data, max_bytes, ranges),
        0 <= i < ranges.len(),
        ranges[i].1 < e <= data.len(),
        data[e - 1] == 10u8 || e == data.len(),
        forall|k: int| ranges[i].1 < k < e ==> #[trigger] data[k - 1] != 10u8,
    ensures
        0 < ranges[i].1 <= data.len(),
        data[ranges[i].1 - 1] == 10u8,
        ranges[i].1 - ranges[i].0 <= max_bytes,
        e - ranges[i].0 > max_bytes,
{
    let r = ranges[i];
    assert(chunk(data, max_bytes, r));
    assert(line_end(data, r.1 as int));
    assert forall|k: int| r.1 < k < e implies !#[trigger] line_end(data, k) by {
        assert(data[k - 1] != 10u8);
    }
    assert(next_end(data, r.1 as int, e));
}

/// Data is not cut where one of its lines is longer than a chunk may be, and is cut where none is
/// and all are UTF-8.
pub proof fn law_lines_that_do_not_fit_are_refused(
    r: Result<Vec<(u64, u64)>, SplitError>,
    data: Seq<u8>,
    max_bytes: u64,
    s: int,
    e: int,
)
    requires
        split(r, data, max_bytes),
        0 <= s < e <= data.len(),
        s == 0 || data[s - 1] == 10u8,
        data[e - 1] == 10u8 || e == data.len(),
        forall|k: int| s < k < e ==> #[trigger] data[k - 1] != 10u8,
    ensures
        r is Ok ==> e - s <= max_bytes && valid_utf8(data.subrange(s, e)),
{
    assert forall|k: int| s < k < e implies !#[trigger] line_end(data, k) by {
        assert(data[k - 1] != 10u8);
    }
    assert(line_at(data, s, e));
}

/// Data of which every line fits is cut.
pub proof fn law_lines_that_fit_are_cut(
    r: Result<Vec<(u64, u64)>, SplitError>,
    data: Seq<u8>,
    max_bytes: u64,
)
    requires
        split(r, data, max_bytes),
        forall|s: int, e: int|
            0 <= s < e <= data.len() ==> valid_utf8(#[trigger] data.subrange(s, e)) && e - s
                <= max_bytes || (s > 0 && data[s - 1] != 10u8) || (data[e - 1] != 10u8 && e
                < data.len()),
    ensures
        r is Ok,
{
    if !all_fit(data, max_bytes) {
        let (s, e) = choose|s: int, e: int|
            #![trigger line_at(data, s, e)]
            line_at(data, s, e) && !fits(data, max_bytes, s, e);
        assert(line_end(data, e));
        let line = data.subrange(s, e);
    }
}

/// An upload stays well below the hundred million bytes that BigQuery takes.
pub proof fn law_uploads_stay_below_the_limit()
    ensures
        MAX_CHUNK_BYTES == 90 * 1024 * 1024,
{
}

} // verus!
