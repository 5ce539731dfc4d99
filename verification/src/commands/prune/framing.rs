//! JSON Lines framing of backup files.
//!
//! A writer frames each record as its bytes followed by a newline. A reader
//! cuts the bytes of a file into lines the way `BufRead::read_until(b'\n')`
//! does: each line runs up to and including the next newline, and whatever
//! follows the last newline is one more line. Both sides tally the lines they
//! handle, so a file read back yields the count and checksum it was written
//! with.

use vstd::prelude::*;
use crate::commands::prune::checksum::{crc32_of_lines, BackupTally};

verus! {

broadcast use vstd::seq::Seq::group_seq_flatten;

/// The byte that ends a line.
pub const NEWLINE: u8 = 10u8;

/// `bytes` holds no newline.
pub open spec fn has_no_newline(bytes: Seq<u8>) -> bool {
    forall|i: int| 0 <= i < bytes.len() ==> bytes[i] != NEWLINE
}

/// A complete line: some bytes without a newline, then one newline.
pub open spec fn is_complete_line(line: Seq<u8>) -> bool {
    &&& line.len() > 0
    &&& line.last() == NEWLINE
    &&& has_no_newline(line.drop_last())
}

/// A final fragment: the non-empty bytes after the last newline of a file.
pub open spec fn is_final_fragment(line: Seq<u8>) -> bool {
    line.len() > 0 && has_no_newline(line)
}

/// `lines` is how a reader cuts a file: every line is complete, except that
/// the last one may be a final fragment.
pub open spec fn is_framing(lines: Seq<Seq<u8>>) -> bool {
    forall|i: int|
        0 <= i < lines.len() ==> (#[trigger] is_complete_line(lines[i]) || (i == lines.len() - 1
            && is_final_fragment(lines[i])))
}

/// The line a writer emits for a record.
pub open spec fn framed_record(record: Seq<u8>) -> Seq<u8> {
    record.push(NEWLINE)
}

/// Every line of `lines` is complete.
pub open spec fn all_complete(lines: Seq<Seq<u8>>) -> bool {
    forall|i: int| 0 <= i < lines.len() ==> #[trigger] is_complete_line(lines[i])
}

proof fn lemma_prefix_lengths<A>(a: Seq<A>, b: Seq<A>, ra: Seq<A>, rb: Seq<A>)
    requires
        a + ra == b + rb,
        a.len() <= b.len(),
    ensures
        forall|i: int| 0 <= i < a.len() ==> a[i] == b[i],
        b.len() <= (a + ra).len(),
{
    assert forall|i: int| 0 <= i < a.len() implies a[i] == b[i] by {
        assert((a + ra)[i] == a[i]);
        assert((b + rb)[i] == b[i]);
    }
}

/// Two framings of the same bytes are the same lines: the way a reader cuts
/// a file into lines is unique.
pub proof fn lemma_framing_is_unique(a: Seq<Seq<u8>>, b: Seq<Seq<u8>>)
    requires
        is_framing(a),
        is_framing(b),
        a.flatten() == b.flatten(),
    ensures
        a == b,
    decreases a.len(),
{
    if a.len() == 0 {
        if b.len() > 0 {
            assert(is_complete_line(b[0]) || is_final_fragment(b[0]));
            assert(b.flatten() == b[0] + b.drop_first().flatten());
        }
        assert(a =~= b);
    } else if b.len() == 0 {
        assert(is_complete_line(a[0]) || is_final_fragment(a[0]));
        assert(a.flatten() == a[0] + a.drop_first().flatten());
    } else {
        let x = a[0];
        let y = b[0];
        let ra = a.drop_first().flatten();
        let rb = b.drop_first().flatten();
        assert(a.flatten() == x + ra);
        assert(b.flatten() == y + rb);
        assert(is_complete_line(x) || (0 == a.len() - 1 && is_final_fragment(x)));
        assert(is_complete_line(y) || (0 == b.len() - 1 && is_final_fragment(y)));
        if x.len() < y.len() {
            lemma_prefix_lengths(x, y, ra, rb);
            if is_complete_line(x) {
                assert(y[x.len() - 1] == NEWLINE);
                if is_complete_line(y) {
                    assert(y.drop_last()[x.len() - 1] == y[x.len() - 1]);
                }
            } else {
                assert(a.drop_first().len() == 0);
                assert(ra.len() == 0);
            }
        } else if y.len() < x.len() {
            lemma_prefix_lengths(y, x, rb, ra);
            if is_complete_line(y) {
                assert(x[y.len() - 1] == NEWLINE);
                if is_complete_line(x) {
                    assert(x.drop_last()[y.len() - 1] == x[y.len() - 1]);
                }
            } else {
                assert(b.drop_first().len() == 0);
                assert(rb.len() == 0);
            }
        } else {
            lemma_prefix_lengths(x, y, ra, rb);
            assert(x =~= y);
            assert(ra =~= rb) by {
                assert forall|i: int| 0 <= i < ra.len() implies ra[i] == rb[i] by {
                    assert((x + ra)[x.len() + i] == ra[i]);
                    assert((y + rb)[y.len() + i] == rb[i]);
                }
            }
            let ta = a.drop_first();
            let tb = b.drop_first();
            assert(is_framing(ta)) by {
                assert forall|i: int| 0 <= i < ta.len() implies #[trigger] is_complete_line(ta[i])
                    || (i == ta.len() - 1 && is_final_fragment(ta[i])) by {
                    assert(ta[i] == a[i + 1]);
                    assert(is_complete_line(a[i + 1]) || (i + 1 == a.len() - 1
                        && is_final_fragment(a[i + 1])));
                }
            }
            assert(is_framing(tb)) by {
                assert forall|i: int| 0 <= i < tb.len() implies #[trigger] is_complete_line(tb[i])
                    || (i == tb.len() - 1 && is_final_fragment(tb[i])) by {
                    assert(tb[i] == b[i + 1]);
                    assert(is_complete_line(b[i + 1]) || (i + 1 == b.len() - 1
                        && is_final_fragment(b[i + 1])));
                }
            }
            lemma_framing_is_unique(ta, tb);
            assert(a =~= b) by {
                assert forall|i: int| 0 <= i < a.len() implies a[i] == b[i] by {
                    if i > 0 {
                        assert(a[i] == ta[i - 1]);
                        assert(b[i] == tb[i - 1]);
                    }
                }
            }
        }
    }
}

/// Reading back what a writer wrote gives the lines it wrote: if the
/// written lines are complete and a reader's framing covers the same bytes,
/// the reader sees the same lines, hence the same count and checksum.
pub proof fn lemma_read_back_matches_written(written: Seq<Seq<u8>>, read: Seq<Seq<u8>>)
    requires
        all_complete(written),
        is_framing(read),
        read.flatten() == written.flatten(),
    ensures
        read == written,
        read.len() == written.len(),
        crc32_of_lines(read) == crc32_of_lines(written),
{
    assert(is_framing(written));
    lemma_framing_is_unique(read, written);
}

/// A record without a newline is framed as one complete line.
pub proof fn lemma_framed_record_is_complete(record: Seq<u8>)
    requires
        has_no_newline(record),
    ensures
        is_complete_line(framed_record(record)),
{
    assert(framed_record(record).drop_last() =~= record);
}

/// Cuts a stream of bytes, fed in chunks of any size, into lines.
pub struct LineSplitter {
    pending: Vec<u8>,
    seen: Ghost<Seq<u8>>,
    done: Ghost<Seq<Seq<u8>>>,
}

/// The byte views of a vector of lines.
pub open spec fn line_views(lines: Seq<Vec<u8>>) -> Seq<Seq<u8>> {
    lines.map_values(|line: Vec<u8>| line@)
}

impl LineSplitter {
    /// Every byte fed so far.
    pub closed spec fn seen(&self) -> Seq<u8> {
        self.seen@
    }

    /// Every complete line handed out so far.
    pub closed spec fn done(&self) -> Seq<Seq<u8>> {
        self.done@
    }

    /// The bytes after the last newline fed, held until a newline or the end.
    pub closed spec fn pending(&self) -> Seq<u8> {
        self.pending@
    }

    /// The lines handed out and the pending bytes are exactly the bytes fed.
    pub closed spec fn wf(&self) -> bool {
        &&& self.done@.flatten() + self.pending@ == self.seen@
        &&& all_complete(self.done@)
        &&& has_no_newline(self.pending@)
    }

    /// A splitter that has seen nothing.
    pub fn new() -> (splitter: LineSplitter)
        ensures
            splitter.wf(),
            splitter.seen() == Seq::<u8>::empty(),
            splitter.done() == Seq::<Seq<u8>>::empty(),
    {
        let splitter = LineSplitter {
            pending: Vec::new(),
            seen: Ghost(Seq::empty()),
            done: Ghost(Seq::empty()),
        };
        assert(splitter.done@.flatten() + splitter.pending@ =~= splitter.seen@);
        splitter
    }

    /// Takes the next chunk of bytes and returns the lines it completes, in
    /// order, each ending with its newline.
    pub fn feed(&mut self, chunk: &[u8]) -> (lines: Vec<Vec<u8>>)
        requires
            old(self).wf(),
        ensures
            final(self).wf(),
            final(self).seen() == old(self).seen() + chunk@,
            final(self).done() == old(self).done() + line_views(lines@),
    {
        let mut lines: Vec<Vec<u8>> = Vec::new();
        let ghost done0 = self.done@;
        let ghost seen0 = self.seen@;
        let mut i: usize = 0;
        while i < chunk.len()
            invariant
                i <= chunk.len(),
                self.wf(),
                self.seen@ == seen0 + chunk@.subrange(0, i as int),
                self.done@ == done0 + line_views(lines@),
            decreases chunk.len() - i,
        {
            let byte = chunk[i];
            let ghost before = self.pending@;
            let ghost seen_before = self.seen@;
            self.pending.push(byte);
            self.seen = Ghost(self.seen@.push(byte));
            assert(chunk@.subrange(0, i + 1) == chunk@.subrange(0, i as int).push(byte));
            if byte == NEWLINE {
                let mut line: Vec<u8> = Vec::new();
                std::mem::swap(&mut line, &mut self.pending);
                assert(line@.drop_last() == before);
                let ghost old_done = self.done@;
                self.done = Ghost(self.done@.push(line@));
                proof {
                    assert(self.done@.flatten() == old_done.flatten() + line@);
                    assert(old_done.flatten() + before == seen_before);
                    assert(self.seen@ == seen_before.push(byte));
                    assert((old_done.flatten() + before) + seq![byte] =~= self.seen@);
                    assert(line@ == before + seq![byte]);
                    assert(self.done@.flatten() + self.pending@ =~= self.seen@);
                    assert forall|k: int| 0 <= k < self.done@.len() implies #[trigger] is_complete_line(
                        self.done@[k],
                    ) by {
                        if k < old_done.len() {
                            assert(self.done@[k] == old_done[k]);
                        }
                    }
                }
                let ghost lines_before = lines@;
                lines.push(line);
                assert(lines@.drop_last() == lines_before);
                assert(line_views(lines@) == line_views(lines_before).push(lines@.last()@));
            } else {
                assert(self.pending@ == before.push(byte));
                assert(has_no_newline(self.pending@));
                assert(self.done@.flatten() + self.pending@ =~= self.seen@);
            }
            i = i + 1;
        }
        assert(chunk@.subrange(0, chunk@.len() as int) == chunk@);
        lines
    }

    /// Ends the stream: the bytes after the last newline, if there are any,
    /// are the last line.
    pub fn finish(self) -> (rest: Option<Vec<u8>>)
        requires
            self.wf(),
        ensures
            match rest {
                Some(line) => line@ == self.pending() && is_final_fragment(line@),
                None => self.pending() == Seq::<u8>::empty(),
            },
    {
        if self.pending.len() == 0 {
            assert(self.pending@ =~= Seq::<u8>::empty());
            None
        } else {
            Some(self.pending)
        }
    }
}

/// Frames records as JSON Lines and tallies every line it frames.
pub struct BackupWriter {
    tally: BackupTally,
}

impl View for BackupWriter {
    type V = Seq<Seq<u8>>;

    /// The lines framed so far.
    closed spec fn view(&self) -> Seq<Seq<u8>> {
        self.tally@
    }
}

impl BackupWriter {
    pub closed spec fn wf(&self) -> bool {
        self.tally.wf()
    }

    /// A writer that has framed nothing.
    pub fn create() -> (writer: BackupWriter)
        ensures
            writer.wf(),
            writer@ == Seq::<Seq<u8>>::empty(),
    {
        BackupWriter { tally: BackupTally::new() }
    }

    /// Frames one serialised record: returns the line to write, the record's
    /// bytes followed by a newline, and counts and hashes that line.
    pub fn write_record(&mut self, record: &[u8]) -> (line: Vec<u8>)
        requires
            old(self).wf(),
            old(self)@.len() < usize::MAX,
        ensures
            final(self).wf(),
            line@ == framed_record(record@),
            final(self)@ == old(self)@.push(line@),
    {
        let mut line: Vec<u8> = Vec::new();
        let mut i: usize = 0;
        while i < record.len()
            invariant
                i <= record.len(),
                line@ == record@.subrange(0, i as int),
            decreases record.len() - i,
        {
            line.push(record[i]);
            assert(record@.subrange(0, i + 1) == record@.subrange(0, i as int).push(record@[i as int]));
            i = i + 1;
        }
        assert(record@.subrange(0, record@.len() as int) == record@);
        line.push(NEWLINE);
        self.tally.add_line(line.as_slice());
        line
    }

    /// The number of records written and the CRC32 over every line.
    pub fn finish(&self) -> (summary: (usize, u32))
        requires
            self.wf(),
        ensures
            summary.0 == self@.len(),
            summary.1 == crc32_of_lines(self@),
    {
        (self.tally.count(), self.tally.crc32())
    }
}

/// Reads a backup file back, chunk by chunk, cutting it into lines and
/// tallying each line.
pub struct BackupReader {
    splitter: LineSplitter,
    tally: BackupTally,
}

impl BackupReader {
    pub closed spec fn wf(&self) -> bool {
        &&& self.splitter.wf()
        &&& self.tally.wf()
        &&& self.tally@ == self.splitter.done()
        &&& self.splitter.seen().len() <= usize::MAX
    }

    /// Every byte fed so far.
    pub closed spec fn seen(&self) -> Seq<u8> {
        self.splitter.seen()
    }

    /// Every line handed out so far.
    pub closed spec fn lines(&self) -> Seq<Seq<u8>> {
        self.splitter.done()
    }

    /// A reader that has read nothing.
    pub fn new() -> (reader: BackupReader)
        ensures
            reader.wf(),
            reader.seen() == Seq::<u8>::empty(),
            reader.lines() == Seq::<Seq<u8>>::empty(),
    {
        BackupReader { splitter: LineSplitter::new(), tally: BackupTally::new() }
    }

    /// Takes the next chunk of the file and returns the lines it completes.
    pub fn feed(&mut self, chunk: &[u8]) -> (lines: Vec<Vec<u8>>)
        requires
            old(self).wf(),
            old(self).seen().len() + chunk@.len() <= usize::MAX,
        ensures
            final(self).wf(),
            final(self).seen() == old(self).seen() + chunk@,
            final(self).lines() == old(self).lines() + line_views(lines@),
    {
        let lines = self.splitter.feed(chunk);
        let ghost done0 = self.tally@;
        let ghost seen1 = self.splitter.seen();
        let mut i: usize = 0;
        while i < lines.len()
            invariant
                i <= lines.len(),
                self.tally.wf(),
                self.splitter.wf(),
                self.splitter.done() == done0 + line_views(lines@),
                self.tally@ == done0 + line_views(lines@).subrange(0, i as int),
                self.splitter.seen() == seen1,
                self.splitter.seen().len() <= usize::MAX,
                self.splitter.done().flatten().len() <= self.splitter.seen().len(),
            decreases lines.len() - i,
        {
            proof {
                lemma_complete_lines_fit(self.splitter.done());
                assert(self.splitter.done().len() <= self.splitter.seen().len());
                assert(self.tally@.len() < self.splitter.done().len());
            }
            self.tally.add_line(lines[i].as_slice());
            assert(line_views(lines@).subrange(0, i + 1) == line_views(lines@).subrange(
                0,
                i as int,
            ).push(lines@[i as int]@));
            i = i + 1;
        }
        assert(line_views(lines@).subrange(0, lines@.len() as int) == line_views(lines@));
        lines
    }

    /// Ends the file: returns the last line if the file does not end with a
    /// newline, and the number of lines and the CRC32 over all of them.
    pub fn finish(self) -> (summary: (Option<Vec<u8>>, usize, u32))
        requires
            self.wf(),
        ensures
            ({
                let all = match summary.0 {
                    Some(line) => self.lines().push(line@),
                    None => self.lines(),
                };
                &&& is_framing(all)
                &&& all.flatten() == self.seen()
                &&& summary.1 == all.len()
                &&& summary.2 == crc32_of_lines(all)
            }),
    {
        let mut tally = self.tally;
        let ghost done = self.splitter.done();
        let ghost pending = self.splitter.pending();
        proof {
            lemma_complete_lines_fit(done);
        }
        let rest = self.splitter.finish();
        match rest {
            Some(line) => {
                proof {
                    assert(done.flatten().len() + pending.len() == self.seen().len());
                    assert(done.flatten().len() + 1 <= self.seen().len());
                }
                tally.add_line(line.as_slice());
                let count = tally.count();
                let crc = tally.crc32();
                proof {
                    let all = done.push(line@);
                    assert(all.flatten() == done.flatten() + line@);
                    assert forall|i: int| 0 <= i < all.len() implies #[trigger] is_complete_line(
                        all[i],
                    ) || (i == all.len() - 1 && is_final_fragment(all[i])) by {
                        if i < done.len() {
                            assert(all[i] == done[i]);
                        }
                    }
                }
                (Some(line), count, crc)
            },
            None => {
                proof {
                    assert(done.flatten() + pending =~= done.flatten());
                    assert forall|i: int| 0 <= i < done.len() implies #[trigger] is_complete_line(
                        done[i],
                    ) || (i == done.len() - 1 && is_final_fragment(done[i])) by {}
                }
                let count = tally.count();
                let crc = tally.crc32();
                (None, count, crc)
            },
        }
    }
}

/// Complete lines hold at least one byte each, so there are no more of them
/// than bytes.
proof fn lemma_complete_lines_fit(lines: Seq<Seq<u8>>)
    requires
        all_complete(lines),
    ensures
        lines.len() <= lines.flatten().len(),
    decreases lines.len(),
{
    if lines.len() > 0 {
        let init = lines.drop_last();
        assert(all_complete(init)) by {
            assert forall|i: int| 0 <= i < init.len() implies #[trigger] is_complete_line(init[i]) by {
                assert(init[i] == lines[i]);
            }
        }
        lemma_complete_lines_fit(init);
        assert(lines == init.push(lines.last()));
        assert(is_complete_line(lines[lines.len() - 1]));
    }
}

/// `count` and `crc32` are what reading back `file` observes: the number of
/// lines a reader cuts it into, and the CRC32 over those lines.
pub open spec fn read_back_summary(file: Seq<u8>, count: nat, crc32: u32) -> bool {
    exists|lines: Seq<Seq<u8>>|
        is_framing(lines) && lines.flatten() == file && count == lines.len() && crc32
            == crc32_of_lines(lines)
}

/// Reads a whole backup file back: its line count and the CRC32 over its
/// lines, newlines included.
pub fn crc_and_count(file: &[u8]) -> (summary: (usize, u32))
    ensures
        read_back_summary(file@, summary.0 as nat, summary.1),
{
    let mut reader = BackupReader::new();
    let size = file.len();
    assert(file@.len() == size);
    let _lines = reader.feed(file);
    assert(Seq::<u8>::empty() + file@ =~= file@);
    let (_rest, count, crc32) = reader.finish();
    (count, crc32)
}

/// Reading back what a writer wrote reproduces the writer's summary: when
/// the file holds exactly the lines a `BackupWriter` framed for records
/// without newlines, the count and CRC32 that `crc_and_count` observes are
/// the number of records and the CRC32 the writer's `finish` reports.
pub proof fn lemma_read_back_reproduces_writer(
    records: Seq<Seq<u8>>,
    file: Seq<u8>,
    count: nat,
    crc32: u32,
)
    requires
        forall|i: int| 0 <= i < records.len() ==> has_no_newline(#[trigger] records[i]),
        file == records.map_values(|r: Seq<u8>| framed_record(r)).flatten(),
        read_back_summary(file, count, crc32),
    ensures
        count == records.len(),
        crc32 == crc32_of_lines(records.map_values(|r: Seq<u8>| framed_record(r))),
{
    let written = records.map_values(|r: Seq<u8>| framed_record(r));
    assert(all_complete(written)) by {
        assert forall|i: int| 0 <= i < written.len() implies #[trigger] is_complete_line(
            written[i],
        ) by {
            lemma_framed_record_is_complete(records[i]);
        }
    }
    let read = choose|lines: Seq<Seq<u8>>|
        is_framing(lines) && lines.flatten() == file && count == lines.len() && crc32
            == crc32_of_lines(lines);
    lemma_read_back_matches_written(written, read);
}

} // verus!
