//! CRC32 and line count over the lines of a backup file.
//!
//! A backup is hashed one line at a time, newlines included, by the writer
//! while it writes and by the reader while it reads back. The running CRC32
//! state is a `u32`; feeding a line to it is a call into `crc32fast`.

use vstd::prelude::*;

verus! {

/// The CRC32 state reached from `state` after feeding `bytes` to a
/// `crc32fast::Hasher` that holds `state`.
pub uninterp spec fn crc32_extend(state: u32, bytes: Seq<u8>) -> u32;

/// The CRC32 a fresh hasher reports after being fed `lines` one after
/// another: the fold of `crc32_extend` from the initial state `0`.
pub open spec fn crc32_of_lines(lines: Seq<Seq<u8>>) -> u32
    decreases lines.len(),
{
    if lines.len() == 0 {
        0
    } else {
        crc32_extend(crc32_of_lines(lines.drop_last()), lines.last())
    }
}

/// Continues a CRC32 computation: `crc32fast::Hasher::new_with_initial`,
/// `Hasher::update` and `Hasher::finalize`. The crate keeps its whole
/// hashing state in the `u32` that `finalize` returns and that
/// `new_with_initial` takes back, so the result is `crc32_extend(state, bytes)`,
/// a function of the two arguments alone. What that value is for given bytes
/// (the CRC32 polynomial arithmetic) is not stated here.
#[verifier::external_body]
fn crc32_update(state: u32, bytes: &[u8]) -> (next: u32)
    ensures
        next == crc32_extend(state, bytes@),
{
    let mut hasher = crc32fast::Hasher::new_with_initial(state);
    hasher.update(bytes);
    hasher.finalize()
}

/// Line count and CRC32 over every line seen so far, in order.
pub struct BackupTally {
    count: usize,
    crc32: u32,
    lines: Ghost<Seq<Seq<u8>>>,
}

impl View for BackupTally {
    type V = Seq<Seq<u8>>;

    closed spec fn view(&self) -> Seq<Seq<u8>> {
        self.lines@
    }
}

impl BackupTally {
    /// The count and checksum agree with the lines seen.
    pub closed spec fn wf(&self) -> bool {
        &&& self.count == self.lines@.len()
        &&& self.crc32 == crc32_of_lines(self.lines@)
    }

    /// A tally over no lines.
    pub fn new() -> (tally: BackupTally)
        ensures
            tally.wf(),
            tally@ == Seq::<Seq<u8>>::empty(),
    {
        BackupTally { count: 0, crc32: 0, lines: Ghost(Seq::empty()) }
    }

    /// Counts `line` and feeds its bytes to the checksum.
    pub fn add_line(&mut self, line: &[u8])
        requires
            old(self).wf(),
            old(self)@.len() < usize::MAX,
        ensures
            final(self).wf(),
            final(self)@ == old(self)@.push(line@),
    {
        self.crc32 = crc32_update(self.crc32, line);
        self.count = self.count + 1;
        self.lines = Ghost(self.lines@.push(line@));
        assert(self.lines@.drop_last() =~= old(self).lines@);
    }

    /// Number of lines seen.
    pub fn count(&self) -> (n: usize)
        requires
            self.wf(),
        ensures
            n == self@.len(),
    {
        self.count
    }

    /// CRC32 over the bytes of every line seen, in order.
    pub fn crc32(&self) -> (crc: u32)
        requires
            self.wf(),
        ensures
            crc == crc32_of_lines(self@),
    {
        self.crc32
    }
}

} // verus!
