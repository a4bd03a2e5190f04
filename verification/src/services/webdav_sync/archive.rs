//! The skills archive of a WebDAV sync: limits on what an uploaded `skills.zip` may
//! unpack to, the names its entries get, and the errors it reports. Walking and
//! writing directories is left to the caller.

use vstd::prelude::*;
use vstd::string::*;
use crate::paths::{join_path, join_spec};
use std::io::Cursor;
use std::io::Read;

verus! {

/// The most entries a `skills.zip` may hold.
pub const MAX_ZIP_ENTRIES: usize = 10_000;

/// The most bytes a `skills.zip` may unpack to (512 MB).
pub const MAX_ZIP_EXTRACT_BYTES: u64 = 512 * 1024 * 1024;

/// The size of the chunks in which an entry is copied.
pub const COPY_CHUNK_BYTES: usize = 16 * 1024;

/// An error of packing or unpacking the skills archive.
#[derive(Debug)]
pub enum ArchiveError {
    /// An error with a message key and its Chinese and English texts.
    Localized { key: String, zh: String, en: String },
    /// A failed I/O operation on a path.
    Io { path: String, message: String },
    /// A failed I/O operation, with a description of what was being done.
    IoContext { context: String, message: String },
}

impl ArchiveError {
    /// The text shown to the user: the Chinese text of a localized error, the path and
    /// the message of an I/O error, the context and the message of the others.
    pub fn message(&self) -> (text: String)
        ensures
            text@ == match self {
                ArchiveError::Localized { zh, .. } => zh@,
                ArchiveError::Io { path, message } => path@ + ": "@ + message@,
                ArchiveError::IoContext { context, message } => context@ + ": "@ + message@,
            },
    {
        match self {
            ArchiveError::Localized { zh, .. } => zh.clone(),
            ArchiveError::Io { path, message } => {
                let mut text = path.clone();
                text.append(": ");
                text.append(message.as_str());
                text
            },
            ArchiveError::IoContext { context, message } => {
                let mut text = context.clone();
                text.append(": ");
                text.append(message.as_str());
                text
            },
        }
    }
}

/// A localized error.
pub fn localized(key: &str, zh: String, en: String) -> (err: ArchiveError)
    ensures
        err matches ArchiveError::Localized { key: k, zh: z, en: e } && k@ == key@ && z@ == zh@ && e@ == en@,
{
    ArchiveError::Localized { key: String::from_str(key), zh, en }
}

/// An I/O error with a context made of the Chinese and the English description:
/// `zh (en)`.
pub fn io_context_localized(key: &str, zh: &str, en: &str, message: String) -> (err: ArchiveError)
    ensures
        err matches ArchiveError::IoContext { context, message: m }
            && context@ == zh@ + " ("@ + en@ + ")"@ && m@ == message@,
{
    let mut context = String::from_str(zh);
    context.append(" (");
    context.append(en);
    context.append(")");
    ArchiveError::IoContext { context, message }
}

/// The decimal digit `d`.
pub open spec fn digit_char(d: nat) -> char {
    if d == 0 { '0' } else if d == 1 { '1' } else if d == 2 { '2' } else if d == 3 { '3' }
    else if d == 4 { '4' } else if d == 5 { '5' } else if d == 6 { '6' } else if d == 7 { '7' }
    else if d == 8 { '8' } else { '9' }
}

/// The decimal text of a number, as `u64::to_string` writes it.
pub open spec fn decimal_spec(n: nat) -> Seq<char>
    decreases n,
{
    if n < 10 {
        seq![digit_char(n)]
    } else {
        decimal_spec(n / 10) + seq![digit_char(n % 10)]
    }
}

/// The number that decimal text stands for.
pub open spec fn decimal_value(text: Seq<char>) -> int
    decreases text.len(),
{
    if text.len() == 0 {
        0
    } else {
        decimal_value(text.drop_last()) * 10 + (text.last() as int - '0' as int)
    }
}

/// A digit character stands for its digit.
proof fn lemma_digit_char(d: nat)
    requires
        d < 10,
    ensures
        digit_char(d) as int - '0' as int == d,
        '0' <= digit_char(d) <= '9',
{
}

/// The decimal text of a number is made of digits, starts with `0` only when it is
/// `0` itself (so it has no leading zero), has one digit exactly below ten, and reads
/// back as the number.
pub proof fn law_decimal_reads_back(n: nat)
    ensures
        decimal_value(decimal_spec(n)) == n,
        decimal_spec(n).len() > 0,
        forall|i: int| 0 <= i < decimal_spec(n).len() ==> '0' <= #[trigger] decimal_spec(n)[i] <= '9',
        decimal_spec(n)[0] == '0' ==> n == 0,
        decimal_spec(n).len() == 1 <==> n < 10,
    decreases n,
{
    let t = decimal_spec(n);
    if n < 10 {
        lemma_digit_char(n);
        assert(t.drop_last() =~= Seq::<char>::empty());
        assert(decimal_value(t.drop_last()) == 0);
        assert(t.last() == digit_char(n));
    } else {
        law_decimal_reads_back(n / 10);
        lemma_digit_char(n % 10);
        assert(t.drop_last() =~= decimal_spec(n / 10));
        assert(t.last() == digit_char(n % 10));
        assert(decimal_value(t) == decimal_value(t.drop_last()) * 10 + (t.last() as int - '0' as int));
        assert((n / 10) * 10 + n % 10 == n);
        assert(t[0] == decimal_spec(n / 10)[0]);
        assert forall|i: int| 0 <= i < t.len() implies '0' <= #[trigger] t[i] <= '9' by {
            if i < t.len() - 1 {
                assert(t[i] == decimal_spec(n / 10)[i]);
            }
        }
    }
}

/// The text of one decimal digit.
fn digit_text(d: u64) -> (text: &'static str)
    requires
        d < 10,
    ensures
        text@ == seq![digit_char(d as nat)],
{
    proof {
        reveal_strlit("0"); reveal_strlit("1"); reveal_strlit("2"); reveal_strlit("3"); reveal_strlit("4");
        reveal_strlit("5"); reveal_strlit("6"); reveal_strlit("7"); reveal_strlit("8"); reveal_strlit("9");
    }
    if d == 0 { "0" } else if d == 1 { "1" } else if d == 2 { "2" } else if d == 3 { "3" }
    else if d == 4 { "4" } else if d == 5 { "5" } else if d == 6 { "6" } else if d == 7 { "7" }
    else if d == 8 { "8" } else { "9" }
}

/// The decimal text of a number.
pub fn decimal_text(n: u64) -> (text: String)
    ensures
        text@ == decimal_spec(n as nat),
    decreases n,
{
    if n < 10 {
        String::from_str(digit_text(n))
    } else {
        let mut text = decimal_text(n / 10);
        text.append(digit_text(n % 10));
        text
    }
}

/// The error for an archive that would unpack to more than `max_total_bytes`, which
/// it names in whole megabytes.
pub fn too_large_error(max_total_bytes: u64) -> (err: ArchiveError)
    ensures
        err matches ArchiveError::Localized { key, zh, en }
            && key@ == "webdav.sync.skills_zip_too_large"@
            && zh@ == "skills.zip 解压后体积超过上限（"@ + decimal_spec((max_total_bytes / 1024 / 1024) as nat) + " MB）"@
            && en@ == "skills.zip extracted size exceeds limit ("@ + decimal_spec((max_total_bytes / 1024 / 1024) as nat) + " MB)"@,
{
    let max_mb = max_total_bytes / 1024 / 1024;
    let mb = decimal_text(max_mb);
    let mut zh = String::from_str("skills.zip 解压后体积超过上限（");
    zh.append(mb.as_str());
    zh.append(" MB）");
    let mut en = String::from_str("skills.zip extracted size exceeds limit (");
    en.append(mb.as_str());
    en.append(" MB)");
    localized("webdav.sync.skills_zip_too_large", zh, en)
}

/// The error for an archive with more than `MAX_ZIP_ENTRIES` entries.
pub fn too_many_entries_error(count: usize) -> (err: ArchiveError)
    ensures
        err matches ArchiveError::Localized { key, zh, en }
            && key@ == "webdav.sync.skills_zip_too_many_entries"@
            && zh@ == "skills.zip 条目数过多（"@ + decimal_spec(count as nat) + "），上限 "@ + decimal_spec(MAX_ZIP_ENTRIES as nat)
            && en@ == "skills.zip has too many entries ("@ + decimal_spec(count as nat) + "), limit is "@ + decimal_spec(MAX_ZIP_ENTRIES as nat),
{
    let n = decimal_text(count as u64);
    let limit = decimal_text(MAX_ZIP_ENTRIES as u64);
    let mut zh = String::from_str("skills.zip 条目数过多（");
    zh.append(n.as_str());
    zh.append("），上限 ");
    zh.append(limit.as_str());
    let mut en = String::from_str("skills.zip has too many entries (");
    en.append(n.as_str());
    en.append("), limit is ");
    en.append(limit.as_str());
    localized("webdav.sync.skills_zip_too_many_entries", zh, en)
}

/// Refuses an archive with more than `MAX_ZIP_ENTRIES` entries.
pub fn check_zip_entry_count(count: usize) -> (result: Result<(), ArchiveError>)
    ensures
        result is Ok <==> count <= MAX_ZIP_ENTRIES,
        result matches Err(e) ==> e matches ArchiveError::Localized { key, zh, en }
            && key@ == "webdav.sync.skills_zip_too_many_entries"@
            && zh@ == "skills.zip 条目数过多（"@ + decimal_spec(count as nat) + "），上限 "@ + decimal_spec(MAX_ZIP_ENTRIES as nat)
            && en@ == "skills.zip has too many entries ("@ + decimal_spec(count as nat) + "), limit is "@ + decimal_spec(MAX_ZIP_ENTRIES as nat),
{
    if count > MAX_ZIP_ENTRIES {
        Err(too_many_entries_error(count))
    } else {
        Ok(())
    }
}

/// `total.saturating_add(n)`: the running total after `n` more bytes.
pub open spec fn saturating_total(total: u64, n: nat) -> u64 {
    if total + n > u64::MAX { u64::MAX } else { (total + n) as u64 }
}

/// Whether a chunk of `n` bytes may still be written when the running total is
/// `total`: the sum, saturated at `u64::MAX`, must stay within the limit.
pub open spec fn chunk_fits(total: u64, n: nat, max_total_bytes: u64) -> bool {
    saturating_total(total, n) <= max_total_bytes
}

/// `total.saturating_add(n) <= max_total_bytes`.
pub fn chunk_admitted(total: u64, n: u64, max_total_bytes: u64) -> (fits: bool)
    ensures
        fits == chunk_fits(total, n as nat, max_total_bytes),
{
    let sum: u64 = if total > u64::MAX - n { u64::MAX } else { total + n };
    sum <= max_total_bytes
}

/// `std::io::Cursor`, the in-memory reader of an entry.
#[verifier::external_type_specification]
#[verifier::external_body]
#[verifier::reject_recursive_types(T)]
pub struct ExCursor<T>(Cursor<T>);

/// The bytes a cursor has still to yield: those of its buffer from its position on.
pub uninterp spec fn cursor_unread(cursor: Cursor<Vec<u8>>) -> Seq<u8>;

/// The length of a read when `unread` bytes are left: a whole chunk, or what is left.
pub open spec fn full_chunk_len(unread: nat) -> nat {
    if unread < COPY_CHUNK_BYTES { unread } else { COPY_CHUNK_BYTES as nat }
}

/// A source of the bytes of an archive entry, read in chunks.
pub trait EntryReader: Sized {
    /// The bytes the source has still to deliver.
    spec fn unread(&self) -> Seq<u8>;

    /// Whether a read from this source may fail. A source whose reads cannot fail
    /// stays so.
    spec fn read_may_fail(&self) -> bool;

    /// Reads the next chunk: the first `COPY_CHUNK_BYTES` bytes of what is unread, or
    /// all of it when less is left (nothing at the end); or the error's text.
    fn read_chunk(&mut self) -> (chunk: Result<Vec<u8>, String>)
        ensures
            !old(self).read_may_fail() ==> chunk is Ok && !final(self).read_may_fail(),
            chunk matches Ok(c) ==> {
                &&& c@.len() == full_chunk_len(old(self).unread().len())
                &&& old(self).unread() == c@ + final(self).unread()
            },
    ;
}

/// A destination of the bytes of an archive entry.
pub trait EntryWriter: Sized {
    /// The bytes written so far.
    spec fn written(&self) -> Seq<u8>;

    /// Whether a write to this destination may fail. A destination whose writes cannot
    /// fail stays so.
    spec fn write_may_fail(&self) -> bool;

    /// Writes a whole chunk; on success the chunk follows what was written before, on
    /// failure a part of its start may have been written.
    fn write_chunk(&mut self, chunk: &[u8]) -> (result: Result<(), String>)
        ensures
            !old(self).write_may_fail() ==> result is Ok && !final(self).write_may_fail(),
            result is Ok ==> final(self).written() == old(self).written() + chunk@,
            result is Err ==> exists|k: int|
                0 <= k <= chunk@.len() && final(self).written() == old(self).written() + #[trigger] chunk@.take(k),
    ;
}

/// `Cursor::new`: a cursor at the start of the bytes, which it has all still to yield.
#[verifier::external_body]
fn entry_cursor(bytes: Vec<u8>) -> (cursor: Cursor<Vec<u8>>)
    ensures
        cursor_unread(cursor) == bytes@,
{
    Cursor::new(bytes)
}

/// `Read::read` of a cursor over a vector into a buffer of `COPY_CHUNK_BYTES`.
/// Claimed: reading from memory does not fail; the cursor copies the first
/// `min(COPY_CHUNK_BYTES, unread)` bytes of what it has still to yield and moves past
/// them, so a read is empty only at the end.
#[verifier::external_body]
fn read_cursor_chunk(cursor: &mut Cursor<Vec<u8>>) -> (chunk: Result<Vec<u8>, String>)
    ensures
        chunk is Ok,
        chunk matches Ok(c) ==> {
            &&& c@.len() == full_chunk_len(cursor_unread(*old(cursor)).len())
            &&& cursor_unread(*old(cursor)) == c@ + cursor_unread(*final(cursor))
        },
{
    let mut buf = [0u8; COPY_CHUNK_BYTES];
    match cursor.read(&mut buf) {
        Ok(n) => Ok(buf[..n].to_vec()),
        Err(e) => Err(e.to_string()),
    }
}

impl EntryReader for Cursor<Vec<u8>> {
    open spec fn unread(&self) -> Seq<u8> {
        cursor_unread(*self)
    }

    open spec fn read_may_fail(&self) -> bool {
        false
    }

    fn read_chunk(&mut self) -> (chunk: Result<Vec<u8>, String>) {
        read_cursor_chunk(self)
    }
}

impl EntryWriter for Vec<u8> {
    open spec fn written(&self) -> Seq<u8> {
        self@
    }

    open spec fn write_may_fail(&self) -> bool {
        false
    }

    /// Appending to a vector never fails.
    fn write_chunk(&mut self, chunk: &[u8]) -> (result: Result<(), String>)
        ensures
            result is Ok,
    {
        let ghost before = self@;
        let mut i: usize = 0;
        while i < chunk.len()
            invariant
                i <= chunk@.len(),
                self@ == before + chunk@.take(i as int),
            decreases chunk@.len() - i,
        {
            self.push(chunk[i]);
            proof { assert(chunk@.take(i + 1) =~= chunk@.take(i as int).push(chunk@[i as int])); }
            i = i + 1;
        }
        proof { assert(chunk@.take(i as int) =~= chunk@); }
        Ok(())
    }
}

/// What the copy does with the chunk just read.
#[derive(Debug, Clone, Copy, PartialEq, Eq, Structural)]
pub enum CopyStep {
    /// The entry has been read to its end.
    Finish,
    /// The chunk fits under the limit and is written.
    Write,
    /// The chunk would take the total past the limit; nothing of it is written.
    TooLarge,
}

/// The step for a chunk of `n` bytes read when the running total is `total`.
pub open spec fn copy_step_spec(total: u64, n: nat, max_total_bytes: u64) -> CopyStep {
    if n == 0 {
        CopyStep::Finish
    } else if chunk_fits(total, n, max_total_bytes) {
        CopyStep::Write
    } else {
        CopyStep::TooLarge
    }
}

/// Decides what to do with a chunk of `n` bytes read when the running total is
/// `total`: an empty read ends the entry, a chunk that fits is written, any other
/// fails the copy.
pub fn copy_step(total: u64, n: u64, max_total_bytes: u64) -> (step: CopyStep)
    ensures
        step == copy_step_spec(total, n as nat, max_total_bytes),
        n == 0 ==> step is Finish,
        n > 0 && chunk_fits(total, n as nat, max_total_bytes) ==> step is Write,
        n > 0 && !chunk_fits(total, n as nat, max_total_bytes) ==> step is TooLarge,
{
    if n == 0 {
        CopyStep::Finish
    } else if chunk_admitted(total, n, max_total_bytes) {
        CopyStep::Write
    } else {
        CopyStep::TooLarge
    }
}

/// The state a copy of `entry` leaves when it stops after its first `d` bytes were
/// written whole and `k` bytes more went out in a write that failed: the writer holds
/// those bytes after what it held before, and the running total has grown, saturating,
/// by the `d` bytes, which stayed within the limit.
pub open spec fn copy_stopped_at(
    entry: Seq<u8>,
    d: nat,
    k: nat,
    before: Seq<u8>,
    after: Seq<u8>,
    start: u64,
    total: u64,
    max_total_bytes: u64,
) -> bool {
    &&& d + k <= entry.len()
    &&& after == before + entry.take((d + k) as int)
    &&& total == saturating_total(start, d)
    &&& (d == 0 || chunk_fits(start, d, max_total_bytes))
}

/// Whether the copy of an entry of `len` bytes fits under the limit from a running
/// total of `start`: it is empty, or the total it reaches stays within the limit.
pub open spec fn entry_fits(start: u64, len: nat, max_total_bytes: u64) -> bool {
    len == 0 || chunk_fits(start, len, max_total_bytes)
}

/// The too-large error of the copy.
pub open spec fn is_too_large_error(err: ArchiveError, max_total_bytes: u64) -> bool {
    err matches ArchiveError::Localized { key, zh, en }
        && key@ == "webdav.sync.skills_zip_too_large"@
        && zh@ == "skills.zip 解压后体积超过上限（"@ + decimal_spec((max_total_bytes / 1024 / 1024) as nat) + " MB）"@
        && en@ == "skills.zip extracted size exceeds limit ("@ + decimal_spec((max_total_bytes / 1024 / 1024) as nat) + " MB)"@
}

/// Copies an entry of the archive in chunks while keeping a running total across
/// entries: before a chunk is written, it is checked that the total (saturating at
/// `u64::MAX`) stays within `max_total_bytes`; a chunk that would exceed it is not
/// written, and the copy stops with the too-large error. A failed read or write stops
/// it with an I/O error on `out_path`. Returns the bytes written for this entry.
///
/// When no read or write fails, the copy succeeds exactly when the whole entry fits
/// (or is empty): the writer then receives all of it and the total grows by its
/// length. Otherwise it fails with the too-large error, having written only whole
/// chunks that fit, and never the chunk that would cross the limit.
pub fn copy_entry_with_total_limit<R: EntryReader, W: EntryWriter>(
    reader: &mut R,
    writer: &mut W,
    total_bytes: &mut u64,
    max_total_bytes: u64,
    out_path: &str,
) -> (result: Result<u64, ArchiveError>)
    ensures
        !old(reader).read_may_fail() && !old(writer).write_may_fail() ==> (result is Ok
            <==> entry_fits(*old(total_bytes), old(reader).unread().len(), max_total_bytes)),
        result matches Ok(written) ==> {
            &&& written == saturating_total(0, old(reader).unread().len())
            &&& final(writer).written() == old(writer).written() + old(reader).unread()
            &&& *final(total_bytes) == saturating_total(*old(total_bytes), old(reader).unread().len())
            &&& entry_fits(*old(total_bytes), old(reader).unread().len(), max_total_bytes)
            &&& final(reader).unread().len() == 0
        },
        result matches Err(e) ==> e is Localized ==> {
            &&& is_too_large_error(e, max_total_bytes)
            &&& !entry_fits(*old(total_bytes), old(reader).unread().len(), max_total_bytes)
            &&& exists|d: nat| {
                &&& #[trigger] copy_stopped_at(old(reader).unread(), d, 0, old(writer).written(),
                    final(writer).written(), *old(total_bytes), *final(total_bytes), max_total_bytes)
                &&& d % (COPY_CHUNK_BYTES as nat) == 0
                &&& 0 < full_chunk_len((old(reader).unread().len() - d) as nat)
                &&& !chunk_fits(*final(total_bytes), full_chunk_len((old(reader).unread().len() - d) as nat), max_total_bytes)
            }
        },
        result matches Err(ArchiveError::Io { path, .. }) ==> {
            &&& path@ == out_path@
            &&& old(reader).read_may_fail() || old(writer).write_may_fail()
            &&& exists|d: nat, k: nat| {
                &&& #[trigger] copy_stopped_at(old(reader).unread(), d, k, old(writer).written(),
                    final(writer).written(), *old(total_bytes), *final(total_bytes), max_total_bytes)
                &&& (d % (COPY_CHUNK_BYTES as nat) == 0 || d == old(reader).unread().len())
            }
        },
        !(result matches Err(ArchiveError::IoContext { .. })),
{
    let mut written: u64 = 0;
    let ghost mut d: nat = 0;
    loop
        invariant
            d <= old(reader).unread().len(),
            old(reader).unread() == old(reader).unread().take(d as int) + reader.unread(),
            writer.written() == old(writer).written() + old(reader).unread().take(d as int),
            *total_bytes == saturating_total(*old(total_bytes), d),
            written == saturating_total(0, d),
            d == 0 || chunk_fits(*old(total_bytes), d, max_total_bytes),
            d % (COPY_CHUNK_BYTES as nat) == 0 || reader.unread().len() == 0,
            !old(reader).read_may_fail() ==> !reader.read_may_fail(),
            !old(writer).write_may_fail() ==> !writer.write_may_fail(),
        ensures
            d == old(reader).unread().len(),
            reader.unread().len() == 0,
            writer.written() == old(writer).written() + old(reader).unread(),
            *total_bytes == saturating_total(*old(total_bytes), d),
            written == saturating_total(0, d),
            d == 0 || chunk_fits(*old(total_bytes), d, max_total_bytes),
        decreases reader.unread().len(),
    {
        let ghost entry = old(reader).unread();
        let ghost unread_before = reader.unread();
        let chunk = match reader.read_chunk() {
            Ok(c) => c,
            Err(message) => {
                proof {
                    assert(copy_stopped_at(entry, d, 0, old(writer).written(), writer.written(),
                        *old(total_bytes), *total_bytes, max_total_bytes)) by {
                        assert(entry.take((d + 0) as int) =~= entry.take(d as int));
                    }
                }
                return Err(ArchiveError::Io { path: String::from_str(out_path), message });
            },
        };
        let n = chunk.len() as u64;
        proof {
            assert(entry.take((d + n) as int) =~= entry.take(d as int) + chunk@) by {
                assert(entry =~= entry.take(d as int) + chunk@ + reader.unread());
            }
            assert(entry =~= entry.take((d + n) as int) + reader.unread());
        }
        match copy_step(*total_bytes, n, max_total_bytes) {
            CopyStep::Finish => {
                proof {
                    assert(entry.take(d as int) =~= entry);
                }
                break;
            },
            CopyStep::TooLarge => {
                proof {
                    assert(copy_stopped_at(entry, d, 0, old(writer).written(), writer.written(),
                        *old(total_bytes), *total_bytes, max_total_bytes)) by {
                        assert(entry.take((d + 0) as int) =~= entry.take(d as int));
                    }
                    assert(full_chunk_len((entry.len() - d) as nat) == n);
                }
                return Err(too_large_error(max_total_bytes));
            },
            CopyStep::Write => {},
        }
        let ghost written_before = writer.written();
        match writer.write_chunk(chunk.as_slice()) {
            Ok(()) => {},
            Err(message) => {
                proof {
                    let k = choose|k: int|
                        0 <= k <= chunk@.len() && writer.written() == written_before + #[trigger] chunk@.take(k);
                    assert(entry.take((d + k) as int) =~= entry.take(d as int) + chunk@.take(k)) by {
                        assert(entry.take((d + n) as int) =~= entry.take(d as int) + chunk@);
                    }
                    assert(writer.written() =~= old(writer).written() + entry.take((d + k) as int));
                    assert(copy_stopped_at(entry, d, k as nat, old(writer).written(), writer.written(),
                        *old(total_bytes), *total_bytes, max_total_bytes));
                }
                return Err(ArchiveError::Io { path: String::from_str(out_path), message });
            },
        }
        *total_bytes = total_bytes.saturating_add(n);
        written = written.saturating_add(n);
        proof {
            d = d + n as nat;
        }
    }
    Ok(written)
}

/// Copies the bytes of an entry, held in memory, onto the end of `writer` under the
/// running limit, as `copy_entry_with_total_limit` does with a cursor over them: nothing
/// here can fail but the limit, so the copy succeeds exactly when the bytes fit.
pub fn copy_bytes_with_total_limit(
    bytes: Vec<u8>,
    writer: &mut Vec<u8>,
    total_bytes: &mut u64,
    max_total_bytes: u64,
    out_path: &str,
) -> (result: Result<u64, ArchiveError>)
    ensures
        result is Ok <==> entry_fits(*old(total_bytes), bytes@.len(), max_total_bytes),
        result matches Ok(written) ==> {
            &&& written == bytes@.len()
            &&& final(writer)@ == old(writer)@ + bytes@
            &&& *final(total_bytes) == saturating_total(*old(total_bytes), bytes@.len())
        },
        result matches Err(e) ==> {
            &&& is_too_large_error(e, max_total_bytes)
            &&& exists|d: nat| {
                &&& #[trigger] copy_stopped_at(bytes@, d, 0, old(writer)@, final(writer)@,
                    *old(total_bytes), *final(total_bytes), max_total_bytes)
                &&& d % (COPY_CHUNK_BYTES as nat) == 0
                &&& 0 < full_chunk_len((bytes@.len() - d) as nat)
                &&& !chunk_fits(*final(total_bytes), full_chunk_len((bytes@.len() - d) as nat), max_total_bytes)
            }
        },
{
    let ghost entry = bytes@;
    let len = bytes.len();
    proof { assert(len as nat == entry.len()); }
    let mut cursor = entry_cursor(bytes);
    copy_entry_with_total_limit(&mut cursor, writer, total_bytes, max_total_bytes, out_path)
}

/// Whether a directory entry is skipped when packing: its name starts with a dot.
pub fn is_hidden_entry(name: &str) -> (hidden: bool)
    ensures
        hidden == (name@.len() > 0 && name@[0] == '.'),
{
    name.unicode_len() > 0 && name.get_char(0) == '.'
}

/// A relative path with each backslash turned into a slash.
pub open spec fn zip_name_spec(rel: Seq<char>) -> Seq<char> {
    Seq::new(rel.len(), |i: int| if rel[i] == '\\' { '/' } else { rel[i] })
}

/// The archive name of a relative path has a slash wherever the path has a slash or a
/// backslash, and the path's character everywhere else: it holds no backslash, a path
/// without backslashes is its own name, and naming a name again changes nothing.
pub proof fn law_zip_name_uses_slashes(rel: Seq<char>)
    ensures
        zip_name_spec(rel).len() == rel.len(),
        forall|i: int| 0 <= i < rel.len() ==> #[trigger] zip_name_spec(rel)[i]
            == (if rel[i] == '\\' || rel[i] == '/' { '/' } else { rel[i] }),
        !zip_name_spec(rel).contains('\\'),
        !rel.contains('\\') ==> zip_name_spec(rel) == rel,
        zip_name_spec(zip_name_spec(rel)) == zip_name_spec(rel),
{
    let n = zip_name_spec(rel);
    assert forall|i: int| 0 <= i < n.len() implies n[i] != '\\' by {}
    if !rel.contains('\\') {
        assert forall|i: int| 0 <= i < rel.len() implies n[i] == rel[i] by {
            if rel[i] == '\\' {
                assert(rel.contains('\\'));
            }
        }
        assert(n =~= rel);
    }
    assert(zip_name_spec(n) =~= n);
}

/// The name of a file entry in the archive: the relative path, with slashes.
pub fn zip_entry_name(rel: &str) -> (name: String)
    ensures
        name@ == zip_name_spec(rel@),
{
    let len = rel.unicode_len();
    let mut name = String::from_str("");
    let mut i: usize = 0;
    proof { reveal_strlit(""); reveal_strlit("/"); }
    while i < len
        invariant
            len == rel@.len(),
            i <= len,
            name@ == zip_name_spec(rel@).take(i as int),
        decreases len - i,
    {
        let c = rel.get_char(i);
        if c == '\\' {
            proof { reveal_strlit("/"); }
            name.append("/");
        } else {
            let piece = rel.substring_char(i, i + 1);
            assert(piece@ =~= seq![rel@[i as int]]);
            name.append(piece);
        }
        proof {
            assert(zip_name_spec(rel@).take(i + 1) =~= zip_name_spec(rel@).take(i as int) + seq![zip_name_spec(rel@)[i as int]]);
        }
        i = i + 1;
    }
    proof { assert(zip_name_spec(rel@).take(len as int) =~= zip_name_spec(rel@)); }
    name
}

/// The name of a directory entry in the archive: the relative path, with slashes,
/// and a closing slash.
pub fn zip_directory_name(rel: &str) -> (name: String)
    ensures
        name@ == zip_name_spec(rel@) + seq!['/'],
{
    let mut name = zip_entry_name(rel);
    name.append("/");
    proof { reveal_strlit("/"); }
    name
}

/// The directories visited while walking the skills tree, by canonical path, so
/// that a directory reached twice through links is walked once.
pub struct VisitedDirs {
    paths: Vec<Vec<u8>>,
}

/// Whether two byte strings are equal.
pub fn bytes_eq(a: &Vec<u8>, b: &Vec<u8>) -> (equal: bool)
    ensures
        equal == (a@ == b@),
{
    if a.len() != b.len() {
        return false;
    }
    let mut i: usize = 0;
    while i < a.len()
        invariant
            a@.len() == b@.len(),
            i <= a@.len(),
            forall|k: int| 0 <= k < i ==> a@[k] == b@[k],
        decreases a@.len() - i,
    {
        if a[i] != b[i] {
            return false;
        }
        i = i + 1;
    }
    assert(a@ =~= b@);
    true
}

impl VisitedDirs {
    /// The set of paths visited.
    pub closed spec fn view(&self) -> Set<Seq<u8>> {
        Set::new(|p: Seq<u8>| exists|i: int| 0 <= i < self.paths@.len() && self.paths@[i]@ == p)
    }

    /// No directory visited yet.
    pub fn new() -> (visited: Self)
        ensures
            visited.view() == Set::<Seq<u8>>::empty(),
    {
        let visited = VisitedDirs { paths: Vec::new() };
        assert(visited.view() =~= Set::<Seq<u8>>::empty());
        visited
    }

    /// Records a visit to a directory; true on the first visit.
    pub fn mark(&mut self, canonical: Vec<u8>) -> (first: bool)
        ensures
            first == !old(self).view().contains(canonical@),
            final(self).view() == old(self).view().insert(canonical@),
    {
        let mut i: usize = 0;
        while i < self.paths.len()
            invariant
                i <= self.paths@.len(),
                self.paths@ == old(self).paths@,
                forall|k: int| 0 <= k < i ==> self.paths@[k]@ != canonical@,
            decreases self.paths@.len() - i,
        {
            if bytes_eq(&self.paths[i], &canonical) {
                proof {
                    assert(old(self).view().contains(canonical@));
                    assert(old(self).view().insert(canonical@) =~= old(self).view());
                }
                return false;
            }
            i = i + 1;
        }
        let ghost before = self.view();
        self.paths.push(canonical);
        proof {
            assert(!before.contains(canonical@));
            assert forall|p: Seq<u8>| self.view().contains(p) <==> before.insert(canonical@).contains(p) by {
                if before.contains(p) {
                    let k = choose|k: int| 0 <= k < old(self).paths@.len() && old(self).paths@[k]@ == p;
                    assert(self.paths@[k] == old(self).paths@[k]);
                }
                if self.view().contains(p) {
                    let k = choose|k: int| 0 <= k < self.paths@.len() && self.paths@[k]@ == p;
                    if k < old(self).paths@.len() {
                        assert(self.paths@[k] == old(self).paths@[k]);
                    }
                }
                if p == canonical@ {
                    assert(self.paths@[old(self).paths@.len() as int]@ == p);
                }
            }
            assert(self.view() =~= before.insert(canonical@));
        }
        true
    }
}

/// Whether `Path::new(path).starts_with(base)` holds: `base` is a leading run of the
/// components of `path`.
pub uninterp spec fn path_starts_with(path: Seq<char>, base: Seq<char>) -> bool;

/// `Path::starts_with` on two paths given as text. Claimed: the result is
/// `path_starts_with` of the two texts, a function of them alone; how components are
/// compared is not stated.
#[verifier::external_body]
fn starts_with_path(path: &str, base: &str) -> (inside: bool)
    ensures
        inside == path_starts_with(path@, base@),
{
    std::path::Path::new(path).starts_with(base)
}

/// What becomes of an entry of the skills tree when it is packed.
#[derive(Debug)]
pub enum PackStep {
    /// Left out: a hidden entry, one that resolves outside the root, or a directory
    /// already packed.
    Skip,
    /// The entry's path relative to the root could not be formed.
    NoRelativePath,
    /// A directory whose canonical path could not be found, so its visit cannot be
    /// recorded.
    Unresolved,
    /// A directory entry with this name; its contents are packed next.
    AddDirectory { name: String },
    /// A file entry with this name.
    AddFile { name: String },
}

/// Decides what becomes of an entry of the skills tree: `entry_name` is its file name,
/// `resolved` its canonical path (none when that could not be found), `root` the
/// canonical root, `rel` its path relative to the root, `is_dir` whether it is a
/// directory. Hidden entries and entries that resolve outside the root are left out;
/// a directory is packed on its first visit only, which is recorded in `visited`.
pub fn pack_step(
    entry_name: &str,
    resolved: Option<&str>,
    root: &str,
    rel: Option<&str>,
    is_dir: bool,
    visited: &mut VisitedDirs,
) -> (step: PackStep)
    ensures
        entry_name@.len() > 0 && entry_name@[0] == '.' ==> step is Skip && final(visited).view() == old(visited).view(),
        !(entry_name@.len() > 0 && entry_name@[0] == '.') ==> match resolved {
            Some(p) if !path_starts_with(p@, root@) => step is Skip && final(visited).view() == old(visited).view(),
            _ => match rel {
                None => step is NoRelativePath && final(visited).view() == old(visited).view(),
                Some(r) => if !is_dir {
                    step matches PackStep::AddFile { name } && name@ == zip_name_spec(r@)
                        && final(visited).view() == old(visited).view()
                } else {
                    match resolved {
                        None => step is Unresolved && final(visited).view() == old(visited).view(),
                        Some(p) => final(visited).view() == old(visited).view().insert(p.spec_bytes())
                            && if old(visited).view().contains(p.spec_bytes()) {
                                step is Skip
                            } else {
                                step matches PackStep::AddDirectory { name } && name@ == zip_name_spec(r@) + seq!['/']
                            },
                    }
                },
            },
        },
{
    if is_hidden_entry(entry_name) {
        return PackStep::Skip;
    }
    if let Some(p) = resolved {
        if !starts_with_path(p, root) {
            return PackStep::Skip;
        }
    }
    let r = match rel {
        Some(r) => r,
        None => return PackStep::NoRelativePath,
    };
    if !is_dir {
        return PackStep::AddFile { name: zip_entry_name(r) };
    }
    match resolved {
        None => PackStep::Unresolved,
        Some(p) => {
            if visited.mark(p.as_bytes_vec()) {
                PackStep::AddDirectory { name: zip_directory_name(r) }
            } else {
                proof { assert(old(visited).view().insert(p.spec_bytes()) =~= old(visited).view()); }
                PackStep::Skip
            }
        },
    }
}

/// What becomes of an entry of an uploaded archive when it is unpacked.
#[derive(Debug)]
pub enum ExtractStep {
    /// Left out: its name would leave the extraction directory.
    Skip,
    /// A directory to create at this path.
    CreateDir { path: String },
    /// A file to write at this path (its parent directories created first).
    WriteFile { path: String },
}

/// Decides what becomes of an archive entry: `enclosed` is its name as the archive
/// crate's `enclosed_name` gives it, none when the name would escape.
pub fn extract_step(extract_dir: &str, enclosed: Option<&str>, is_dir: bool) -> (step: ExtractStep)
    ensures
        enclosed is None ==> step is Skip,
        match enclosed {
            Some(name) => if is_dir {
                step matches ExtractStep::CreateDir { path } && path@ == join_spec(extract_dir@, name@)
            } else {
                step matches ExtractStep::WriteFile { path } && path@ == join_spec(extract_dir@, name@)
            },
            None => true,
        },
{
    match enclosed {
        None => ExtractStep::Skip,
        Some(name) => {
            let path = join_path(extract_dir, name);
            if is_dir {
                ExtractStep::CreateDir { path }
            } else {
                ExtractStep::WriteFile { path }
            }
        },
    }
}

/// A step of replacing the skills directory by the unpacked archive.
#[derive(Debug, Clone, Copy, PartialEq, Eq, Structural)]
pub enum RestoreAction {
    /// Remove the backup directory, ignoring a failure.
    RemoveBackup,
    /// Move the skills directory aside to the backup; a failure aborts the restore.
    MoveToBackup,
    /// Remove the skills directory, ignoring a failure.
    RemoveTarget,
    /// Move the backup back to the skills directory, ignoring a failure.
    MoveBackupBack,
}

/// The steps before the unpacked skills are copied into place: when the skills
/// directory exists, an old backup is removed and the directory is moved aside.
pub fn restore_prepare(target_exists: bool, backup_exists: bool) -> (actions: Vec<RestoreAction>)
    ensures
        !target_exists ==> actions@ == Seq::<RestoreAction>::empty(),
        target_exists && backup_exists ==> actions@ == seq![RestoreAction::RemoveBackup, RestoreAction::MoveToBackup],
        target_exists && !backup_exists ==> actions@ == seq![RestoreAction::MoveToBackup],
{
    let mut actions: Vec<RestoreAction> = Vec::new();
    if target_exists {
        if backup_exists {
            actions.push(RestoreAction::RemoveBackup);
        }
        actions.push(RestoreAction::MoveToBackup);
    }
    proof {
        if target_exists && backup_exists {
            assert(actions@ =~= seq![RestoreAction::RemoveBackup, RestoreAction::MoveToBackup]);
        } else if target_exists {
            assert(actions@ =~= seq![RestoreAction::MoveToBackup]);
        } else {
            assert(actions@ =~= Seq::<RestoreAction>::empty());
        }
    }
    actions
}

/// The steps after the copy: on success the backup is removed; on failure, when there
/// is a backup, the partial copy is removed and the backup moved back.
pub fn restore_finish(copy_ok: bool, backup_exists: bool) -> (actions: Vec<RestoreAction>)
    ensures
        copy_ok ==> actions@ == seq![RestoreAction::RemoveBackup],
        !copy_ok && backup_exists ==> actions@ == seq![RestoreAction::RemoveTarget, RestoreAction::MoveBackupBack],
        !copy_ok && !backup_exists ==> actions@ == Seq::<RestoreAction>::empty(),
{
    let mut actions: Vec<RestoreAction> = Vec::new();
    if copy_ok {
        actions.push(RestoreAction::RemoveBackup);
    } else if backup_exists {
        actions.push(RestoreAction::RemoveTarget);
        actions.push(RestoreAction::MoveBackupBack);
    }
    proof {
        if copy_ok {
            assert(actions@ =~= seq![RestoreAction::RemoveBackup]);
        } else if backup_exists {
            assert(actions@ =~= seq![RestoreAction::RemoveTarget, RestoreAction::MoveBackupBack]);
        } else {
            assert(actions@ =~= Seq::<RestoreAction>::empty());
        }
    }
    actions
}

/// Byte-wise lexicographic order, the order of file names on Unix: `a` comes
/// strictly before `b`.
pub open spec fn bytes_lt(a: Seq<u8>, b: Seq<u8>) -> bool
    decreases a.len(),
{
    if a.len() == 0 {
        b.len() > 0
    } else if b.len() == 0 {
        false
    } else if a[0] != b[0] {
        a[0] < b[0]
    } else {
        bytes_lt(a.drop_first(), b.drop_first())
    }
}

/// The order is transitive.
pub proof fn lemma_bytes_lt_transitive(a: Seq<u8>, b: Seq<u8>, c: Seq<u8>)
    requires
        bytes_lt(a, b),
        bytes_lt(b, c),
    ensures
        bytes_lt(a, c),
    decreases a.len(),
{
    if a.len() > 0 && b.len() > 0 && c.len() > 0 && a[0] == b[0] && b[0] == c[0] {
        lemma_bytes_lt_transitive(a.drop_first(), b.drop_first(), c.drop_first());
    }
}

/// Whether `a` comes strictly before `b`.
pub fn bytes_less(a: &Vec<u8>, b: &Vec<u8>) -> (less: bool)
    ensures
        less == bytes_lt(a@, b@),
{
    let mut i: usize = 0;
    assert(a@.skip(0) =~= a@);
    assert(b@.skip(0) =~= b@);
    while i < a.len() && i < b.len() && a[i] == b[i]
        invariant
            i <= a@.len(),
            i <= b@.len(),
            bytes_lt(a@, b@) == bytes_lt(a@.skip(i as int), b@.skip(i as int)),
        decreases a@.len() - i,
    {
        assert(a@.skip(i as int).drop_first() =~= a@.skip(i + 1));
        assert(b@.skip(i as int).drop_first() =~= b@.skip(i + 1));
        i = i + 1;
    }
    if i == a.len() {
        i < b.len()
    } else if i == b.len() {
        false
    } else {
        a[i] < b[i]
    }
}

/// Whether index `v` occurs in `order`.
pub open spec fn lists_index(order: Seq<usize>, v: int) -> bool {
    exists|j: int| 0 <= j < order.len() && order[j] == v
}

/// The order in which the entries of a directory are packed: the indices of their
/// names, each once, sorted by name.
pub fn entry_order(names: &Vec<Vec<u8>>) -> (order: Vec<usize>)
    ensures
        order@.len() == names@.len(),
        forall|j: int| 0 <= j < order@.len() ==> #[trigger] order@[j] < names@.len(),
        forall|v: int| 0 <= v < names@.len() ==> #[trigger] lists_index(order@, v),
        forall|a: int, b: int| 0 <= a < b < order@.len() ==>
            !bytes_lt(#[trigger] names@[order@[b] as int]@, #[trigger] names@[order@[a] as int]@),
{
    let n = names.len();
    let mut order: Vec<usize> = Vec::new();
    let mut i: usize = 0;
    while i < n
        invariant
            n == names@.len(),
            i <= n,
            order@.len() == i,
            forall|j: int| 0 <= j < i ==> order@[j] == j,
        decreases n - i,
    {
        order.push(i);
        i = i + 1;
    }
    assert forall|v: int| 0 <= v < n implies #[trigger] lists_index(order@, v) by {
        assert(order@[v] == v);
    }
    let mut k: usize = 0;
    while k < n
        invariant
            n == names@.len(),
            k <= n,
            order@.len() == n,
            forall|j: int| 0 <= j < n ==> #[trigger] order@[j] < n,
            forall|v: int| 0 <= v < n ==> #[trigger] lists_index(order@, v),
            forall|a: int, b: int| 0 <= a < b < k ==>
                !bytes_lt(#[trigger] names@[order@[b] as int]@, #[trigger] names@[order@[a] as int]@),
            forall|a: int, b: int| 0 <= a < k <= b < n ==>
                !bytes_lt(#[trigger] names@[order@[b] as int]@, #[trigger] names@[order@[a] as int]@),
        decreases n - k,
    {
        let mut m: usize = k;
        let mut s: usize = k + 1;
        proof { lemma_bytes_lt_irreflexive(names@[order@[k as int] as int]@); }
        while s < n
            invariant
                n == names@.len(),
                order@.len() == n,
                forall|j: int| 0 <= j < n ==> #[trigger] order@[j] < n,
                k <= m < n,
                k < s <= n,
                forall|t: int| k <= t < s ==>
                    !bytes_lt(#[trigger] names@[order@[t] as int]@, names@[order@[m as int] as int]@),
            decreases n - s,
        {
            if bytes_less(&names[order[s]], &names[order[m]]) {
                proof {
                    assert forall|t: int| k <= t < s + 1 implies
                        !bytes_lt(#[trigger] names@[order@[t] as int]@, names@[order@[s as int] as int]@) by {
                        if t < s && bytes_lt(names@[order@[t] as int]@, names@[order@[s as int] as int]@) {
                            lemma_bytes_lt_transitive(
                                names@[order@[t] as int]@,
                                names@[order@[s as int] as int]@,
                                names@[order@[m as int] as int]@,
                            );
                        }
                        if t == s {
                            lemma_bytes_lt_irreflexive(names@[order@[t] as int]@);
                        }
                    }
                }
                m = s;
            }
            s = s + 1;
        }
        let ghost before = order@;
        let a = order[k];
        let b = order[m];
        order.set(k, b);
        order.set(m, a);
        proof {
            assert(order@ =~= before.update(k as int, b).update(m as int, a));
            assert forall|v: int| 0 <= v < n implies #[trigger] lists_index(order@, v) by {
                assert(lists_index(before, v));
                let j0 = choose|j: int| 0 <= j < n && before[j] == v;
                if j0 == k {
                    assert(order@[m as int] == v);
                } else if j0 == m {
                    assert(order@[k as int] == v);
                } else {
                    assert(order@[j0] == v);
                }
            }
            assert forall|x: int, y: int| 0 <= x < y < k + 1 implies
                !bytes_lt(#[trigger] names@[order@[y] as int]@, #[trigger] names@[order@[x] as int]@) by {
                if y < k {
                    assert(order@[x] == before[x] && order@[y] == before[y]);
                } else {
                    assert(order@[x] == before[x]);
                    assert(order@[y] == before[m as int]);
                }
            }
            assert forall|x: int, y: int| 0 <= x < k + 1 <= y < n implies
                !bytes_lt(#[trigger] names@[order@[y] as int]@, #[trigger] names@[order@[x] as int]@) by {
                let oy = if y == m { before[k as int] } else { before[y] };
                assert(order@[y] == oy);
                if x < k {
                    assert(order@[x] == before[x]);
                    if y == m {
                        assert(!bytes_lt(names@[before[k as int] as int]@, names@[before[x] as int]@));
                    } else {
                        assert(!bytes_lt(names@[before[y] as int]@, names@[before[x] as int]@));
                    }
                } else {
                    assert(order@[x] == before[m as int]);
                    if y == m {
                        assert(!bytes_lt(names@[before[k as int] as int]@, names@[before[m as int] as int]@));
                    } else {
                        assert(!bytes_lt(names@[before[y] as int]@, names@[before[m as int] as int]@));
                    }
                }
            }
        }
        k = k + 1;
    }
    order
}

/// Nothing comes strictly before itself.
pub proof fn lemma_bytes_lt_irreflexive(a: Seq<u8>)
    ensures
        !bytes_lt(a, a),
    decreases a.len(),
{
    if a.len() > 0 {
        lemma_bytes_lt_irreflexive(a.drop_first());
    }
}

} // verus!
