//! The `.kbd` record file that the service appends to and the viewer reads:
//! the magic `KBD1`, the format version, the number of keys per record, then
//! one record of `KEY_COUNT` little-endian counts after another.
use vstd::prelude::*;
use vstd::bytes::*;
use crate::words::{le_words, lemma_le_words, lemma_words_roundtrip, word_at, words_from};
use crate::protocol::{
    decode_snapshot_spec, law_snapshot_roundtrip, snapshot_bytes, SnapshotError, FILE_MAGIC,
    KEY_COUNT, push_counts, push_word, read_counts, read_word,
};

verus! {

/// Version of the `.kbd` format.
pub const FILE_VERSION: u32 = 1;

/// Length in bytes of the file header: magic, version, key count.
pub const FILE_HEADER_LEN: usize = 12;

/// Length in bytes of one record.
pub const RECORD_LEN: usize = 1024;

/// Why the content of a `.kbd` file was refused.
#[derive(Debug, Clone, Copy, PartialEq, Eq, Structural)]
pub enum RecordFileError {
    /// Shorter than a header, or the magic is not `FILE_MAGIC`.
    InvalidFile,
    /// The version is not `FILE_VERSION`, or the key count is not `KEY_COUNT`.
    UnsupportedFormat,
    /// What follows the header is not a whole number of records.
    Truncated,
}

/// The header that opens a `.kbd` file.
pub open spec fn file_header_bytes() -> Seq<u8> {
    FILE_MAGIC@ + spec_u32_to_le_bytes(FILE_VERSION) + spec_u32_to_le_bytes(KEY_COUNT as u32)
}

/// The bytes of the records `rs`, one after another.
pub open spec fn records_bytes(rs: Seq<Seq<u32>>) -> Seq<u8>
    decreases rs.len(),
{
    if rs.len() == 0 {
        Seq::empty()
    } else {
        records_bytes(rs.drop_last()) + le_words(rs.last())
    }
}

/// What appending the record `counts` writes to the file; a new file gets
/// the header first.
pub open spec fn appended_bytes(new_file: bool, counts: Seq<u32>) -> Seq<u8> {
    if new_file {
        file_header_bytes() + le_words(counts)
    } else {
        le_words(counts)
    }
}

/// The contents of read records.
pub open spec fn records_view(records: Seq<[u32; KEY_COUNT]>) -> Seq<Seq<u32>> {
    records.map_values(|r: [u32; KEY_COUNT]| r@)
}

/// Number of whole records after the header.
pub open spec fn record_count(len: nat) -> nat {
    ((len - FILE_HEADER_LEN) / (RECORD_LEN as int)) as nat
}

/// What reading the file content `bytes` gives: the first failing check, or
/// the records in file order.
pub open spec fn parse_records_spec(bytes: Seq<u8>) -> Result<Seq<Seq<u32>>, RecordFileError> {
    if bytes.len() < FILE_HEADER_LEN || bytes.subrange(0, 4) != FILE_MAGIC@ {
        Err(RecordFileError::InvalidFile)
    } else if word_at(bytes, 4) != FILE_VERSION || word_at(bytes, 8) != KEY_COUNT {
        Err(RecordFileError::UnsupportedFormat)
    } else if (bytes.len() - FILE_HEADER_LEN) % (RECORD_LEN as int) != 0 {
        Err(RecordFileError::Truncated)
    } else {
        Ok(
            Seq::new(
                record_count(bytes.len()),
                |k: int| words_from(bytes, FILE_HEADER_LEN + RECORD_LEN * k, KEY_COUNT as nat),
            ),
        )
    }
}

/// The bytes that appending the record `counts` writes: the file header
/// when the file is new, then the record.
pub fn append_record_bytes(new_file: bool, counts: &[u32; KEY_COUNT]) -> (out: Vec<u8>)
    ensures
        out@ == appended_bytes(new_file, counts@),
{
    let mut out: Vec<u8> = Vec::new();
    if new_file {
        out.extend_from_slice(FILE_MAGIC.as_slice());
        push_word(&mut out, FILE_VERSION);
        push_word(&mut out, 256u32);
    }
    push_counts(&mut out, counts);
    out
}

/// Reads the records of a `.kbd` file, checking its header and that it
/// holds whole records only.
pub fn parse_records(bytes: &[u8]) -> (r: Result<Vec<[u32; KEY_COUNT]>, RecordFileError>)
    ensures
        match r {
            Ok(records) => parse_records_spec(bytes@) == Ok::<Seq<Seq<u32>>, RecordFileError>(
                records_view(records@),
            ),
            Err(e) => parse_records_spec(bytes@) == Err::<Seq<Seq<u32>>, RecordFileError>(e),
        },
{
    if bytes.len() < FILE_HEADER_LEN || !(bytes[0] == FILE_MAGIC[0] && bytes[1] == FILE_MAGIC[1]
        && bytes[2] == FILE_MAGIC[2] && bytes[3] == FILE_MAGIC[3]) {
        assert(bytes@.len() < FILE_HEADER_LEN || bytes@.subrange(0, 4) != FILE_MAGIC@) by {
            if bytes@.len() >= FILE_HEADER_LEN && bytes@.subrange(0, 4) == FILE_MAGIC@ {
                assert(bytes@.subrange(0, 4)[0] == bytes@[0]);
                assert(bytes@.subrange(0, 4)[1] == bytes@[1]);
                assert(bytes@.subrange(0, 4)[2] == bytes@[2]);
                assert(bytes@.subrange(0, 4)[3] == bytes@[3]);
            }
        }
        return Err(RecordFileError::InvalidFile);
    }
    assert(bytes@.subrange(0, 4) =~= FILE_MAGIC@);
    let version = read_word(bytes, 4);
    let key_count = read_word(bytes, 8);
    if version != FILE_VERSION || key_count != 256u32 {
        return Err(RecordFileError::UnsupportedFormat);
    }
    let body = bytes.len() - FILE_HEADER_LEN;
    if body % RECORD_LEN != 0 {
        return Err(RecordFileError::Truncated);
    }
    let n = body / RECORD_LEN;
    let ghost spec_records = parse_records_spec(bytes@)->Ok_0;
    assert(spec_records == Seq::new(
        n as nat,
        |k: int| words_from(bytes@, FILE_HEADER_LEN + RECORD_LEN * k, KEY_COUNT as nat),
    ));
    let mut records: Vec<[u32; KEY_COUNT]> = Vec::new();
    for k in 0..n
        invariant
            n == record_count(bytes@.len()),
            n * RECORD_LEN + FILE_HEADER_LEN == bytes.len(),
            spec_records == parse_records_spec(bytes@)->Ok_0,
            spec_records == Seq::new(
                n as nat,
                |k: int| words_from(bytes@, FILE_HEADER_LEN + RECORD_LEN * k, KEY_COUNT as nat),
            ),
            records@.len() == k,
            forall|j: int| 0 <= j < k ==> #[trigger] records@[j]@ == spec_records[j],
    {
        assert(k * RECORD_LEN + RECORD_LEN <= n * RECORD_LEN) by (nonlinear_arith)
            requires
                k < n,
        ;
        let start = FILE_HEADER_LEN + k * RECORD_LEN;
        let counts = read_counts(bytes, start);
        assert(spec_records[k as int] == words_from(bytes@, start as int, KEY_COUNT as nat));
        records.push(counts);
        assert(records@[k as int]@ == spec_records[k as int]);
    }
    assert(records_view(records@) =~= spec_records);
    Ok(records)
}

/// Facts on the layout of a file of `n` whole records.
proof fn lemma_layout(len: nat, n: nat)
    requires
        len == FILE_HEADER_LEN + RECORD_LEN * n,
    ensures
        (len - FILE_HEADER_LEN) % (RECORD_LEN as int) == 0,
        record_count(len) == n,
{
    assert((RECORD_LEN * n) % (RECORD_LEN as int) == 0) by (nonlinear_arith);
    assert((RECORD_LEN * n) / (RECORD_LEN as int) == n) by (nonlinear_arith);
}

/// Appending a record to a readable file adds that record at the end of
/// what the file reads as, and leaves the records before it unchanged.
pub proof fn law_append_then_read(bytes: Seq<u8>, counts: Seq<u32>)
    requires
        parse_records_spec(bytes) is Ok,
        counts.len() == KEY_COUNT,
    ensures
        parse_records_spec(bytes + appended_bytes(false, counts)) == Ok::<
            Seq<Seq<u32>>,
            RecordFileError,
        >(parse_records_spec(bytes)->Ok_0.push(counts)),
{
    let rs = parse_records_spec(bytes)->Ok_0;
    let n = rs.len();
    assert(bytes.len() == FILE_HEADER_LEN + RECORD_LEN * n) by {
        assert((bytes.len() - FILE_HEADER_LEN) == RECORD_LEN * ((bytes.len() - FILE_HEADER_LEN)
            / (RECORD_LEN as int)) + (bytes.len() - FILE_HEADER_LEN) % (RECORD_LEN as int)) by (nonlinear_arith);
    }
    lemma_le_words(counts);
    let b2 = bytes + le_words(counts);
    assert(appended_bytes(false, counts) == le_words(counts));
    lemma_layout(b2.len(), n + 1);
    assert(b2.subrange(0, 4) =~= bytes.subrange(0, 4));
    assert(b2.subrange(4, 8) =~= bytes.subrange(4, 8));
    assert(b2.subrange(8, 12) =~= bytes.subrange(8, 12));
    let got = parse_records_spec(b2)->Ok_0;
    assert(parse_records_spec(b2) is Ok);
    assert forall|k: int| 0 <= k < n + 1 implies #[trigger] got[k] == rs.push(counts)[k] by {
        let start = FILE_HEADER_LEN + RECORD_LEN * k;
        if k < n {
            assert(start + RECORD_LEN <= bytes.len()) by (nonlinear_arith)
                requires
                    k < n,
                    start == FILE_HEADER_LEN + RECORD_LEN * k,
                    bytes.len() == FILE_HEADER_LEN + RECORD_LEN * n,
            ;
            assert forall|i: int| 0 <= i < KEY_COUNT implies #[trigger] words_from(
                b2,
                start,
                KEY_COUNT as nat,
            )[i] == words_from(bytes, start, KEY_COUNT as nat)[i] by {
                assert(b2.subrange(start + 4 * i, start + 4 * i + 4) =~= bytes.subrange(
                    start + 4 * i,
                    start + 4 * i + 4,
                ));
            }
            assert(words_from(b2, start, KEY_COUNT as nat) =~= words_from(
                bytes,
                start,
                KEY_COUNT as nat,
            ));
        } else {
            lemma_words_roundtrip(bytes, counts, Seq::empty());
            assert(b2 == bytes + le_words(counts) + Seq::<u8>::empty());
        }
    }
    assert(got =~= rs.push(counts));
}

/// A file that holds only its header reads as no records.
pub proof fn law_header_reads_empty()
    ensures
        parse_records_spec(file_header_bytes()) == Ok::<Seq<Seq<u32>>, RecordFileError>(
            Seq::empty(),
        ),
{
    lemma_auto_spec_u32_to_from_le_bytes();
    let h = file_header_bytes();
    assert(h.subrange(0, 4) =~= FILE_MAGIC@);
    assert(h.subrange(4, 8) =~= spec_u32_to_le_bytes(FILE_VERSION));
    assert(h.subrange(8, 12) =~= spec_u32_to_le_bytes(KEY_COUNT as u32));
    lemma_layout(h.len(), 0);
    assert(parse_records_spec(h)->Ok_0 =~= Seq::<Seq<u32>>::empty());
}

/// Appending a record to a file that does not exist yet gives a file that
/// reads as exactly that record.
pub proof fn law_new_file_then_read(counts: Seq<u32>)
    requires
        counts.len() == KEY_COUNT,
    ensures
        parse_records_spec(appended_bytes(true, counts)) == Ok::<Seq<Seq<u32>>, RecordFileError>(
            seq![counts],
        ),
{
    law_header_reads_empty();
    law_append_then_read(file_header_bytes(), counts);
    assert(file_header_bytes() + appended_bytes(false, counts) == appended_bytes(true, counts));
    assert(Seq::<Seq<u32>>::empty().push(counts) =~= seq![counts]);
}

/// A file made of the header and the records `rs` reads as `rs`.
pub proof fn law_records_roundtrip(rs: Seq<Seq<u32>>)
    requires
        forall|k: int| 0 <= k < rs.len() ==> (#[trigger] rs[k]).len() == KEY_COUNT,
    ensures
        parse_records_spec(file_header_bytes() + records_bytes(rs)) == Ok::<
            Seq<Seq<u32>>,
            RecordFileError,
        >(rs),
    decreases rs.len(),
{
    if rs.len() == 0 {
        law_header_reads_empty();
        assert(file_header_bytes() + records_bytes(rs) =~= file_header_bytes());
        assert(rs =~= Seq::<Seq<u32>>::empty());
    } else {
        let init = rs.drop_last();
        law_records_roundtrip(init);
        law_append_then_read(file_header_bytes() + records_bytes(init), rs.last());
        assert(file_header_bytes() + records_bytes(init) + appended_bytes(false, rs.last())
            =~= file_header_bytes() + records_bytes(rs));
        assert(init.push(rs.last()) =~= rs);
    }
}

/// The counts that the collector sends reach the file unchanged: the
/// service decodes the message into those counts, and appending them to a
/// readable file makes them its last record.
pub proof fn law_sent_counts_are_stored(file: Seq<u8>, counts: Seq<u32>)
    requires
        parse_records_spec(file) is Ok,
        counts.len() == KEY_COUNT,
    ensures
        decode_snapshot_spec(snapshot_bytes(counts)) == Ok::<Seq<u32>, SnapshotError>(counts),
        parse_records_spec(file + appended_bytes(false, counts)) == Ok::<
            Seq<Seq<u32>>,
            RecordFileError,
        >(parse_records_spec(file)->Ok_0.push(counts)),
{
    law_snapshot_roundtrip(counts);
    law_append_then_read(file, counts);
}

/// A file is refused as invalid when it is shorter than its 12-byte header
/// or does not open with `K`, `B`, `D`, `1`; with a good header, it is
/// refused as truncated unless the rest is whole records of 1024 bytes; and
/// what it reads as has one record per 1024 bytes after the header, each of
/// 256 counts.
pub proof fn law_record_file_refusals(bytes: Seq<u8>)
    ensures
        bytes.len() < 12 ==> parse_records_spec(bytes) == Err::<Seq<Seq<u32>>, RecordFileError>(
            RecordFileError::InvalidFile,
        ),
        bytes.len() >= 12 && (bytes[0] != 0x4b || bytes[1] != 0x42 || bytes[2] != 0x44 || bytes[3]
            != 0x31) ==> parse_records_spec(bytes) == Err::<Seq<Seq<u32>>, RecordFileError>(
            RecordFileError::InvalidFile,
        ),
        parse_records_spec(bytes) is Ok ==> bytes.len() >= 12 && (bytes.len() - 12) % 1024 == 0
            && parse_records_spec(bytes)->Ok_0.len() * 1024 + 12 == bytes.len() && forall|k: int|
            0 <= k < parse_records_spec(bytes)->Ok_0.len() ==> (#[trigger] parse_records_spec(
                bytes,
            )->Ok_0[k]).len() == 256,
{
    if bytes.len() >= 12 {
        if bytes.subrange(0, 4) == FILE_MAGIC@ {
            assert(bytes.subrange(0, 4)[0] == bytes[0]);
            assert(bytes.subrange(0, 4)[1] == bytes[1]);
            assert(bytes.subrange(0, 4)[2] == bytes[2]);
            assert(bytes.subrange(0, 4)[3] == bytes[3]);
        }
        if parse_records_spec(bytes) is Ok {
            let n = record_count(bytes.len());
            assert(n * 1024 + 12 == bytes.len()) by (nonlinear_arith)
                requires
                    n == (bytes.len() - 12) / 1024,
                    (bytes.len() - 12) % 1024 == 0,
                    bytes.len() >= 12,
            ;
        }
    }
}

} // verus!
