//! The snapshot message that the collector sends to the service: the magic
//! `KHM1`, the protocol version, then one little-endian count per key.
use vstd::prelude::*;
use vstd::bytes::*;
use crate::words::{le_words, lemma_le_words, lemma_words_from_rewrite, lemma_words_roundtrip, word_at, words_from};

verus! {

/// Number of virtual-key codes that are counted.
pub const KEY_COUNT: usize = 256;

/// Magic that opens every snapshot message (`KHM1`).
pub const PROTOCOL_MAGIC: [u8; 4] = [0x4b, 0x48, 0x4d, 0x31];

/// Magic that opens every `.kbd` record file (`KBD1`).
pub const FILE_MAGIC: [u8; 4] = [0x4b, 0x42, 0x44, 0x31];

/// Version of the snapshot message.
pub const PROTOCOL_VERSION: u32 = 1;

/// Length in bytes of a snapshot message: magic, version, one word per key.
pub const SNAPSHOT_LEN: usize = 1032;

/// Why a snapshot message was refused.
#[derive(Debug, Clone, Copy, PartialEq, Eq, Structural)]
pub enum SnapshotError {
    /// The message is not exactly `SNAPSHOT_LEN` bytes long.
    InvalidLength,
    /// The message does not open with `PROTOCOL_MAGIC`.
    InvalidMagic,
    /// The message carries a version other than `PROTOCOL_VERSION`.
    UnsupportedVersion,
}

/// The bytes of the snapshot message for `counts`.
pub open spec fn snapshot_bytes(counts: Seq<u32>) -> Seq<u8> {
    PROTOCOL_MAGIC@ + spec_u32_to_le_bytes(PROTOCOL_VERSION) + le_words(counts)
}

/// What decoding `buf` gives: the first failing check, or the counts.
pub open spec fn decode_snapshot_spec(buf: Seq<u8>) -> Result<Seq<u32>, SnapshotError> {
    if buf.len() != SNAPSHOT_LEN {
        Err(SnapshotError::InvalidLength)
    } else if buf.subrange(0, 4) != PROTOCOL_MAGIC@ {
        Err(SnapshotError::InvalidMagic)
    } else if word_at(buf, 4) != PROTOCOL_VERSION {
        Err(SnapshotError::UnsupportedVersion)
    } else {
        Ok(words_from(buf, 8, KEY_COUNT as nat))
    }
}

/// Appends the little-endian bytes of `w` to `out`.
pub(crate) fn push_word(out: &mut Vec<u8>, w: u32)
    ensures
        final(out)@ == old(out)@ + spec_u32_to_le_bytes(w),
{
    let b = u32_to_le_bytes(w);
    out.extend_from_slice(b.as_slice());
}

/// Appends `le_words(counts)` to `out`.
pub(crate) fn push_counts(out: &mut Vec<u8>, counts: &[u32; KEY_COUNT])
    ensures
        final(out)@ == old(out)@ + le_words(counts@),
{
    let ghost start = out@;
    for i in 0..KEY_COUNT
        invariant
            out@ == start + le_words(counts@.take(i as int)),
    {
        push_word(out, counts[i]);
        assert(counts@.take(i + 1).drop_last() =~= counts@.take(i as int));
        assert(out@ =~= start + le_words(counts@.take(i + 1)));
    }
    assert(counts@.take(KEY_COUNT as int) =~= counts@);
}

/// The snapshot message for `counts`.
pub fn encode_snapshot(counts: &[u32; KEY_COUNT]) -> (out: Vec<u8>)
    ensures
        out@ == snapshot_bytes(counts@),
        out@.len() == SNAPSHOT_LEN,
{
    let mut out: Vec<u8> = Vec::with_capacity(SNAPSHOT_LEN);
    out.extend_from_slice(PROTOCOL_MAGIC.as_slice());
    push_word(&mut out, PROTOCOL_VERSION);
    push_counts(&mut out, counts);
    proof {
        lemma_auto_spec_u32_to_from_le_bytes();
        lemma_le_words(counts@);
    }
    out
}

/// The word stored little-endian at `buf[start..start + 4]`.
pub(crate) fn read_word(buf: &[u8], start: usize) -> (w: u32)
    requires
        start + 4 <= buf@.len(),
    ensures
        w == word_at(buf@, start as int),
{
    let b = [buf[start], buf[start + 1], buf[start + 2], buf[start + 3]];
    assert(b@ =~= buf@.subrange(start as int, start + 4));
    u32_from_le_bytes(b.as_slice())
}

/// The `KEY_COUNT` words stored from `buf[start]` on.
pub(crate) fn read_counts(buf: &[u8], start: usize) -> (counts: [u32; KEY_COUNT])
    requires
        start + 4 * KEY_COUNT <= buf.len(),
    ensures
        counts@ == words_from(buf@, start as int, KEY_COUNT as nat),
{
    let mut counts = [0u32; KEY_COUNT];
    for i in 0..KEY_COUNT
        invariant
            start + 4 * KEY_COUNT <= buf.len(),
            forall|j: int| 0 <= j < i ==> counts@[j] == word_at(buf@, start + 4 * j),
    {
        assert(start + 4 * i + 4 <= buf.len());
        counts[i] = read_word(buf, start + 4 * i);
    }
    assert(counts@ =~= words_from(buf@, start as int, KEY_COUNT as nat));
    counts
}

/// Decodes a snapshot message, checking its length, magic and version.
pub fn decode_snapshot(buf: &[u8]) -> (r: Result<[u32; KEY_COUNT], SnapshotError>)
    ensures
        match r {
            Ok(counts) => decode_snapshot_spec(buf@) == Ok::<Seq<u32>, SnapshotError>(counts@),
            Err(e) => decode_snapshot_spec(buf@) == Err::<Seq<u32>, SnapshotError>(e),
        },
{
    if buf.len() != SNAPSHOT_LEN {
        return Err(SnapshotError::InvalidLength);
    }
    if !(buf[0] == PROTOCOL_MAGIC[0] && buf[1] == PROTOCOL_MAGIC[1] && buf[2] == PROTOCOL_MAGIC[2]
        && buf[3] == PROTOCOL_MAGIC[3]) {
        assert(buf@.subrange(0, 4) != PROTOCOL_MAGIC@) by {
            if buf@.subrange(0, 4) == PROTOCOL_MAGIC@ {
                assert(buf@.subrange(0, 4)[0] == buf@[0]);
                assert(buf@.subrange(0, 4)[1] == buf@[1]);
                assert(buf@.subrange(0, 4)[2] == buf@[2]);
                assert(buf@.subrange(0, 4)[3] == buf@[3]);
            }
        }
        return Err(SnapshotError::InvalidMagic);
    }
    assert(buf@.subrange(0, 4) =~= PROTOCOL_MAGIC@);
    let version = read_word(buf, 4);
    if version != PROTOCOL_VERSION {
        return Err(SnapshotError::UnsupportedVersion);
    }
    Ok(read_counts(buf, 8))
}

/// Decoding the message that `encode_snapshot` made gives back the counts.
pub proof fn law_snapshot_roundtrip(counts: Seq<u32>)
    requires
        counts.len() == KEY_COUNT,
    ensures
        decode_snapshot_spec(snapshot_bytes(counts)) == Ok::<Seq<u32>, SnapshotError>(counts),
{
    lemma_auto_spec_u32_to_from_le_bytes();
    lemma_le_words(counts);
    let header = PROTOCOL_MAGIC@ + spec_u32_to_le_bytes(PROTOCOL_VERSION);
    let bytes = snapshot_bytes(counts);
    assert(bytes == header + le_words(counts) + Seq::<u8>::empty());
    lemma_words_roundtrip(header, counts, Seq::empty());
    assert(bytes.subrange(0, 4) =~= PROTOCOL_MAGIC@);
    assert(bytes.subrange(4, 8) =~= spec_u32_to_le_bytes(PROTOCOL_VERSION));
}

/// A message that decodes is exactly the message that encoding its counts
/// gives: every snapshot has one encoding.
pub proof fn law_snapshot_canonical(buf: Seq<u8>)
    requires
        decode_snapshot_spec(buf) is Ok,
    ensures
        snapshot_bytes(decode_snapshot_spec(buf)->Ok_0) == buf,
{
    lemma_auto_spec_u32_to_from_le_bytes();
    let counts = words_from(buf, 8, KEY_COUNT as nat);
    lemma_words_from_rewrite(buf, 8, KEY_COUNT as nat);
    assert(spec_u32_to_le_bytes(word_at(buf, 4)) == buf.subrange(4, 8));
    assert(buf =~= buf.subrange(0, 4) + buf.subrange(4, 8) + buf.subrange(8, 1032));
}

/// A message is refused for its length first: anything but 1032 bytes
/// (magic, version, 256 counts of four bytes); then for its magic, which
/// must be the bytes `K`, `H`, `M`, `1`.
pub proof fn law_snapshot_refusals(buf: Seq<u8>)
    ensures
        buf.len() != 1032 ==> decode_snapshot_spec(buf) == Err::<Seq<u32>, SnapshotError>(
            SnapshotError::InvalidLength,
        ),
        buf.len() == 1032 && (buf[0] != 0x4b || buf[1] != 0x48 || buf[2] != 0x4d || buf[3] != 0x31)
            ==> decode_snapshot_spec(buf) == Err::<Seq<u32>, SnapshotError>(
            SnapshotError::InvalidMagic,
        ),
        decode_snapshot_spec(buf) is Ok ==> buf.len() == 1032 && buf[0] == 0x4b && buf[1] == 0x48
            && buf[2] == 0x4d && buf[3] == 0x31 && decode_snapshot_spec(buf)->Ok_0.len() == 256,
{
    if buf.len() == 1032 {
        if buf.subrange(0, 4) == PROTOCOL_MAGIC@ {
            assert(buf.subrange(0, 4)[0] == buf[0]);
            assert(buf.subrange(0, 4)[1] == buf[1]);
            assert(buf.subrange(0, 4)[2] == buf[2]);
            assert(buf.subrange(0, 4)[3] == buf[3]);
        }
    }
}

} // verus!
