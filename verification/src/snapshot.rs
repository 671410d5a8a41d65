//! Configuration snapshots of a running machine: the 16-byte standard header with magic
//! `SNAP`, then 32 bytes of metadata, every integer big-endian.
use vstd::prelude::*;
use crate::be_bytes::{be32, be32_at, extend_bytes, from_be32, to_be32};
use crate::header::{decode_header, lemma_new_header_encode_decode, new_header, FileHeader};
use crate::magic::Magic;

verus! {

pub const SNAP_HEADER_SIZE: usize = 16 + 32;

#[derive(Debug, Clone, Copy)]
pub struct SnapshotMetadata {
    pub step_number: u32,
    pub current_state: u32,
    pub input_head: u32,
    pub work_head: u32,
    pub control_head: u32,
    pub output_head: u32,
    pub work_tape_len: u32,
    pub control_tape_len: u32,
}

impl SnapshotMetadata {
    /// The 32 bytes that `encode` writes.
    pub open spec fn bytes(self) -> Seq<u8> {
        be32(self.step_number)
            + be32(self.current_state)
            + be32(self.input_head)
            + be32(self.work_head)
            + be32(self.control_head)
            + be32(self.output_head)
            + be32(self.work_tape_len)
            + be32(self.control_tape_len)
    }

    /// The metadata that the 32 bytes `b` hold.
    pub open spec fn from_bytes(b: Seq<u8>) -> SnapshotMetadata {
        SnapshotMetadata {
            step_number: be32_at(b, 0),
            current_state: be32_at(b, 4),
            input_head: be32_at(b, 8),
            work_head: be32_at(b, 12),
            control_head: be32_at(b, 16),
            output_head: be32_at(b, 20),
            work_tape_len: be32_at(b, 24),
            control_tape_len: be32_at(b, 28),
        }
    }

    pub fn encode(&self) -> (r: [u8; 32])
        ensures
            r@ == self.bytes(),
    {
        let b0 = to_be32(self.step_number);
        let b1 = to_be32(self.current_state);
        let b2 = to_be32(self.input_head);
        let b3 = to_be32(self.work_head);
        let b4 = to_be32(self.control_head);
        let b5 = to_be32(self.output_head);
        let b6 = to_be32(self.work_tape_len);
        let b7 = to_be32(self.control_tape_len);
        let r: [u8; 32] = [
            b0[0], b0[1], b0[2], b0[3],
            b1[0], b1[1], b1[2], b1[3],
            b2[0], b2[1], b2[2], b2[3],
            b3[0], b3[1], b3[2], b3[3],
            b4[0], b4[1], b4[2], b4[3],
            b5[0], b5[1], b5[2], b5[3],
            b6[0], b6[1], b6[2], b6[3],
            b7[0], b7[1], b7[2], b7[3],
        ];
        assert(r@ =~= self.bytes());
        r
    }

    pub fn decode(buf: &[u8; 32]) -> (r: Self)
        ensures
            r == Self::from_bytes(buf@),
    {
        SnapshotMetadata {
            step_number: from_be32(buf[0], buf[1], buf[2], buf[3]),
            current_state: from_be32(buf[4], buf[5], buf[6], buf[7]),
            input_head: from_be32(buf[8], buf[9], buf[10], buf[11]),
            work_head: from_be32(buf[12], buf[13], buf[14], buf[15]),
            control_head: from_be32(buf[16], buf[17], buf[18], buf[19]),
            output_head: from_be32(buf[20], buf[21], buf[22], buf[23]),
            work_tape_len: from_be32(buf[24], buf[25], buf[26], buf[27]),
            control_tape_len: from_be32(buf[28], buf[29], buf[30], buf[31]),
        }
    }
}

/// Decoding encoded snapshot metadata gives it back.
pub proof fn lemma_snapshot_metadata_encode_decode(m: SnapshotMetadata)
    ensures
        SnapshotMetadata::from_bytes(m.bytes()) == m,
{
    let b = m.bytes();
    assert(b.subrange(0, 4) =~= be32(m.step_number));
    crate::be_bytes::lemma_be32_at(b, 0, m.step_number);
    assert(b.subrange(4, 8) =~= be32(m.current_state));
    crate::be_bytes::lemma_be32_at(b, 4, m.current_state);
    assert(b.subrange(8, 12) =~= be32(m.input_head));
    crate::be_bytes::lemma_be32_at(b, 8, m.input_head);
    assert(b.subrange(12, 16) =~= be32(m.work_head));
    crate::be_bytes::lemma_be32_at(b, 12, m.work_head);
    assert(b.subrange(16, 20) =~= be32(m.control_head));
    crate::be_bytes::lemma_be32_at(b, 16, m.control_head);
    assert(b.subrange(20, 24) =~= be32(m.output_head));
    crate::be_bytes::lemma_be32_at(b, 20, m.output_head);
    assert(b.subrange(24, 28) =~= be32(m.work_tape_len));
    crate::be_bytes::lemma_be32_at(b, 24, m.work_tape_len);
    assert(b.subrange(28, 32) =~= be32(m.control_tape_len));
    crate::be_bytes::lemma_be32_at(b, 28, m.control_tape_len);
}

/// Re-encoding decoded snapshot metadata gives back the 32 bytes.
pub proof fn lemma_snapshot_metadata_decode_encode(b: Seq<u8>)
    requires
        b.len() == 32,
    ensures
        SnapshotMetadata::from_bytes(b).bytes() == b,
{
    crate::be_bytes::lemma_be32_at_bytes(b, 0);
    crate::be_bytes::lemma_be32_at_bytes(b, 4);
    crate::be_bytes::lemma_be32_at_bytes(b, 8);
    crate::be_bytes::lemma_be32_at_bytes(b, 12);
    crate::be_bytes::lemma_be32_at_bytes(b, 16);
    crate::be_bytes::lemma_be32_at_bytes(b, 20);
    crate::be_bytes::lemma_be32_at_bytes(b, 24);
    crate::be_bytes::lemma_be32_at_bytes(b, 28);
    assert(SnapshotMetadata::from_bytes(b).bytes() =~= b);
}

/// The bytes that `Snapshot::encode` writes for metadata `m`.
pub open spec fn snapshot_bytes(m: SnapshotMetadata) -> Seq<u8> {
    new_header(Magic::SNAP, 32).bytes() + m.bytes()
}

/// What `Snapshot::decode` makes of `b`: header and metadata, or the text of the error.
#[verifier::opaque]
pub open spec fn decode_snapshot(b: Seq<u8>) -> Result<(FileHeader, SnapshotMetadata), Seq<char>> {
    if b.len() < 48 {
        Err("buffer too short"@)
    } else {
        match decode_header(b.subrange(0, 16)) {
            Err(e) => Err(e.message()),
            Ok(h) => Ok((h, SnapshotMetadata::from_bytes(b.subrange(16, 48)))),
        }
    }
}

#[derive(Debug, Clone, Copy)]
pub struct Snapshot {
    pub header: FileHeader,
    pub metadata: SnapshotMetadata,
}

impl Snapshot {
    /// A snapshot of `metadata` under a header for its 32 bytes.
    pub fn new(metadata: SnapshotMetadata) -> (r: Self)
        ensures
            r.header == new_header(Magic::SNAP, 32),
            r.metadata == metadata,
    {
        let payload_len: usize = 32;
        let header = FileHeader::new(Magic::SNAP, payload_len as u32);
        Snapshot { header, metadata }
    }

    /// The file bytes: a fresh header, then the metadata.
    pub fn encode(&self) -> (r: Vec<u8>)
        ensures
            r@ == snapshot_bytes(self.metadata),
    {
        let payload_len: usize = 32;
        let header = FileHeader::new(Magic::SNAP, payload_len as u32);
        let mut buf: Vec<u8> = Vec::with_capacity(16 + payload_len);
        let hb = header.encode();
        extend_bytes(&mut buf, hb.as_slice());
        let mb = self.metadata.encode();
        extend_bytes(&mut buf, mb.as_slice());
        buf
    }

    /// Reads a snapshot from file bytes; the error says what is wrong.
    pub fn decode(buf: &[u8]) -> (r: Result<Self, String>)
        ensures
            match r {
                Ok(s) => decode_snapshot(buf@) == Ok::<(FileHeader, SnapshotMetadata), Seq<char>>(
                    (s.header, s.metadata),
                ),
                Err(e) => decode_snapshot(buf@) == Err::<(FileHeader, SnapshotMetadata), Seq<char>>(
                    e@,
                ),
            },
    {
        proof {
            reveal(decode_snapshot);
        }
        if buf.len() < 16 + 32 {
            return Err(String::from_str("buffer too short"));
        }
        let hdr: [u8; 16] = [
            buf[0], buf[1], buf[2], buf[3], buf[4], buf[5], buf[6], buf[7],
            buf[8], buf[9], buf[10], buf[11], buf[12], buf[13], buf[14], buf[15],
        ];
        assert(hdr@ =~= buf@.subrange(0, 16));
        let header = match FileHeader::decode(&hdr) {
            Ok(h) => h,
            Err(e) => {
                return Err(e.to_string());
            },
        };
        let meta_buf: [u8; 32] = [
            buf[16], buf[17], buf[18], buf[19], buf[20], buf[21], buf[22], buf[23],
            buf[24], buf[25], buf[26], buf[27], buf[28], buf[29], buf[30], buf[31],
            buf[32], buf[33], buf[34], buf[35], buf[36], buf[37], buf[38], buf[39],
            buf[40], buf[41], buf[42], buf[43], buf[44], buf[45], buf[46], buf[47],
        ];
        assert(meta_buf@ =~= buf@.subrange(16, 48));
        let metadata = SnapshotMetadata::decode(&meta_buf);
        Ok(Snapshot { header, metadata })
    }
}

/// Decoding an encoded snapshot gives back its metadata under a fresh header.
pub proof fn lemma_snapshot_encode_decode(m: SnapshotMetadata)
    ensures
        decode_snapshot(snapshot_bytes(m)) == Ok::<(FileHeader, SnapshotMetadata), Seq<char>>(
            (new_header(Magic::SNAP, 32), m),
        ),
{
    reveal(decode_snapshot);
    let hb = new_header(Magic::SNAP, 32).bytes();
    let b = snapshot_bytes(m);
    assert(hb.len() == 16);
    assert(b.subrange(0, 16) =~= hb);
    assert(b.subrange(16, 48) =~= m.bytes());
    lemma_new_header_encode_decode(Magic::SNAP, 32);
    lemma_snapshot_metadata_encode_decode(m);
}

} // verus!
