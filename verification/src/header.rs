//! The 16-byte header that opens every artifact file:
//! bytes 0-3 magic, 4-5 version, 6-7 flags, 8-11 payload length, 12-15 CRC-32 of bytes 0-11,
//! every field big-endian.
use vstd::prelude::*;
use crate::be_bytes::{be16, be16_at, be32, be32_at, from_be16, from_be32, to_be16, to_be32};
use crate::crc32::{crc32, crc32_of};
use crate::magic::{magic_with_value, Magic};
use crate::text::{push_radix, radix_text};

verus! {

pub const HEADER_SIZE: usize = 16;

pub const CURRENT_VERSION: u16 = 0x0001;

/// Flag bit: the payload is encrypted.
pub const FLAG_ENCRYPTED: u16 = 0x8000;

/// Flag bit: the payload is compressed.
pub const FLAG_COMPRESSED: u16 = 0x4000;

/// Flag bit: the artifact is a placeholder.
pub const FLAG_PLACEHOLDER: u16 = 0x2000;

/// Whether `bits` sets no bit other than the three defined flags.
pub open spec fn known_flag_bits(bits: u16) -> bool {
    bits & 0x1FFFu16 == 0
}

/// A set of header flags; only the three defined bits can be set.
#[derive(Debug, Clone, Copy, PartialEq, Eq, Hash, Structural)]
pub struct Flags {
    bits: u16,
}

impl View for Flags {
    type V = u16;

    closed spec fn view(&self) -> u16 {
        self.bits
    }
}

/// The flags whose bits are `bits`.
pub closed spec fn flags_with_bits(bits: u16) -> Flags {
    Flags { bits }
}

/// A set of flags is determined by its bits.
pub proof fn lemma_flags_bits(bits: u16, f: Flags)
    ensures
        flags_with_bits(bits)@ == bits,
        flags_with_bits(f@) == f,
{
}

impl Flags {
    #[verifier::type_invariant]
    closed spec fn inv(self) -> bool {
        known_flag_bits(self.bits)
    }

    /// The empty set of flags.
    pub fn empty() -> (r: Flags)
        ensures
            r@ == 0,
            r == flags_with_bits(0),
    {
        assert(0u16 & 0x1FFFu16 == 0) by (bit_vector);
        Flags { bits: 0 }
    }

    /// The flags whose bits are `bits`; `None` when `bits` sets an undefined bit.
    pub fn from_bits(bits: u16) -> (r: Option<Flags>)
        ensures
            r is Some <==> known_flag_bits(bits),
            r matches Some(f) ==> f@ == bits && f == flags_with_bits(bits),
    {
        if bits & 0x1FFFu16 == 0 {
            Some(Flags { bits })
        } else {
            None
        }
    }

    /// The bits of the flags.
    pub fn bits(&self) -> (r: u16)
        ensures
            r == self@,
            known_flag_bits(r),
    {
        proof {
            use_type_invariant(self);
        }
        self.bits
    }
}

#[derive(Debug, Clone, Copy)]
pub struct FileHeader {
    pub magic: Magic,
    pub version: u16,
    pub flags: Flags,
    pub payload_len: u32,
}

/// How the length of a file compares with what its header declares.
#[derive(Debug, Clone, Copy, PartialEq, Eq, Structural)]
pub enum PayloadFit {
    /// The file is shorter than header and payload.
    Short,
    /// The file holds exactly header and payload.
    Exact,
    /// Bytes follow the payload.
    Trailing,
}

#[derive(Debug)]
pub enum HeaderError {
    InvalidMagic(u32),
    InvalidFlags(u16),
    ChecksumMismatch { stored: u32, computed: u32 },
}

impl HeaderError {
    /// The text that describes the error.
    pub open spec fn message(self) -> Seq<char> {
        match self {
            HeaderError::InvalidMagic(v) => "invalid magic: 0x"@ + radix_text(v as nat, 16, 8),
            HeaderError::InvalidFlags(v) => "invalid flags: 0x"@ + radix_text(v as nat, 16, 4),
            HeaderError::ChecksumMismatch { stored, computed } => "CRC-32 mismatch: stored 0x"@
                + radix_text(stored as nat, 16, 8) + ", computed 0x"@ + radix_text(
                computed as nat,
                16,
                8,
            ),
        }
    }

    /// Describes the error in words.
    pub fn to_string(&self) -> (r: String)
        ensures
            r@ == self.message(),
    {
        match self {
            HeaderError::InvalidMagic(v) => {
                let mut s = String::from_str("invalid magic: 0x");
                push_radix(&mut s, *v as u64, 16, 8);
                s
            },
            HeaderError::InvalidFlags(v) => {
                let mut s = String::from_str("invalid flags: 0x");
                push_radix(&mut s, *v as u64, 16, 4);
                s
            },
            HeaderError::ChecksumMismatch { stored, computed } => {
                let mut s = String::from_str("CRC-32 mismatch: stored 0x");
                push_radix(&mut s, *stored as u64, 16, 8);
                s.append(", computed 0x");
                push_radix(&mut s, *computed as u64, 16, 8);
                s
            },
        }
    }
}

/// The twelve bytes that the checksum covers.
pub open spec fn header_body(magic: Magic, version: u16, flag_bits: u16, payload_len: u32) -> Seq<u8> {
    be32(magic.value()) + be16(version) + be16(flag_bits) + be32(payload_len)
}

/// What `decode` makes of the sixteen bytes `b`.
pub open spec fn decode_header(b: Seq<u8>) -> Result<FileHeader, HeaderError> {
    let magic_val = be32_at(b, 0);
    let flag_bits = be16_at(b, 6);
    let stored = be32_at(b, 12);
    let computed = crc32_of(b.subrange(0, 12));
    if magic_with_value(magic_val) is None {
        Err(HeaderError::InvalidMagic(magic_val))
    } else if !known_flag_bits(flag_bits) {
        Err(HeaderError::InvalidFlags(flag_bits))
    } else if stored != computed {
        Err(HeaderError::ChecksumMismatch { stored, computed })
    } else {
        Ok(
            FileHeader {
                magic: magic_with_value(magic_val).unwrap(),
                version: be16_at(b, 4),
                flags: flags_with_bits(flag_bits),
                payload_len: be32_at(b, 8),
            },
        )
    }
}

/// The header that `FileHeader::new` makes.
pub open spec fn new_header(magic: Magic, payload_len: u32) -> FileHeader {
    FileHeader { magic, version: CURRENT_VERSION, flags: flags_with_bits(0), payload_len }
}

impl FileHeader {
    /// The sixteen bytes that `encode` writes.
    pub open spec fn bytes(self) -> Seq<u8> {
        let body = header_body(self.magic, self.version, self.flags@, self.payload_len);
        body + be32(crc32_of(body))
    }

    /// A header of the current version with no flags.
    pub fn new(magic: Magic, payload_len: u32) -> (r: Self)
        ensures
            r.magic == magic,
            r.version == CURRENT_VERSION,
            r.flags@ == 0,
            r.payload_len == payload_len,
            r == new_header(magic, payload_len),
    {
        proof {
            lemma_flags_bits(0, flags_with_bits(0));
        }
        FileHeader { magic, version: CURRENT_VERSION, flags: Flags::empty(), payload_len }
    }

    pub fn encode(&self) -> (r: [u8; 16])
        ensures
            r@ == self.bytes(),
    {
        let m = self.magic.as_bytes();
        let v = to_be16(self.version);
        let f = to_be16(self.flags.bits());
        let p = to_be32(self.payload_len);
        let body: [u8; 12] = [m[0], m[1], m[2], m[3], v[0], v[1], f[0], f[1], p[0], p[1], p[2], p[3]];
        assert(body@ =~= header_body(self.magic, self.version, self.flags@, self.payload_len));
        let c = to_be32(crc32(body.as_slice()));
        let r: [u8; 16] = [
            m[0],
            m[1],
            m[2],
            m[3],
            v[0],
            v[1],
            f[0],
            f[1],
            p[0],
            p[1],
            p[2],
            p[3],
            c[0],
            c[1],
            c[2],
            c[3],
        ];
        assert(r@ =~= self.bytes());
        r
    }

    pub fn decode(buf: &[u8; 16]) -> (r: Result<Self, HeaderError>)
        ensures
            r == decode_header(buf@),
    {
        let magic_val = from_be32(buf[0], buf[1], buf[2], buf[3]);
        let magic = match Magic::from_u32(magic_val) {
            Some(m) => m,
            None => {
                return Err(HeaderError::InvalidMagic(magic_val));
            },
        };
        let version = from_be16(buf[4], buf[5]);
        let flag_bits = from_be16(buf[6], buf[7]);
        let flags = match Flags::from_bits(flag_bits) {
            Some(f) => f,
            None => {
                return Err(HeaderError::InvalidFlags(flag_bits));
            },
        };
        let payload_len = from_be32(buf[8], buf[9], buf[10], buf[11]);
        let stored_crc = from_be32(buf[12], buf[13], buf[14], buf[15]);
        let body: [u8; 12] = [
            buf[0],
            buf[1],
            buf[2],
            buf[3],
            buf[4],
            buf[5],
            buf[6],
            buf[7],
            buf[8],
            buf[9],
            buf[10],
            buf[11],
        ];
        assert(body@ =~= buf@.subrange(0, 12));
        let computed_crc = crc32(body.as_slice());
        if stored_crc != computed_crc {
            return Err(HeaderError::ChecksumMismatch { stored: stored_crc, computed: computed_crc });
        }
        Ok(FileHeader { magic, version, flags, payload_len })
    }

    /// How a file of `file_len` bytes compares with the header and payload it should hold.
    pub fn payload_fit(&self, file_len: usize) -> (r: PayloadFit)
        ensures
            r == (if file_len < HEADER_SIZE + self.payload_len {
                PayloadFit::Short
            } else if file_len > HEADER_SIZE + self.payload_len {
                PayloadFit::Trailing
            } else {
                PayloadFit::Exact
            }),
    {
        let expected: u64 = HEADER_SIZE as u64 + self.payload_len as u64;
        let actual: u64 = file_len as u64;
        if actual < expected {
            PayloadFit::Short
        } else if actual > expected {
            PayloadFit::Trailing
        } else {
            PayloadFit::Exact
        }
    }

    /// The size of the whole file: header and payload.
    pub fn total_size(&self) -> (r: usize)
        requires
            HEADER_SIZE + self.payload_len <= usize::MAX,
        ensures
            r == HEADER_SIZE + self.payload_len,
    {
        HEADER_SIZE + self.payload_len as usize
    }
}

/// Decoding what `encode` wrote gives the header back.
pub proof fn lemma_header_encode_decode(h: FileHeader)
    requires
        known_flag_bits(h.flags@),
    ensures
        decode_header(h.bytes()) == Ok::<FileHeader, HeaderError>(h),
{
    let b = h.bytes();
    let body = header_body(h.magic, h.version, h.flags@, h.payload_len);
    assert(b.subrange(0, 4) =~= be32(h.magic.value()));
    assert(b.subrange(4, 6) =~= be16(h.version));
    assert(b.subrange(6, 8) =~= be16(h.flags@));
    assert(b.subrange(8, 12) =~= be32(h.payload_len));
    assert(b.subrange(12, 16) =~= be32(crc32_of(body)));
    assert(b.subrange(0, 12) =~= body);
    crate::be_bytes::lemma_be32_at(b, 0, h.magic.value());
    crate::be_bytes::lemma_be16_at(b, 4, h.version);
    crate::be_bytes::lemma_be16_at(b, 6, h.flags@);
    crate::be_bytes::lemma_be32_at(b, 8, h.payload_len);
    crate::be_bytes::lemma_be32_at(b, 12, crc32_of(body));
    assert(h.magic.value() == h.magic.value());
    let c = choose|c: Magic| #[trigger] c.value() == h.magic.value();
    Magic::lemma_value_injective(c, h.magic);
    lemma_flags_bits(h.flags@, h.flags);
}

/// A header made by `FileHeader::new` decodes to itself.
pub proof fn lemma_new_header_encode_decode(magic: Magic, payload_len: u32)
    ensures
        decode_header(new_header(magic, payload_len).bytes()) == Ok::<FileHeader, HeaderError>(
            new_header(magic, payload_len),
        ),
{
    assert(0u16 & 0x1FFFu16 == 0) by (bit_vector);
    lemma_flags_bits(0, flags_with_bits(0));
    lemma_header_encode_decode(new_header(magic, payload_len));
}

/// Re-encoding a header that decoding accepted gives back the same sixteen bytes.
pub proof fn lemma_header_decode_encode(b: Seq<u8>)
    requires
        b.len() == 16,
        decode_header(b) is Ok,
    ensures
        decode_header(b)->Ok_0.bytes() == b,
{
    let h = decode_header(b)->Ok_0;
    lemma_flags_bits(be16_at(b, 6), h.flags);
    let magic_val = be32_at(b, 0);
    let c = choose|c: Magic| #[trigger] c.value() == magic_val;
    crate::be_bytes::lemma_be32_at_bytes(b, 0);
    crate::be_bytes::lemma_be16_at_bytes(b, 4);
    crate::be_bytes::lemma_be16_at_bytes(b, 6);
    crate::be_bytes::lemma_be32_at_bytes(b, 8);
    crate::be_bytes::lemma_be32_at_bytes(b, 12);
    let body = header_body(h.magic, h.version, h.flags@, h.payload_len);
    assert(body =~= b.subrange(0, 12));
    assert(h.bytes() =~= b);
}

} // verus!
