use ptm::crc32::crc32;
use ptm::header::{FileHeader, Flags, HeaderError, CURRENT_VERSION, FLAG_COMPRESSED, FLAG_ENCRYPTED};
use ptm::magic::Magic;
use ptm::state::{PTMState, StateType, Transition};
use ptm::tape::{HeadMove, Tape, TapeAlphabet, TapeHead, WorkAlphabet};

#[test]
fn header_roundtrip() {
    let h = FileHeader::new(Magic::PTMI, 1024);
    let buf = h.encode();
    let h2 = FileHeader::decode(&buf).unwrap();
    assert_eq!(h2.magic, Magic::PTMI);
    assert_eq!(h2.payload_len, 1024);
}

#[test]
fn crc32_check_value() {
    assert_eq!(crc32(b"123456789"), 0xCBF4_3926);
    assert_eq!(crc32(b""), 0);
}

#[test]
fn header_bytes_exact() {
    let h = FileHeader::new(Magic::PTMI, 1024);
    let buf = h.encode();
    assert_eq!(
        buf,
        [0x50, 0x54, 0x4D, 0x49, 0x00, 0x01, 0x00, 0x00, 0x00, 0x00, 0x04, 0x00, 0x54, 0xA7, 0xC5, 0x39]
    );
    assert_eq!(h.version, CURRENT_VERSION);
    assert_eq!(h.flags.bits(), 0);
    assert_eq!(h.total_size(), 16 + 1024);
}

#[test]
fn header_decode_rejects_bad_magic() {
    let mut buf = FileHeader::new(Magic::SNAP, 32).encode();
    buf[0] = 0x00;
    match FileHeader::decode(&buf) {
        Err(e) => {
            assert!(matches!(e, HeaderError::InvalidMagic(0x00_4E_41_50)));
            assert_eq!(e.to_string(), "invalid magic: 0x004E4150");
        }
        Ok(_) => panic!("bad magic accepted"),
    }
}

#[test]
fn header_decode_rejects_bad_flags() {
    let mut buf = FileHeader::new(Magic::SNAP, 32).encode();
    buf[7] = 0x01;
    match FileHeader::decode(&buf) {
        Err(e) => {
            assert!(matches!(e, HeaderError::InvalidFlags(0x0001)));
            assert_eq!(e.to_string(), "invalid flags: 0x0001");
        }
        Ok(_) => panic!("bad flags accepted"),
    }
}

#[test]
fn header_decode_rejects_bad_checksum() {
    let mut buf = FileHeader::new(Magic::TMTT, 48).encode();
    let stored = u32::from_be_bytes([buf[12], buf[13], buf[14], buf[15]]);
    buf[15] ^= 0xFF;
    match FileHeader::decode(&buf) {
        Err(HeaderError::ChecksumMismatch { stored: s, computed: c }) => {
            assert_eq!(c, stored);
            assert_eq!(s, stored ^ 0xFF);
            let e = HeaderError::ChecksumMismatch { stored: 0x1A, computed: 0xDEADBEEF };
            assert_eq!(e.to_string(), "CRC-32 mismatch: stored 0x0000001A, computed 0xDEADBEEF");
        }
        _ => panic!("bad checksum accepted"),
    }
}

#[test]
fn flags_accept_only_defined_bits() {
    assert!(Flags::from_bits(FLAG_ENCRYPTED | FLAG_COMPRESSED).is_some());
    assert_eq!(Flags::from_bits(0xE000).unwrap().bits(), 0xE000);
    assert!(Flags::from_bits(0x1000).is_none());
    assert_eq!(Flags::empty().bits(), 0);
}

#[test]
fn encoded_flags_survive_decoding() {
    let mut h = FileHeader::new(Magic::AUDT, 7);
    h.flags = Flags::from_bits(FLAG_ENCRYPTED).unwrap();
    h.version = 0x0203;
    let h2 = FileHeader::decode(&h.encode()).unwrap();
    assert_eq!(h2.flags, h.flags);
    assert_eq!(h2.version, 0x0203);
    assert_eq!(h2.magic, Magic::AUDT);
    assert_eq!(h2.payload_len, 7);
}

#[test]
fn magic_numbers_spell_their_names() {
    assert_eq!(Magic::from_u32(0x544D5454), Some(Magic::TMTT));
    assert_eq!(Magic::from_u32(0x12345678), None);
    assert_eq!(Magic::SNAP.as_bytes(), *b"SNAP");
    assert_eq!(Magic::OQSM.as_str(), "OQSM");
    assert_eq!(Magic::PTMI.as_u32(), 0x50544D49);
    for m in [Magic::PTMI, Magic::CFGB, Magic::SEAU, Magic::DIAG] {
        assert_eq!(m.as_bytes(), m.as_str().as_bytes());
        assert_eq!(Magic::from_u32(m.as_u32()), Some(m));
    }
}

#[test]
fn state_kinds() {
    assert_eq!(StateType::from_u8(0x03), Some(StateType::Accepting));
    assert_eq!(StateType::from_u8(0x00), None);
    assert_eq!(StateType::from_u8(0x06), None);
    let s = PTMState::new(4, StateType::Halting);
    assert!(s.is_terminal());
    assert!(s.transitions.is_empty());
    assert!(!PTMState::new(0, StateType::Initial).is_terminal());
}

#[test]
fn transition_validity() {
    let mut t = Transition {
        id: 0,
        source_state: 0,
        target_state: 1,
        read_input: 1,
        read_work: 2,
        read_control: 2,
        read_output: 2,
        write_input: 1,
        write_work: 2,
        write_control: 2,
        write_output: 2,
        move_input: 0x01,
        move_work: 0x00,
        move_control: 0x00,
        move_output: 0x02,
    };
    assert!(t.is_valid());
    t.move_input = 0x00;
    assert!(!t.is_valid());
    t.move_input = 0x02;
    t.move_output = 0x00;
    assert!(!t.is_valid());
}

#[test]
fn alphabets() {
    assert_eq!(TapeAlphabet::from_u8(2), Some(TapeAlphabet::Blank));
    assert_eq!(TapeAlphabet::from_u8(3), None);
    assert_eq!(WorkAlphabet::from_u8(5), Some(WorkAlphabet::Z));
    assert_eq!(WorkAlphabet::from_u8(6), None);
    assert_eq!(HeadMove::from_u8(1), Some(HeadMove::Right));
    assert_eq!(HeadMove::from_u8(9), None);
}

#[test]
fn tape_read_after_write() {
    let mut t = Tape::new();
    assert_eq!(t.read(), 0x02);
    t.head = 5;
    assert_eq!(t.read(), 0x02);
    t.write(0x01);
    assert_eq!(t.read(), 0x01);
    assert_eq!(t.content_len(), 6);
    assert_eq!(t.cells(), &[0x02, 0x02, 0x02, 0x02, 0x02, 0x01]);
}

#[test]
fn tape_moves() {
    let mut t = Tape::with_capacity(3);
    assert_eq!(t.cells(), &[0x02, 0x02, 0x02]);
    t.move_head(HeadMove::Left);
    assert_eq!(t.head, 0);
    t.move_head(HeadMove::Right);
    t.move_head(HeadMove::Right);
    t.move_head(HeadMove::Right);
    assert_eq!(t.head, 3);
    assert_eq!(t.content_len(), 4);
    t.move_head(HeadMove::Left);
    assert_eq!(t.head, 2);
    t.move_head(HeadMove::Stay);
    assert_eq!(t.head, 2);
}

#[test]
fn tape_init_from_bits() {
    let mut t = Tape::new();
    t.head = 3;
    t.init_from_bits(&[1, 0, 7]);
    assert_eq!(t.cells(), &[0x01, 0x00, 0x01, 0x02]);
    assert_eq!(t.head, 0);
    let h = TapeHead::new(2);
    assert_eq!(h.position, 0);
    assert_eq!(h.tape_idx, 2);
}
