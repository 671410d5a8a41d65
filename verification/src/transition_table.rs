//! Transition tables in the TMTT binary format: the 16-byte standard header, 48 bytes of
//! machine metadata, then 16 bytes per state record and 48 bytes per transition record,
//! every integer big-endian.
use vstd::prelude::*;
use crate::be_bytes::{be32, be32_at, extend_bytes, from_be32, to_be32};
use crate::header::{decode_header, lemma_new_header_encode_decode, new_header, FileHeader};
use crate::magic::Magic;

verus! {

pub const TMTT_HEADER_SIZE: usize = 16 + 48;

#[derive(Debug, Clone, Copy)]
pub struct TMTTMetadata {
    pub num_states: u32,
    pub num_transitions: u32,
    pub initial_state: u32,
    pub accepting_state: u32,
    pub rejecting_state: u32,
    pub halting_state: u32,
    pub input_alphabet_size: u32,
    pub work_alphabet_size: u32,
    pub control_alphabet_size: u32,
    pub output_alphabet_size: u32,
    pub max_tapes: u32,
    pub poly_degree_bound: u32,
}

impl TMTTMetadata {
    /// The 48 bytes that `encode` writes.
    pub open spec fn bytes(self) -> Seq<u8> {
        be32(self.num_states)
            + be32(self.num_transitions)
            + be32(self.initial_state)
            + be32(self.accepting_state)
            + be32(self.rejecting_state)
            + be32(self.halting_state)
            + be32(self.input_alphabet_size)
            + be32(self.work_alphabet_size)
            + be32(self.control_alphabet_size)
            + be32(self.output_alphabet_size)
            + be32(self.max_tapes)
            + be32(self.poly_degree_bound)
    }

    /// The metadata that the 48 bytes `b` hold.
    pub open spec fn from_bytes(b: Seq<u8>) -> TMTTMetadata {
        TMTTMetadata {
            num_states: be32_at(b, 0),
            num_transitions: be32_at(b, 4),
            initial_state: be32_at(b, 8),
            accepting_state: be32_at(b, 12),
            rejecting_state: be32_at(b, 16),
            halting_state: be32_at(b, 20),
            input_alphabet_size: be32_at(b, 24),
            work_alphabet_size: be32_at(b, 28),
            control_alphabet_size: be32_at(b, 32),
            output_alphabet_size: be32_at(b, 36),
            max_tapes: be32_at(b, 40),
            poly_degree_bound: be32_at(b, 44),
        }
    }

    /// The metadata of an empty machine over the standard alphabets: 3 input, 6 work,
    /// 3 control and 3 output symbols, 4 tapes, linear time.
    pub fn default_for_ptm() -> (r: Self)
        ensures
            r.num_states == 0,
            r.num_transitions == 0,
            r.initial_state == 0,
            r.accepting_state == 0,
            r.rejecting_state == 0,
            r.halting_state == 0,
            r.input_alphabet_size == 3,
            r.work_alphabet_size == 6,
            r.control_alphabet_size == 3,
            r.output_alphabet_size == 3,
            r.max_tapes == 4,
            r.poly_degree_bound == 1,
    {
        TMTTMetadata {
            num_states: 0,
            num_transitions: 0,
            initial_state: 0,
            accepting_state: 0,
            rejecting_state: 0,
            halting_state: 0,
            input_alphabet_size: 3,
            work_alphabet_size: 6,
            control_alphabet_size: 3,
            output_alphabet_size: 3,
            max_tapes: 4,
            poly_degree_bound: 1,
        }
    }

    pub fn encode(&self) -> (r: [u8; 48])
        ensures
            r@ == self.bytes(),
    {
        let b0 = to_be32(self.num_states);
        let b1 = to_be32(self.num_transitions);
        let b2 = to_be32(self.initial_state);
        let b3 = to_be32(self.accepting_state);
        let b4 = to_be32(self.rejecting_state);
        let b5 = to_be32(self.halting_state);
        let b6 = to_be32(self.input_alphabet_size);
        let b7 = to_be32(self.work_alphabet_size);
        let b8 = to_be32(self.control_alphabet_size);
        let b9 = to_be32(self.output_alphabet_size);
        let b10 = to_be32(self.max_tapes);
        let b11 = to_be32(self.poly_degree_bound);
        let r: [u8; 48] = [
            b0[0], b0[1], b0[2], b0[3],
            b1[0], b1[1], b1[2], b1[3],
            b2[0], b2[1], b2[2], b2[3],
            b3[0], b3[1], b3[2], b3[3],
            b4[0], b4[1], b4[2], b4[3],
            b5[0], b5[1], b5[2], b5[3],
            b6[0], b6[1], b6[2], b6[3],
            b7[0], b7[1], b7[2], b7[3],
            b8[0], b8[1], b8[2], b8[3],
            b9[0], b9[1], b9[2], b9[3],
            b10[0], b10[1], b10[2], b10[3],
            b11[0], b11[1], b11[2], b11[3],
        ];
        assert(r@ =~= self.bytes());
        r
    }

    pub fn decode(buf: &[u8; 48]) -> (r: Self)
        ensures
            r == Self::from_bytes(buf@),
    {
        TMTTMetadata {
            num_states: from_be32(buf[0], buf[1], buf[2], buf[3]),
            num_transitions: from_be32(buf[4], buf[5], buf[6], buf[7]),
            initial_state: from_be32(buf[8], buf[9], buf[10], buf[11]),
            accepting_state: from_be32(buf[12], buf[13], buf[14], buf[15]),
            rejecting_state: from_be32(buf[16], buf[17], buf[18], buf[19]),
            halting_state: from_be32(buf[20], buf[21], buf[22], buf[23]),
            input_alphabet_size: from_be32(buf[24], buf[25], buf[26], buf[27]),
            work_alphabet_size: from_be32(buf[28], buf[29], buf[30], buf[31]),
            control_alphabet_size: from_be32(buf[32], buf[33], buf[34], buf[35]),
            output_alphabet_size: from_be32(buf[36], buf[37], buf[38], buf[39]),
            max_tapes: from_be32(buf[40], buf[41], buf[42], buf[43]),
            poly_degree_bound: from_be32(buf[44], buf[45], buf[46], buf[47]),
        }
    }
}

/// Decoding encoded metadata gives it back.
pub proof fn lemma_metadata_encode_decode(m: TMTTMetadata)
    ensures
        TMTTMetadata::from_bytes(m.bytes()) == m,
{
    let b = m.bytes();
    assert(b.subrange(0, 4) =~= be32(m.num_states));
    crate::be_bytes::lemma_be32_at(b, 0, m.num_states);
    assert(b.subrange(4, 8) =~= be32(m.num_transitions));
    crate::be_bytes::lemma_be32_at(b, 4, m.num_transitions);
    assert(b.subrange(8, 12) =~= be32(m.initial_state));
    crate::be_bytes::lemma_be32_at(b, 8, m.initial_state);
    assert(b.subrange(12, 16) =~= be32(m.accepting_state));
    crate::be_bytes::lemma_be32_at(b, 12, m.accepting_state);
    assert(b.subrange(16, 20) =~= be32(m.rejecting_state));
    crate::be_bytes::lemma_be32_at(b, 16, m.rejecting_state);
    assert(b.subrange(20, 24) =~= be32(m.halting_state));
    crate::be_bytes::lemma_be32_at(b, 20, m.halting_state);
    assert(b.subrange(24, 28) =~= be32(m.input_alphabet_size));
    crate::be_bytes::lemma_be32_at(b, 24, m.input_alphabet_size);
    assert(b.subrange(28, 32) =~= be32(m.work_alphabet_size));
    crate::be_bytes::lemma_be32_at(b, 28, m.work_alphabet_size);
    assert(b.subrange(32, 36) =~= be32(m.control_alphabet_size));
    crate::be_bytes::lemma_be32_at(b, 32, m.control_alphabet_size);
    assert(b.subrange(36, 40) =~= be32(m.output_alphabet_size));
    crate::be_bytes::lemma_be32_at(b, 36, m.output_alphabet_size);
    assert(b.subrange(40, 44) =~= be32(m.max_tapes));
    crate::be_bytes::lemma_be32_at(b, 40, m.max_tapes);
    assert(b.subrange(44, 48) =~= be32(m.poly_degree_bound));
    crate::be_bytes::lemma_be32_at(b, 44, m.poly_degree_bound);
}

/// Re-encoding decoded metadata gives back the 48 bytes.
pub proof fn lemma_metadata_decode_encode(b: Seq<u8>)
    requires
        b.len() == 48,
    ensures
        TMTTMetadata::from_bytes(b).bytes() == b,
{
    crate::be_bytes::lemma_be32_at_bytes(b, 0);
    crate::be_bytes::lemma_be32_at_bytes(b, 4);
    crate::be_bytes::lemma_be32_at_bytes(b, 8);
    crate::be_bytes::lemma_be32_at_bytes(b, 12);
    crate::be_bytes::lemma_be32_at_bytes(b, 16);
    crate::be_bytes::lemma_be32_at_bytes(b, 20);
    crate::be_bytes::lemma_be32_at_bytes(b, 24);
    crate::be_bytes::lemma_be32_at_bytes(b, 28);
    crate::be_bytes::lemma_be32_at_bytes(b, 32);
    crate::be_bytes::lemma_be32_at_bytes(b, 36);
    crate::be_bytes::lemma_be32_at_bytes(b, 40);
    crate::be_bytes::lemma_be32_at_bytes(b, 44);
    assert(TMTTMetadata::from_bytes(b).bytes() =~= b);
}

#[derive(Debug, Clone, Copy, PartialEq, Eq, Structural)]
pub enum StateType {
    Normal,
    Initial,
    Accepting,
    Rejecting,
    Halting,
}

/// The state kind with code `v`, if there is one.
pub open spec fn state_type_with_code(v: u32) -> Option<StateType> {
    if v == 0x01 {
        Some(StateType::Normal)
    } else if v == 0x02 {
        Some(StateType::Initial)
    } else if v == 0x03 {
        Some(StateType::Accepting)
    } else if v == 0x04 {
        Some(StateType::Rejecting)
    } else if v == 0x05 {
        Some(StateType::Halting)
    } else {
        None
    }
}

impl StateType {
    /// The 32-bit code of the state kind.
    pub open spec fn code(self) -> u32 {
        match self {
            StateType::Normal => 0x01,
            StateType::Initial => 0x02,
            StateType::Accepting => 0x03,
            StateType::Rejecting => 0x04,
            StateType::Halting => 0x05,
        }
    }

    /// The code of the state kind.
    pub fn as_u32(self) -> (r: u32)
        ensures
            r == self.code(),
    {
        match self {
            StateType::Normal => 0x01,
            StateType::Initial => 0x02,
            StateType::Accepting => 0x03,
            StateType::Rejecting => 0x04,
            StateType::Halting => 0x05,
        }
    }

    /// The state kind with code `v`; `None` when `v` is no code.
    pub fn from_u32(v: u32) -> (r: Option<Self>)
        ensures
            r == state_type_with_code(v),
            r matches Some(t) ==> t.code() == v,
            r is None <==> !(0x01 <= v <= 0x05),
    {
        match v {
            0x01 => Some(Self::Normal),
            0x02 => Some(Self::Initial),
            0x03 => Some(Self::Accepting),
            0x04 => Some(Self::Rejecting),
            0x05 => Some(Self::Halting),
            _ => None,
        }
    }
}

/// Every state kind is found again from its code.
pub proof fn lemma_state_type_code(t: StateType)
    ensures
        state_type_with_code(t.code()) == Some(t),
{
}

#[derive(Debug, Clone, Copy)]
pub struct StateRecord {
    pub index: u32,
    pub state_type: StateType,
    pub num_outgoing: u32,
    pub outgoing_offset: u32,
}

impl StateRecord {
    /// The 16 bytes that `encode` writes.
    pub open spec fn bytes(self) -> Seq<u8> {
        be32(self.index) + be32(self.state_type.code()) + be32(self.num_outgoing) + be32(
            self.outgoing_offset,
        )
    }

    /// The record that the 16 bytes `b` hold; `None` when the state kind code is unknown.
    pub open spec fn from_bytes(b: Seq<u8>) -> Option<StateRecord> {
        match state_type_with_code(be32_at(b, 4)) {
            Some(t) => Some(
                StateRecord {
                    index: be32_at(b, 0),
                    state_type: t,
                    num_outgoing: be32_at(b, 8),
                    outgoing_offset: be32_at(b, 12),
                },
            ),
            None => None,
        }
    }

    pub fn encode(&self) -> (r: [u8; 16])
        ensures
            r@ == self.bytes(),
    {
        let a = to_be32(self.index);
        let b = to_be32(self.state_type.as_u32());
        let c = to_be32(self.num_outgoing);
        let d = to_be32(self.outgoing_offset);
        let r: [u8; 16] = [
            a[0], a[1], a[2], a[3],
            b[0], b[1], b[2], b[3],
            c[0], c[1], c[2], c[3],
            d[0], d[1], d[2], d[3],
        ];
        assert(r@ =~= self.bytes());
        r
    }

    pub fn decode(buf: &[u8; 16]) -> (r: Option<Self>)
        ensures
            r == Self::from_bytes(buf@),
    {
        let st = match StateType::from_u32(from_be32(buf[4], buf[5], buf[6], buf[7])) {
            Some(t) => t,
            None => {
                return None;
            },
        };
        Some(
            StateRecord {
                index: from_be32(buf[0], buf[1], buf[2], buf[3]),
                state_type: st,
                num_outgoing: from_be32(buf[8], buf[9], buf[10], buf[11]),
                outgoing_offset: from_be32(buf[12], buf[13], buf[14], buf[15]),
            },
        )
    }
}

/// Decoding an encoded state record gives it back.
pub proof fn lemma_state_record_encode_decode(s: StateRecord)
    ensures
        StateRecord::from_bytes(s.bytes()) == Some(s),
{
    let b = s.bytes();
    assert(b.subrange(0, 4) =~= be32(s.index));
    assert(b.subrange(4, 8) =~= be32(s.state_type.code()));
    assert(b.subrange(8, 12) =~= be32(s.num_outgoing));
    assert(b.subrange(12, 16) =~= be32(s.outgoing_offset));
    crate::be_bytes::lemma_be32_at(b, 0, s.index);
    crate::be_bytes::lemma_be32_at(b, 4, s.state_type.code());
    crate::be_bytes::lemma_be32_at(b, 8, s.num_outgoing);
    crate::be_bytes::lemma_be32_at(b, 12, s.outgoing_offset);
}

/// Re-encoding a state record that decoding accepted gives back the 16 bytes.
pub proof fn lemma_state_record_decode_encode(b: Seq<u8>)
    requires
        b.len() == 16,
        StateRecord::from_bytes(b) is Some,
    ensures
        StateRecord::from_bytes(b)->Some_0.bytes() == b,
{
    crate::be_bytes::lemma_be32_at_bytes(b, 0);
    crate::be_bytes::lemma_be32_at_bytes(b, 4);
    crate::be_bytes::lemma_be32_at_bytes(b, 8);
    crate::be_bytes::lemma_be32_at_bytes(b, 12);
    assert(StateRecord::from_bytes(b)->Some_0.bytes() =~= b);
}

#[derive(Debug, Clone, Copy)]
pub struct TransitionRecord {
    pub id: u32,
    pub source_state: u32,
    pub target_state: u32,
    pub read_input: u8,
    pub read_work: u8,
    pub read_control: u8,
    pub read_output: u8,
    pub write_input: u8,
    pub write_work: u8,
    pub write_control: u8,
    pub write_output: u8,
    pub move_input: u8,
    pub move_work: u8,
    pub move_control: u8,
    pub move_output: u8,
}

/// `n` zero bytes.
pub open spec fn zeros(n: nat) -> Seq<u8> {
    Seq::new(n, |i: int| 0u8)
}

impl TransitionRecord {
    /// The 48 bytes that `encode` writes: three big-endian words, twelve symbol and move
    /// bytes, then 24 zero bytes of padding.
    pub open spec fn bytes(self) -> Seq<u8> {
        be32(self.id) + be32(self.source_state) + be32(self.target_state) + seq![
            self.read_input,
            self.read_work,
            self.read_control,
            self.read_output,
            self.write_input,
            self.write_work,
            self.write_control,
            self.write_output,
            self.move_input,
            self.move_work,
            self.move_control,
            self.move_output,
        ] + zeros(24)
    }

    /// The record that the 48 bytes `b` hold; the padding is not read.
    pub open spec fn from_bytes(b: Seq<u8>) -> TransitionRecord {
        TransitionRecord {
            id: be32_at(b, 0),
            source_state: be32_at(b, 4),
            target_state: be32_at(b, 8),
            read_input: b[12],
            read_work: b[13],
            read_control: b[14],
            read_output: b[15],
            write_input: b[16],
            write_work: b[17],
            write_control: b[18],
            write_output: b[19],
            move_input: b[20],
            move_work: b[21],
            move_control: b[22],
            move_output: b[23],
        }
    }

    /// The state and the four symbols under the heads that a transition applies to.
    pub open spec fn key(self) -> (u32, u8, u8, u8, u8) {
        (self.source_state, self.read_input, self.read_work, self.read_control, self.read_output)
    }

    pub fn encode(&self) -> (r: [u8; 48])
        ensures
            r@ == self.bytes(),
    {
        let a = to_be32(self.id);
        let b = to_be32(self.source_state);
        let c = to_be32(self.target_state);
        let r: [u8; 48] = [
            a[0], a[1], a[2], a[3],
            b[0], b[1], b[2], b[3],
            c[0], c[1], c[2], c[3],
            self.read_input,
            self.read_work,
            self.read_control,
            self.read_output,
            self.write_input,
            self.write_work,
            self.write_control,
            self.write_output,
            self.move_input,
            self.move_work,
            self.move_control,
            self.move_output,
            0, 0, 0, 0, 0, 0, 0, 0, 0, 0, 0, 0,
            0, 0, 0, 0, 0, 0, 0, 0, 0, 0, 0, 0,
        ];
        assert(r@ =~= self.bytes());
        r
    }

    pub fn decode(buf: &[u8; 48]) -> (r: Self)
        ensures
            r == Self::from_bytes(buf@),
    {
        TransitionRecord {
            id: from_be32(buf[0], buf[1], buf[2], buf[3]),
            source_state: from_be32(buf[4], buf[5], buf[6], buf[7]),
            target_state: from_be32(buf[8], buf[9], buf[10], buf[11]),
            read_input: buf[12],
            read_work: buf[13],
            read_control: buf[14],
            read_output: buf[15],
            write_input: buf[16],
            write_work: buf[17],
            write_control: buf[18],
            write_output: buf[19],
            move_input: buf[20],
            move_work: buf[21],
            move_control: buf[22],
            move_output: buf[23],
        }
    }

    /// Neither the input head nor the output head moves left (move code 0x00).
    pub fn is_valid(&self) -> (r: bool)
        ensures
            r == (self.move_input != 0x00 && self.move_output != 0x00),
    {
        if self.move_input == 0x00 {
            return false;
        }
        if self.move_output == 0x00 {
            return false;
        }
        true
    }
}

/// Decoding an encoded transition record gives it back.
pub proof fn lemma_transition_record_encode_decode(t: TransitionRecord)
    ensures
        TransitionRecord::from_bytes(t.bytes()) == t,
{
    let b = t.bytes();
    assert(b.subrange(0, 4) =~= be32(t.id));
    assert(b.subrange(4, 8) =~= be32(t.source_state));
    assert(b.subrange(8, 12) =~= be32(t.target_state));
    crate::be_bytes::lemma_be32_at(b, 0, t.id);
    crate::be_bytes::lemma_be32_at(b, 4, t.source_state);
    crate::be_bytes::lemma_be32_at(b, 8, t.target_state);
}

/// Re-encoding a decoded transition record gives back the 48 bytes when the padding was zero.
pub proof fn lemma_transition_record_decode_encode(b: Seq<u8>)
    requires
        b.len() == 48,
        b.subrange(24, 48) == zeros(24),
    ensures
        TransitionRecord::from_bytes(b).bytes() == b,
{
    crate::be_bytes::lemma_be32_at_bytes(b, 0);
    crate::be_bytes::lemma_be32_at_bytes(b, 4);
    crate::be_bytes::lemma_be32_at_bytes(b, 8);
    assert forall|i: int| 24 <= i < 48 implies b[i] == 0 by {
        assert(b.subrange(24, 48)[i - 24] == b[i]);
    }
    assert(TransitionRecord::from_bytes(b).bytes() =~= b);
}


/// The bytes of a run of state records.
pub open spec fn states_bytes(s: Seq<StateRecord>) -> Seq<u8>
    decreases s.len(),
{
    if s.len() == 0 {
        Seq::empty()
    } else {
        s[0].bytes() + states_bytes(s.drop_first())
    }
}

/// The bytes of a run of transition records.
pub open spec fn transitions_bytes(s: Seq<TransitionRecord>) -> Seq<u8>
    decreases s.len(),
{
    if s.len() == 0 {
        Seq::empty()
    } else {
        s[0].bytes() + transitions_bytes(s.drop_first())
    }
}

/// The payload length of a table with `ns` states and `nt` transitions.
pub open spec fn table_payload_len(ns: nat, nt: nat) -> nat {
    48 + 16 * ns + 48 * nt
}

/// The bytes that `TransitionTable::encode` writes.
#[verifier::opaque]
pub open spec fn table_bytes(
    meta: TMTTMetadata,
    states: Seq<StateRecord>,
    transitions: Seq<TransitionRecord>,
) -> Seq<u8> {
    new_header(Magic::TMTT, table_payload_len(states.len(), transitions.len()) as u32).bytes()
        + meta.bytes() + states_bytes(states) + transitions_bytes(transitions)
}

/// What decoding `count` state records from offset `offset` of `b` gives.
pub open spec fn decode_states(b: Seq<u8>, offset: int, count: nat) -> Result<
    Seq<StateRecord>,
    Seq<char>,
>
    decreases count,
{
    if count == 0 {
        Ok(Seq::empty())
    } else if offset + 16 > b.len() {
        Err("buffer too short for state records"@)
    } else {
        match StateRecord::from_bytes(b.subrange(offset, offset + 16)) {
            None => Err("invalid state type"@),
            Some(s) => match decode_states(b, offset + 16, (count - 1) as nat) {
                Ok(rest) => Ok(seq![s] + rest),
                Err(e) => Err(e),
            },
        }
    }
}

/// What decoding `count` transition records from offset `offset` of `b` gives.
pub open spec fn decode_transitions(b: Seq<u8>, offset: int, count: nat) -> Result<
    Seq<TransitionRecord>,
    Seq<char>,
>
    decreases count,
{
    if count == 0 {
        Ok(Seq::empty())
    } else if offset + 48 > b.len() {
        Err("buffer too short for transition records"@)
    } else {
        match decode_transitions(b, offset + 48, (count - 1) as nat) {
            Ok(rest) => Ok(seq![TransitionRecord::from_bytes(b.subrange(offset, offset + 48))] + rest),
            Err(e) => Err(e),
        }
    }
}

/// A decoded table: its header, metadata, state records and transition records.
pub type TableParts = (FileHeader, TMTTMetadata, Seq<StateRecord>, Seq<TransitionRecord>);

/// What `TransitionTable::decode` makes of `b`: the table, or the text of the error.
#[verifier::opaque]
pub open spec fn decode_table(b: Seq<u8>) -> Result<TableParts, Seq<char>> {
    if b.len() < 16 {
        Err("buffer too short for header"@)
    } else {
        match decode_header(b.subrange(0, 16)) {
            Err(e) => Err(e.message()),
            Ok(h) => if b.len() < 64 {
                Err("buffer too short for metadata"@)
            } else {
                let m = TMTTMetadata::from_bytes(b.subrange(16, 64));
                match decode_states(b, 64, m.num_states as nat) {
                    Err(e) => Err(e),
                    Ok(ss) => match decode_transitions(
                        b,
                        64 + 16 * m.num_states,
                        m.num_transitions as nat,
                    ) {
                        Err(e) => Err(e),
                        Ok(ts) => Ok((h, m, ss, ts)),
                    },
                }
            },
        }
    }
}

/// The first transition from offset `i` on that applies to `key`.
pub open spec fn first_match_from(ts: Seq<TransitionRecord>, i: int, key: (u32, u8, u8, u8, u8)) -> Option<
    TransitionRecord,
>
    decreases ts.len() - i,
{
    if i < 0 || i >= ts.len() {
        None
    } else if ts[i].key() == key {
        Some(ts[i])
    } else {
        first_match_from(ts, i + 1, key)
    }
}

/// The first transition of `ts` that applies to `key`.
pub open spec fn first_match(ts: Seq<TransitionRecord>, key: (u32, u8, u8, u8, u8)) -> Option<
    TransitionRecord,
> {
    first_match_from(ts, 0, key)
}

/// The transition that the machine takes for a state and the symbols under its heads is the
/// earliest of the table that reads exactly them, and there is none when no transition of
/// the table reads them.
pub proof fn lemma_first_match_is_earliest_applying(ts: Seq<TransitionRecord>, key: (u32, u8, u8, u8, u8))
    ensures
        first_match(ts, key) matches Some(t) ==> exists|i: int|
            0 <= i < ts.len() && #[trigger] ts[i] == t && t.source_state == key.0 && t.read_input
                == key.1 && t.read_work == key.2 && t.read_control == key.3 && t.read_output
                == key.4 && forall|j: int| 0 <= j < i ==> #[trigger] ts[j].key() != key,
        first_match(ts, key) is None <==> forall|i: int| 0 <= i < ts.len() ==> #[trigger] ts[i].key() != key,
{
    lemma_first_match_from(ts, 0, key);
}

proof fn lemma_first_match_from(ts: Seq<TransitionRecord>, k: int, key: (u32, u8, u8, u8, u8))
    requires
        0 <= k,
    ensures
        first_match_from(ts, k, key) matches Some(t) ==> exists|i: int|
            k <= i < ts.len() && #[trigger] ts[i] == t && t.key() == key && forall|j: int|
                k <= j < i ==> #[trigger] ts[j].key() != key,
        first_match_from(ts, k, key) is None <==> forall|i: int| k <= i < ts.len() ==> #[trigger] ts[i].key() != key,
    decreases ts.len() - k,
{
    if k < ts.len() {
        lemma_first_match_from(ts, k + 1, key);
        if ts[k].key() != key {
            if let Some(t) = first_match_from(ts, k + 1, key) {
                let i = choose|i: int|
                    k + 1 <= i < ts.len() && #[trigger] ts[i] == t && t.key() == key && forall|j: int|
                        k + 1 <= j < i ==> #[trigger] ts[j].key() != key;
                assert(k <= i < ts.len() && ts[i] == t && t.key() == key && forall|j: int|
                    k <= j < i ==> #[trigger] ts[j].key() != key);
            }
        }
    }
}

/// No two transitions apply to the same state and symbols.
pub open spec fn keys_distinct(ts: Seq<TransitionRecord>) -> bool {
    forall|i: int, j: int| 0 <= i < j < ts.len() ==> ts[i].key() != ts[j].key()
}

#[derive(Debug, Clone)]
pub struct TransitionTable {
    pub header: FileHeader,
    pub metadata: TMTTMetadata,
    pub states: Vec<StateRecord>,
    pub transitions: Vec<TransitionRecord>,
}

impl TransitionTable {
    /// An empty table with the given metadata, under a header for the metadata alone.
    pub fn new(metadata: TMTTMetadata) -> (r: Self)
        ensures
            r.header == new_header(Magic::TMTT, 48),
            r.metadata == metadata,
            r.states@ == Seq::<StateRecord>::empty(),
            r.transitions@ == Seq::<TransitionRecord>::empty(),
    {
        let payload_len: usize = 48 + 0 + 0;
        let header = FileHeader::new(Magic::TMTT, payload_len as u32);
        TransitionTable { header, metadata, states: Vec::new(), transitions: Vec::new() }
    }

    /// Appends a state record with no outgoing transitions and sets the state count.
    pub fn add_state(&mut self, index: u32, state_type: StateType)
        ensures
            final(self).states@ == old(self).states@.push(
                StateRecord { index, state_type, num_outgoing: 0, outgoing_offset: 0 },
            ),
            final(self).metadata == (TMTTMetadata {
                num_states: final(self).states@.len() as u32,
                ..old(self).metadata
            }),
            final(self).transitions@ == old(self).transitions@,
            final(self).header == old(self).header,
    {
        self.states.push(StateRecord { index, state_type, num_outgoing: 0, outgoing_offset: 0 });
        self.metadata.num_states = self.states.len() as u32;
    }

    /// Appends a transition record and sets the transition count.
    pub fn add_transition(&mut self, t: TransitionRecord)
        ensures
            final(self).transitions@ == old(self).transitions@.push(t),
            final(self).metadata == (TMTTMetadata {
                num_transitions: final(self).transitions@.len() as u32,
                ..old(self).metadata
            }),
            final(self).states@ == old(self).states@,
            final(self).header == old(self).header,
    {
        self.transitions.push(t);
        self.metadata.num_transitions = self.transitions.len() as u32;
    }

    /// The file bytes: a fresh header for the payload, the metadata, every state record
    /// and every transition record.
    pub fn encode(&self) -> (r: Vec<u8>)
        requires
            16 + table_payload_len(self.states@.len(), self.transitions@.len()) <= usize::MAX,
        ensures
            r@ == table_bytes(self.metadata, self.states@, self.transitions@),
    {
        let states_bytes_len = self.states.len() * 16;
        let trans_bytes_len = self.transitions.len() * 48;
        let payload_len = 48 + states_bytes_len + trans_bytes_len;
        let header = FileHeader::new(Magic::TMTT, payload_len as u32);
        let mut buf: Vec<u8> = Vec::with_capacity(16 + payload_len);
        let hb = header.encode();
        extend_bytes(&mut buf, hb.as_slice());
        let mb = self.metadata.encode();
        extend_bytes(&mut buf, mb.as_slice());
        let ghost prefix = buf@;
        let mut i: usize = 0;
        while i < self.states.len()
            invariant
                i <= self.states@.len(),
                buf@ == prefix + states_bytes(self.states@.take(i as int)),
            decreases self.states.len() - i,
        {
            let sb = self.states[i].encode();
            extend_bytes(&mut buf, sb.as_slice());
            proof {
                lemma_states_bytes_push(self.states@.take(i as int), self.states@[i as int]);
                assert(self.states@.take(i as int).push(self.states@[i as int]) =~= self.states@.take(
                    i + 1,
                ));
            }
            i = i + 1;
        }
        assert(self.states@.take(self.states@.len() as int) =~= self.states@);
        let ghost prefix2 = buf@;
        let mut j: usize = 0;
        while j < self.transitions.len()
            invariant
                j <= self.transitions@.len(),
                buf@ == prefix2 + transitions_bytes(self.transitions@.take(j as int)),
            decreases self.transitions.len() - j,
        {
            let tb = self.transitions[j].encode();
            extend_bytes(&mut buf, tb.as_slice());
            proof {
                lemma_transitions_bytes_push(
                    self.transitions@.take(j as int),
                    self.transitions@[j as int],
                );
                assert(self.transitions@.take(j as int).push(self.transitions@[j as int])
                    =~= self.transitions@.take(j + 1));
            }
            j = j + 1;
        }
        assert(self.transitions@.take(self.transitions@.len() as int) =~= self.transitions@);
        proof {
            reveal(table_bytes);
        }
        buf
    }

    /// Reads a table from file bytes; the error names what is missing or wrong.
    pub fn decode(buf: &[u8]) -> (r: Result<Self, String>)
        ensures
            match r {
                Ok(t) => decode_table(buf@) == Ok::<TableParts, Seq<char>>(
                    (t.header, t.metadata, t.states@, t.transitions@),
                ),
                Err(e) => decode_table(buf@) == Err::<TableParts, Seq<char>>(e@),
            },
    {
        proof {
            reveal(decode_table);
        }
        if buf.len() < 16 {
            return Err(String::from_str("buffer too short for header"));
        }
        let hdr = copy16(buf, 0);
        let header = match FileHeader::decode(&hdr) {
            Ok(h) => h,
            Err(e) => {
                return Err(e.to_string());
            },
        };
        if buf.len() < 16 + 48 {
            return Err(String::from_str("buffer too short for metadata"));
        }
        let meta_buf = copy48(buf, 16);
        let metadata = TMTTMetadata::decode(&meta_buf);
        let states = match decode_state_records(buf, metadata.num_states) {
            Ok(v) => v,
            Err(e) => {
                return Err(e);
            },
        };
        let offset: usize = 64 + 16 * (metadata.num_states as usize);
        let transitions = match decode_transition_records(buf, offset, metadata.num_transitions) {
            Ok(v) => v,
            Err(e) => {
                return Err(e);
            },
        };
        Ok(TransitionTable { header, metadata, states, transitions })
    }

    /// The first transition from `state` that reads the four given symbols.
    pub fn find_transition(&self, state: u32, r_in: u8, r_work: u8, r_ctrl: u8, r_out: u8) -> (r:
        Option<&TransitionRecord>)
        ensures
            r matches Some(t) ==> first_match(
                self.transitions@,
                (state, r_in, r_work, r_ctrl, r_out),
            ) == Some(*t),
            r is None ==> first_match(self.transitions@, (state, r_in, r_work, r_ctrl, r_out)) is None,
            r is None <==> forall|i: int|
                0 <= i < self.transitions@.len() ==> self.transitions@[i].key() != (
                    state,
                    r_in,
                    r_work,
                    r_ctrl,
                    r_out,
                ),
    {
        let ghost key = (state, r_in, r_work, r_ctrl, r_out);
        let mut i: usize = 0;
        while i < self.transitions.len()
            invariant
                key == (state, r_in, r_work, r_ctrl, r_out),
                i <= self.transitions@.len(),
                first_match(self.transitions@, key) == first_match_from(
                    self.transitions@,
                    i as int,
                    key,
                ),
                forall|j: int| 0 <= j < i ==> self.transitions@[j].key() != key,
            decreases self.transitions.len() - i,
        {
            let t = &self.transitions[i];
            assert(*t == self.transitions@[i as int]);
            if t.source_state == state && t.read_input == r_in && t.read_work == r_work
                && t.read_control == r_ctrl && t.read_output == r_out {
                assert(self.transitions@[i as int].key() == key);
                return Some(t);
            }
            assert(self.transitions@[i as int].key() != key);
            i = i + 1;
        }
        None
    }

    /// Whether no two transitions apply to the same state and symbols.
    pub fn is_deterministic(&self) -> (r: bool)
        ensures
            r == keys_distinct(self.transitions@),
    {
        let n = self.transitions.len();
        let mut i: usize = 0;
        while i < n
            invariant
                n == self.transitions@.len(),
                i <= n,
                forall|a: int, b: int|
                    0 <= a < i && a < b < n ==> self.transitions@[a].key()
                        != self.transitions@[b].key(),
            decreases n - i,
        {
            let mut j: usize = i + 1;
            while j < n
                invariant
                    n == self.transitions@.len(),
                    i < n,
                    i < j <= n,
                    forall|a: int, b: int|
                        0 <= a < i && a < b < n ==> self.transitions@[a].key()
                            != self.transitions@[b].key(),
                    forall|b: int| i < b < j ==> self.transitions@[i as int].key() != self.transitions@[b].key(),
                decreases n - j,
            {
                let x = &self.transitions[i];
                let y = &self.transitions[j];
                if x.source_state == y.source_state && x.read_input == y.read_input && x.read_work
                    == y.read_work && x.read_control == y.read_control && x.read_output
                    == y.read_output {
                    return false;
                }
                j = j + 1;
            }
            i = i + 1;
        }
        true
    }
}

/// The 16 bytes of `buf` from `offset` on.
fn copy16(buf: &[u8], offset: usize) -> (r: [u8; 16])
    requires
        offset + 16 <= buf@.len(),
    ensures
        r@ == buf@.subrange(offset as int, offset + 16),
{
    let r: [u8; 16] = [
            buf[offset + 0], buf[offset + 1], buf[offset + 2], buf[offset + 3], buf[offset + 4], buf[offset + 5], buf[offset + 6], buf[offset + 7],
            buf[offset + 8], buf[offset + 9], buf[offset + 10], buf[offset + 11], buf[offset + 12], buf[offset + 13], buf[offset + 14], buf[offset + 15]
    ];
    assert(r@ =~= buf@.subrange(offset as int, offset + 16));
    r
}

/// The 48 bytes of `buf` from `offset` on.
fn copy48(buf: &[u8], offset: usize) -> (r: [u8; 48])
    requires
        offset + 48 <= buf@.len(),
    ensures
        r@ == buf@.subrange(offset as int, offset + 48),
{
    let r: [u8; 48] = [
            buf[offset + 0], buf[offset + 1], buf[offset + 2], buf[offset + 3], buf[offset + 4], buf[offset + 5], buf[offset + 6], buf[offset + 7],
            buf[offset + 8], buf[offset + 9], buf[offset + 10], buf[offset + 11], buf[offset + 12], buf[offset + 13], buf[offset + 14], buf[offset + 15],
            buf[offset + 16], buf[offset + 17], buf[offset + 18], buf[offset + 19], buf[offset + 20], buf[offset + 21], buf[offset + 22], buf[offset + 23],
            buf[offset + 24], buf[offset + 25], buf[offset + 26], buf[offset + 27], buf[offset + 28], buf[offset + 29], buf[offset + 30], buf[offset + 31],
            buf[offset + 32], buf[offset + 33], buf[offset + 34], buf[offset + 35], buf[offset + 36], buf[offset + 37], buf[offset + 38], buf[offset + 39],
            buf[offset + 40], buf[offset + 41], buf[offset + 42], buf[offset + 43], buf[offset + 44], buf[offset + 45], buf[offset + 46], buf[offset + 47]
    ];
    assert(r@ =~= buf@.subrange(offset as int, offset + 48));
    r
}

/// Decodes `count` state records that start right after the metadata.
fn decode_state_records(buf: &[u8], count: u32) -> (r: Result<Vec<StateRecord>, String>)
    requires
        64 <= buf@.len(),
    ensures
        match r {
            Ok(v) => decode_states(buf@, 64, count as nat) == Ok::<Seq<StateRecord>, Seq<char>>(v@),
            Err(e) => decode_states(buf@, 64, count as nat) == Err::<Seq<StateRecord>, Seq<char>>(e@),
        },
        r is Ok ==> 64 + 16 * count <= buf@.len(),
{
    let mut states: Vec<StateRecord> = Vec::new();
    let mut offset: usize = 64;
    let mut i: u32 = 0;
    while i < count
        invariant
            i <= count,
            offset == 64 + 16 * i,
            offset <= buf@.len(),
            decode_states(buf@, 64, count as nat) == match decode_states(
                buf@,
                offset as int,
                (count - i) as nat,
            ) {
                Ok(rest) => Ok(states@ + rest),
                Err(e) => Err(e),
            },
        decreases count - i,
    {
        if buf.len() - offset < 16 {
            assert(decode_states(buf@, offset as int, (count - i) as nat) == Err::<
                Seq<StateRecord>,
                Seq<char>,
            >("buffer too short for state records"@));
            return Err(String::from_str("buffer too short for state records"));
        }
        let sbuf = copy16(buf, offset);
        let s = match StateRecord::decode(&sbuf) {
            Some(s) => s,
            None => {
                assert(decode_states(buf@, offset as int, (count - i) as nat) == Err::<
                    Seq<StateRecord>,
                    Seq<char>,
                >("invalid state type"@));
                return Err(String::from_str("invalid state type"));
            },
        };
        proof {
            let tail = decode_states(buf@, offset + 16, (count - i - 1) as nat);
            if let Ok(rest) = tail {
                assert(states@.push(s) + rest =~= states@ + (seq![s] + rest));
            }
        }
        states.push(s);
        offset = offset + 16;
        i = i + 1;
    }
    assert(states@ + Seq::<StateRecord>::empty() =~= states@);
    Ok(states)
}

/// Decodes `count` transition records that start at `offset`.
fn decode_transition_records(buf: &[u8], offset: usize, count: u32) -> (r: Result<
    Vec<TransitionRecord>,
    String,
>)
    requires
        offset <= buf@.len(),
    ensures
        match r {
            Ok(v) => decode_transitions(buf@, offset as int, count as nat) == Ok::<
                Seq<TransitionRecord>,
                Seq<char>,
            >(v@),
            Err(e) => decode_transitions(buf@, offset as int, count as nat) == Err::<
                Seq<TransitionRecord>,
                Seq<char>,
            >(e@),
        },
{
    let mut transitions: Vec<TransitionRecord> = Vec::new();
    let mut pos: usize = offset;
    let mut k: u32 = 0;
    while k < count
        invariant
            k <= count,
            pos == offset + 48 * k,
            pos <= buf@.len(),
            decode_transitions(buf@, offset as int, count as nat) == match decode_transitions(
                buf@,
                pos as int,
                (count - k) as nat,
            ) {
                Ok(rest) => Ok(transitions@ + rest),
                Err(e) => Err(e),
            },
        decreases count - k,
    {
        if buf.len() - pos < 48 {
            assert(decode_transitions(buf@, pos as int, (count - k) as nat) == Err::<
                Seq<TransitionRecord>,
                Seq<char>,
            >("buffer too short for transition records"@));
            return Err(String::from_str("buffer too short for transition records"));
        }
        let tbuf = copy48(buf, pos);
        let t = TransitionRecord::decode(&tbuf);
        proof {
            let tail = decode_transitions(buf@, pos + 48, (count - k - 1) as nat);
            if let Ok(rest) = tail {
                assert(transitions@.push(t) + rest =~= transitions@ + (seq![t] + rest));
            }
        }
        transitions.push(t);
        pos = pos + 48;
        k = k + 1;
    }
    assert(transitions@ + Seq::<TransitionRecord>::empty() =~= transitions@);
    Ok(transitions)
}

/// Appending a record appends its bytes.
pub proof fn lemma_states_bytes_push(s: Seq<StateRecord>, x: StateRecord)
    ensures
        states_bytes(s.push(x)) == states_bytes(s) + x.bytes(),
    decreases s.len(),
{
    if s.len() == 0 {
        let e = s.push(x).drop_first();
        assert(e =~= Seq::<StateRecord>::empty());
        assert(states_bytes(e) == Seq::<u8>::empty());
        assert(states_bytes(s.push(x)) =~= x.bytes());
    } else {
        lemma_states_bytes_push(s.drop_first(), x);
        assert(s.push(x).drop_first() =~= s.drop_first().push(x));
        assert(states_bytes(s.push(x)) =~= states_bytes(s) + x.bytes());
    }
}

/// Appending a record appends its bytes.
pub proof fn lemma_transitions_bytes_push(s: Seq<TransitionRecord>, x: TransitionRecord)
    ensures
        transitions_bytes(s.push(x)) == transitions_bytes(s) + x.bytes(),
    decreases s.len(),
{
    if s.len() == 0 {
        let e = s.push(x).drop_first();
        assert(e =~= Seq::<TransitionRecord>::empty());
        assert(transitions_bytes(e) == Seq::<u8>::empty());
        assert(transitions_bytes(s.push(x)) =~= x.bytes());
    } else {
        lemma_transitions_bytes_push(s.drop_first(), x);
        assert(s.push(x).drop_first() =~= s.drop_first().push(x));
        assert(transitions_bytes(s.push(x)) =~= transitions_bytes(s) + x.bytes());
    }
}


/// The bytes of `n` state records are `16 * n` long.
pub proof fn lemma_states_bytes_len(s: Seq<StateRecord>)
    ensures
        states_bytes(s).len() == 16 * s.len(),
    decreases s.len(),
{
    if s.len() > 0 {
        lemma_states_bytes_len(s.drop_first());
    }
}

/// The bytes of `n` transition records are `48 * n` long.
pub proof fn lemma_transitions_bytes_len(s: Seq<TransitionRecord>)
    ensures
        transitions_bytes(s).len() == 48 * s.len(),
    decreases s.len(),
{
    if s.len() > 0 {
        lemma_transitions_bytes_len(s.drop_first());
    }
}

/// Decoding encoded state records gives them back.
pub proof fn lemma_decode_states_bytes(b: Seq<u8>, offset: int, ss: Seq<StateRecord>)
    requires
        0 <= offset,
        offset + 16 * ss.len() <= b.len(),
        b.subrange(offset, offset + 16 * ss.len()) == states_bytes(ss),
    ensures
        decode_states(b, offset, ss.len()) == Ok::<Seq<StateRecord>, Seq<char>>(ss),
    decreases ss.len(),
{
    if ss.len() > 0 {
        let whole = b.subrange(offset, offset + 16 * ss.len());
        lemma_states_bytes_len(ss.drop_first());
        assert(b.subrange(offset, offset + 16) =~= whole.subrange(0, 16));
        assert(whole.subrange(0, 16) =~= ss[0].bytes());
        lemma_state_record_encode_decode(ss[0]);
        assert(b.subrange(offset + 16, offset + 16 + 16 * ss.drop_first().len()) =~= whole.subrange(
            16,
            (16 * ss.len()) as int,
        ));
        assert(whole.subrange(16, (16 * ss.len()) as int) =~= states_bytes(ss.drop_first()));
        lemma_decode_states_bytes(b, offset + 16, ss.drop_first());
        assert(seq![ss[0]] + ss.drop_first() =~= ss);
        assert((ss.len() - 1) as nat == ss.drop_first().len());
    } else {
        assert(ss =~= Seq::<StateRecord>::empty());
    }
}

/// Decoding encoded transition records gives them back.
pub proof fn lemma_decode_transitions_bytes(b: Seq<u8>, offset: int, ts: Seq<TransitionRecord>)
    requires
        0 <= offset,
        offset + 48 * ts.len() <= b.len(),
        b.subrange(offset, offset + 48 * ts.len()) == transitions_bytes(ts),
    ensures
        decode_transitions(b, offset, ts.len()) == Ok::<Seq<TransitionRecord>, Seq<char>>(ts),
    decreases ts.len(),
{
    if ts.len() > 0 {
        let whole = b.subrange(offset, offset + 48 * ts.len());
        lemma_transitions_bytes_len(ts.drop_first());
        assert(b.subrange(offset, offset + 48) =~= whole.subrange(0, 48));
        assert(whole.subrange(0, 48) =~= ts[0].bytes());
        lemma_transition_record_encode_decode(ts[0]);
        assert(b.subrange(offset + 48, offset + 48 + 48 * ts.drop_first().len()) =~= whole.subrange(
            48,
            (48 * ts.len()) as int,
        ));
        assert(whole.subrange(48, (48 * ts.len()) as int) =~= transitions_bytes(ts.drop_first()));
        lemma_decode_transitions_bytes(b, offset + 48, ts.drop_first());
        assert(seq![ts[0]] + ts.drop_first() =~= ts);
        assert((ts.len() - 1) as nat == ts.drop_first().len());
    } else {
        assert(ts =~= Seq::<TransitionRecord>::empty());
    }
}

/// The four parts of a concatenation are found again by their offsets.
proof fn lemma_four_parts(a: Seq<u8>, b: Seq<u8>, c: Seq<u8>, d: Seq<u8>)
    ensures
        ({
            let (x, y, z, w) = (a.len() as int, b.len() as int, c.len() as int, d.len() as int);
            let s = a + b + c + d;
            &&& s.subrange(0, x) == a
            &&& s.subrange(x, x + y) == b
            &&& s.subrange(x + y, x + y + z) == c
            &&& s.subrange(x + y + z, x + y + z + w) == d
        }),
{
    let (x, y, z, w) = (a.len() as int, b.len() as int, c.len() as int, d.len() as int);
    let s = a + b + c + d;
    assert(s.subrange(0, x) =~= a);
    assert(s.subrange(x, x + y) =~= b);
    assert(s.subrange(x + y, x + y + z) =~= c);
    assert(s.subrange(x + y + z, x + y + z + w) =~= d);
}

/// `decode_table` assembles what its parts decode to.
proof fn lemma_decode_table_parts(
    b: Seq<u8>,
    h: FileHeader,
    meta: TMTTMetadata,
    ss: Seq<StateRecord>,
    ts: Seq<TransitionRecord>,
)
    requires
        b.len() >= 64,
        decode_header(b.subrange(0, 16)) == Ok::<FileHeader, crate::header::HeaderError>(h),
        TMTTMetadata::from_bytes(b.subrange(16, 64)) == meta,
        decode_states(b, 64, meta.num_states as nat) == Ok::<Seq<StateRecord>, Seq<char>>(ss),
        decode_transitions(b, 64 + 16 * meta.num_states, meta.num_transitions as nat) == Ok::<
            Seq<TransitionRecord>,
            Seq<char>,
        >(ts),
    ensures
        decode_table(b) == Ok::<TableParts, Seq<char>>((h, meta, ss, ts)),
{
    reveal(decode_table);
}

/// Decoding an encoded table gives back its metadata, states and transitions, under a fresh
/// header for the payload, provided the metadata counts the records it holds.
pub proof fn lemma_table_encode_decode(
    meta: TMTTMetadata,
    states: Seq<StateRecord>,
    transitions: Seq<TransitionRecord>,
)
    requires
        meta.num_states == states.len(),
        meta.num_transitions == transitions.len(),
    ensures
        decode_table(table_bytes(meta, states, transitions)) == Ok::<TableParts, Seq<char>>(
            (
                new_header(
                    Magic::TMTT,
                    table_payload_len(states.len(), transitions.len()) as u32,
                ),
                meta,
                states,
                transitions,
            ),
        ),
{
    let h = new_header(Magic::TMTT, table_payload_len(states.len(), transitions.len()) as u32);
    let hb = h.bytes();
    let mb = meta.bytes();
    let sb = states_bytes(states);
    let tb = transitions_bytes(transitions);
    let b = table_bytes(meta, states, transitions);
    let ns = states.len() as int;
    let nt = transitions.len() as int;
    assert(b == hb + mb + sb + tb) by {
        reveal(table_bytes);
    }
    assert(hb.len() == 16);
    assert(mb.len() == 48);
    lemma_states_bytes_len(states);
    lemma_transitions_bytes_len(transitions);
    lemma_four_parts(hb, mb, sb, tb);
    lemma_new_header_encode_decode(
        Magic::TMTT,
        table_payload_len(states.len(), transitions.len()) as u32,
    );
    lemma_metadata_encode_decode(meta);
    lemma_decode_states_bytes(b, 64, states);
    lemma_decode_transitions_bytes(b, 64 + 16 * ns, transitions);
    lemma_decode_table_parts(b, h, meta, states, transitions);
}

} // verus!
