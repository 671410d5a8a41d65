//! The finite control of the machine: state kinds, states and transitions.
use vstd::prelude::*;

verus! {

#[derive(Debug, Clone, Copy, PartialEq, Eq, Structural)]
pub enum StateType {
    Normal,
    Initial,
    Accepting,
    Rejecting,
    Halting,
}

impl StateType {
    /// The byte that stands for the state kind.
    pub open spec fn code(self) -> u8 {
        match self {
            StateType::Normal => 0x01,
            StateType::Initial => 0x02,
            StateType::Accepting => 0x03,
            StateType::Rejecting => 0x04,
            StateType::Halting => 0x05,
        }
    }

    /// The state kind with code `v`; `None` for a byte that is no code.
    pub fn from_u8(v: u8) -> (r: Option<Self>)
        ensures
            r matches Some(t) ==> t.code() == v,
            r is None <==> !(0x01 <= v <= 0x05),
    {
        match v {
            0x01 => Some(Self::Normal),
            0x02 => Some(Self::Initial),
            0x03 => Some(Self::Accepting),
            0x04 => Some(Self::Rejecting),
            0x05 => Some(Self::Halting),
            _ => None,
        }
    }

    /// Whether a machine in a state of this kind has stopped.
    pub open spec fn terminal(self) -> bool {
        self is Accepting || self is Rejecting || self is Halting
    }
}

#[derive(Debug, Clone)]
pub struct PTMState {
    pub index: u32,
    pub state_type: StateType,
    pub transitions: Vec<u32>,
}

impl PTMState {
    pub fn new(index: u32, state_type: StateType) -> (r: Self)
        ensures
            r.index == index,
            r.state_type == state_type,
            r.transitions@ == Seq::<u32>::empty(),
    {
        PTMState { index, state_type, transitions: Vec::new() }
    }

    /// Whether the state is accepting, rejecting or halting.
    pub fn is_terminal(&self) -> (r: bool)
        ensures
            r == self.state_type.terminal(),
    {
        match self.state_type {
            StateType::Accepting | StateType::Rejecting | StateType::Halting => true,
            _ => false,
        }
    }
}

#[derive(Debug, Clone)]
pub struct Transition {
    pub id: u32,
    pub source_state: u32,
    pub target_state: u32,
    pub read_input: u8,
    pub read_work: u8,
    pub read_control: u8,
    pub read_output: u8,
    pub write_input: u8,
    pub write_work: u8,
    pub write_control: u8,
    pub write_output: u8,
    pub move_input: u8,
    pub move_work: u8,
    pub move_control: u8,
    pub move_output: u8,
}

impl Transition {
    /// Neither the input head nor the output head moves left (move code 0x00).
    pub fn is_valid(&self) -> (r: bool)
        ensures
            r == (self.move_input != 0x00 && self.move_output != 0x00),
    {
        if self.move_input == 0x00 {
            return false;
        }
        if self.move_output == 0x00 {
            return false;
        }
        true
    }
}

} // verus!
