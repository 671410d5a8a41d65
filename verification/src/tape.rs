//! Tapes of the machine: one-way infinite sequences of cells that extend to the right,
//! blank beyond what has been stored.
use vstd::prelude::*;

verus! {

/// The code of the blank symbol.
pub const BLANK: u8 = 0x02;

#[derive(Debug, Clone, Copy, PartialEq, Eq, Structural)]
pub enum TapeAlphabet {
    Zero,
    One,
    Blank,
}

impl TapeAlphabet {
    /// The byte that stands for the symbol.
    pub open spec fn code(self) -> u8 {
        match self {
            TapeAlphabet::Zero => 0x00,
            TapeAlphabet::One => 0x01,
            TapeAlphabet::Blank => 0x02,
        }
    }

    /// The symbol with code `v`; `None` for a byte that is no code.
    pub fn from_u8(v: u8) -> (r: Option<Self>)
        ensures
            r matches Some(t) ==> t.code() == v,
            r is None <==> v > 0x02,
    {
        match v {
            0x00 => Some(Self::Zero),
            0x01 => Some(Self::One),
            0x02 => Some(Self::Blank),
            _ => None,
        }
    }
}

#[derive(Debug, Clone, Copy, PartialEq, Eq, Structural)]
pub enum WorkAlphabet {
    Zero,
    One,
    Blank,
    X,
    Y,
    Z,
}

impl WorkAlphabet {
    /// The byte that stands for the symbol.
    pub open spec fn code(self) -> u8 {
        match self {
            WorkAlphabet::Zero => 0x00,
            WorkAlphabet::One => 0x01,
            WorkAlphabet::Blank => 0x02,
            WorkAlphabet::X => 0x03,
            WorkAlphabet::Y => 0x04,
            WorkAlphabet::Z => 0x05,
        }
    }

    /// The symbol with code `v`; `None` for a byte that is no code.
    pub fn from_u8(v: u8) -> (r: Option<Self>)
        ensures
            r matches Some(t) ==> t.code() == v,
            r is None <==> v > 0x05,
    {
        match v {
            0x00 => Some(Self::Zero),
            0x01 => Some(Self::One),
            0x02 => Some(Self::Blank),
            0x03 => Some(Self::X),
            0x04 => Some(Self::Y),
            0x05 => Some(Self::Z),
            _ => None,
        }
    }
}

#[derive(Debug, Clone, Copy, PartialEq, Eq, Structural)]
pub enum HeadMove {
    Left,
    Right,
    Stay,
}

impl HeadMove {
    /// The byte that stands for the move.
    pub open spec fn code(self) -> u8 {
        match self {
            HeadMove::Left => 0x00,
            HeadMove::Right => 0x01,
            HeadMove::Stay => 0x02,
        }
    }

    /// The move with code `v`; `None` for a byte that is no code.
    pub fn from_u8(v: u8) -> (r: Option<Self>)
        ensures
            r matches Some(t) ==> t.code() == v,
            r is None <==> v > 0x02,
    {
        match v {
            0x00 => Some(Self::Left),
            0x01 => Some(Self::Right),
            0x02 => Some(Self::Stay),
            _ => None,
        }
    }
}

/// `n` blank cells.
pub open spec fn blanks(n: nat) -> Seq<u8> {
    Seq::new(n, |i: int| BLANK)
}

/// The symbol in cell `i` of a tape that stores `cells`: blank beyond them.
pub open spec fn symbol_at(cells: Seq<u8>, i: int) -> u8 {
    if 0 <= i < cells.len() {
        cells[i]
    } else {
        BLANK
    }
}

/// `cells`, extended with blanks so that cell `i` is stored.
pub open spec fn cells_reaching(cells: Seq<u8>, i: nat) -> Seq<u8> {
    if i < cells.len() {
        cells
    } else {
        cells + blanks((i + 1 - cells.len()) as nat)
    }
}

/// The head position after a move; a head at cell 0 does not move left.
pub open spec fn moved_head(head: nat, dir: HeadMove) -> nat {
    match dir {
        HeadMove::Left => if head > 0 {
            (head - 1) as nat
        } else {
            0
        },
        HeadMove::Right => head + 1,
        HeadMove::Stay => head,
    }
}

/// The cells stored for a tape loaded with `bits`: 1 for a nonzero bit, 0 for a zero bit,
/// then one blank.
pub open spec fn cells_from_bits(bits: Seq<u8>) -> Seq<u8> {
    bits.map_values(|b: u8| if b != 0 { 0x01u8 } else { 0x00u8 }).push(BLANK)
}

/// A tape: one-way infinite sequence of cells extending to the right.
#[derive(Debug, Clone)]
pub struct Tape {
    pub cells: Vec<u8>,
    pub head: usize,
}

impl Tape {
    /// A tape that stores a single blank, with the head on it.
    pub fn new() -> (r: Self)
        ensures
            r.cells@ == seq![BLANK],
            r.head == 0,
    {
        Tape { cells: vec![BLANK], head: 0 }
    }

    /// A tape that stores `cap` blanks, with the head on the first.
    pub fn with_capacity(cap: usize) -> (r: Self)
        requires
            cap > 0,
        ensures
            r.cells@ == blanks(cap as nat),
            r.head == 0,
    {
        let mut cells = vec![BLANK; cap];
        cells.set(0, BLANK);
        let r = Tape { cells, head: 0 };
        assert(r.cells@ =~= blanks(cap as nat));
        r
    }

    /// The symbol under the head.
    pub fn read(&self) -> (r: u8)
        ensures
            r == symbol_at(self.cells@, self.head as int),
    {
        if self.head < self.cells.len() {
            self.cells[self.head]
        } else {
            BLANK
        }
    }

    /// Stores blanks up to and including cell `i`.
    fn reach(&mut self, i: usize)
        requires
            i < usize::MAX,
        ensures
            final(self).cells@ == cells_reaching(old(self).cells@, i as nat),
            final(self).head == old(self).head,
    {
        if i >= self.cells.len() {
            let ghost before = self.cells@;
            self.cells.resize(i + 1, BLANK);
            assert(self.cells@ =~= before + blanks((i + 1 - before.len()) as nat)) by {
                assert forall|k: int| before.len() <= k < i + 1 implies self.cells@[k] == BLANK by {
                    assert(cloned::<u8>(BLANK, self.cells@[k]));
                }
                assert(self.cells@.subrange(0, before.len() as int) == before);
                assert forall|k: int| 0 <= k < before.len() implies self.cells@[k] == before[k] by {
                    assert(self.cells@.subrange(0, before.len() as int)[k] == self.cells@[k]);
                }
            }
        }
    }

    /// Writes `symbol` into the cell under the head.
    pub fn write(&mut self, symbol: u8)
        requires
            old(self).head < usize::MAX,
        ensures
            final(self).cells@ == cells_reaching(old(self).cells@, old(self).head as nat).update(
                old(self).head as int,
                symbol,
            ),
            final(self).head == old(self).head,
            symbol_at(final(self).cells@, final(self).head as int) == symbol,
            forall|i: int|
                i != old(self).head ==> symbol_at(final(self).cells@, i) == symbol_at(old(self).cells@, i),
    {
        let h = self.head;
        self.reach(h);
        self.cells.set(h, symbol);
    }

    /// Moves the head one cell; a head at cell 0 stays when moved left.
    pub fn move_head(&mut self, dir: HeadMove)
        requires
            dir == HeadMove::Right ==> old(self).head < usize::MAX - 1,
        ensures
            final(self).head == moved_head(old(self).head as nat, dir),
            final(self).cells@ == (if dir == HeadMove::Right {
                cells_reaching(old(self).cells@, (old(self).head + 1) as nat)
            } else {
                old(self).cells@
            }),
            forall|i: int| symbol_at(final(self).cells@, i) == symbol_at(old(self).cells@, i),
    {
        match dir {
            HeadMove::Left => {
                if self.head > 0 {
                    self.head = self.head - 1;
                }
            },
            HeadMove::Right => {
                self.head = self.head + 1;
                let h = self.head;
                self.reach(h);
            },
            HeadMove::Stay => {},
        }
    }

    /// Loads `bits` (nonzero as 1, zero as 0) followed by one blank, with the head on the first cell.
    pub fn init_from_bits(&mut self, bits: &[u8])
        ensures
            final(self).cells@ == cells_from_bits(bits@),
            final(self).head == 0,
    {
        self.cells.clear();
        let mut i: usize = 0;
        while i < bits.len()
            invariant
                i <= bits@.len(),
                self.cells@ == bits@.take(i as int).map_values(
                    |b: u8|
                        if b != 0 {
                            0x01u8
                        } else {
                            0x00u8
                        },
                ),
            decreases bits.len() - i,
        {
            let b = bits[i];
            self.cells.push(if b != 0 { 0x01 } else { 0x00 });
            i = i + 1;
            assert(self.cells@ =~= bits@.take(i as int).map_values(
                |b: u8|
                    if b != 0 {
                        0x01u8
                    } else {
                        0x00u8
                    },
            ));
        }
        self.cells.push(BLANK);
        self.head = 0;
        assert(bits@.take(bits@.len() as int) =~= bits@);
    }

    /// The number of stored cells.
    pub fn content_len(&self) -> (r: usize)
        ensures
            r == self.cells@.len(),
    {
        self.cells.len()
    }

    /// The stored cells.
    pub fn cells(&self) -> (r: &[u8])
        ensures
            r@ == self.cells@,
    {
        self.cells.as_slice()
    }
}

/// Tracks the head position on one of the tapes.
#[derive(Debug, Clone)]
pub struct TapeHead {
    pub position: usize,
    pub tape_idx: usize,
}

impl TapeHead {
    pub fn new(tape_idx: usize) -> (r: Self)
        ensures
            r.position == 0,
            r.tape_idx == tape_idx,
    {
        TapeHead { position: 0, tape_idx }
    }
}

/// Moving right and then left brings the head back where it was.
pub proof fn lemma_right_then_left(head: nat)
    ensures
        moved_head(moved_head(head, HeadMove::Right), HeadMove::Left) == head,
{
}

/// Moving left and then right brings a head that was not at cell 0 back where it was.
pub proof fn lemma_left_then_right(head: nat)
    requires
        head > 0,
    ensures
        moved_head(moved_head(head, HeadMove::Left), HeadMove::Right) == head,
{
}

} // verus!
