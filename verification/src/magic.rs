//! Magic numbers that open every artifact file; each is the big-endian encoding of a
//! four-letter ASCII name.
use vstd::prelude::*;
use crate::be_bytes::{be32, to_be32};

verus! {

#[derive(Debug, Clone, Copy, PartialEq, Eq, Hash, Structural)]
pub enum Magic {
    /// PTM-IR files
    PTMI,
    /// Turing Machine transition tables
    TMTT,
    /// Quipper circuit artifacts
    QUIP,
    /// JCL manifests
    JCLM,
    /// Audit records
    AUDT,
    /// Test vectors
    TEST,
    /// Token streams
    TOKN,
    /// CFG binary
    CFGB,
    /// Complexity report
    CMPL,
    /// Validation report
    VALR,
    /// Validation protocol
    VALP,
    /// Diagnostic log
    DIAG,
    /// Error code table
    ERRT,
    /// Security boundary
    SECB,
    /// Security audit log
    SEAU,
    /// Snapshot
    SNAP,
    /// OpenQASM translation
    OQSM,
}

/// The four ASCII characters spelled by the big-endian bytes of `v`.
pub open spec fn ascii_name(v: u32) -> Seq<char> {
    be32(v).map_values(|b: u8| b as char)
}

/// The magic whose number is `v`, if there is one.
pub open spec fn magic_with_value(v: u32) -> Option<Magic> {
    if exists|m: Magic| m.value() == v {
        Some(choose|m: Magic| m.value() == v)
    } else {
        None
    }
}

impl Magic {
    /// The 32-bit number of this magic.
    pub open spec fn value(self) -> u32 {
        match self {
            Magic::PTMI => 0x50544D49u32,
            Magic::TMTT => 0x544D5454u32,
            Magic::QUIP => 0x51554950u32,
            Magic::JCLM => 0x4A434C4Du32,
            Magic::AUDT => 0x41554454u32,
            Magic::TEST => 0x54455354u32,
            Magic::TOKN => 0x544F4B4Eu32,
            Magic::CFGB => 0x43464742u32,
            Magic::CMPL => 0x434D504Cu32,
            Magic::VALR => 0x56414C52u32,
            Magic::VALP => 0x56414C50u32,
            Magic::DIAG => 0x44494147u32,
            Magic::ERRT => 0x45525254u32,
            Magic::SECB => 0x53454342u32,
            Magic::SEAU => 0x53454155u32,
            Magic::SNAP => 0x534E4150u32,
            Magic::OQSM => 0x4F51534Du32,
        }
    }

    /// Distinct magics have distinct numbers.
    pub proof fn lemma_value_injective(a: Magic, b: Magic)
        ensures
            a.value() == b.value() ==> a == b,
    {
    }

    /// The number of this magic.
    pub fn as_u32(self) -> (r: u32)
        ensures
            r == self.value(),
    {
        match self {
            Magic::PTMI => 0x50544D49,
            Magic::TMTT => 0x544D5454,
            Magic::QUIP => 0x51554950,
            Magic::JCLM => 0x4A434C4D,
            Magic::AUDT => 0x41554454,
            Magic::TEST => 0x54455354,
            Magic::TOKN => 0x544F4B4E,
            Magic::CFGB => 0x43464742,
            Magic::CMPL => 0x434D504C,
            Magic::VALR => 0x56414C52,
            Magic::VALP => 0x56414C50,
            Magic::DIAG => 0x44494147,
            Magic::ERRT => 0x45525254,
            Magic::SECB => 0x53454342,
            Magic::SEAU => 0x53454155,
            Magic::SNAP => 0x534E4150,
            Magic::OQSM => 0x4F51534D,
        }
    }

    /// The magic whose number is `v`; `None` when no magic has that number.
    pub fn from_u32(v: u32) -> (r: Option<Self>)
        ensures
            r == magic_with_value(v),
            r matches Some(m) ==> m.value() == v,
            r is None <==> forall|m: Magic| m.value() != v,
            forall|m: Magic| #[trigger] m.value() == v ==> r == Some(m),
    {
        let r = match v {
            0x50544D49 => Some(Self::PTMI),
            0x544D5454 => Some(Self::TMTT),
            0x51554950 => Some(Self::QUIP),
            0x4A434C4D => Some(Self::JCLM),
            0x41554454 => Some(Self::AUDT),
            0x54455354 => Some(Self::TEST),
            0x544F4B4E => Some(Self::TOKN),
            0x43464742 => Some(Self::CFGB),
            0x434D504C => Some(Self::CMPL),
            0x56414C52 => Some(Self::VALR),
            0x56414C50 => Some(Self::VALP),
            0x44494147 => Some(Self::DIAG),
            0x45525254 => Some(Self::ERRT),
            0x53454342 => Some(Self::SECB),
            0x53454155 => Some(Self::SEAU),
            0x534E4150 => Some(Self::SNAP),
            0x4F51534D => Some(Self::OQSM),
            _ => None,
        };
        proof {
            if let Some(m) = r {
                assert(m.value() == v);
                assert(exists|c: Magic| c.value() == v);
                let c = choose|c: Magic| c.value() == v;
                Self::lemma_value_injective(c, m);
                assert forall|n: Magic| #[trigger] n.value() == v implies r == Some(n) by {
                    Self::lemma_value_injective(n, m);
                }
            } else {
                assert forall|m: Magic| m.value() != v by {
                    match m {
                        Magic::PTMI => {},
                        Magic::TMTT => {},
                        Magic::QUIP => {},
                        Magic::JCLM => {},
                        Magic::AUDT => {},
                        Magic::TEST => {},
                        Magic::TOKN => {},
                        Magic::CFGB => {},
                        Magic::CMPL => {},
                        Magic::VALR => {},
                        Magic::VALP => {},
                        Magic::DIAG => {},
                        Magic::ERRT => {},
                        Magic::SECB => {},
                        Magic::SEAU => {},
                        Magic::SNAP => {},
                        Magic::OQSM => {},
                    }
                }
            }
        }
        r
    }

    /// The big-endian bytes of the magic number.
    pub fn as_bytes(self) -> (r: [u8; 4])
        ensures
            r@ == be32(self.value()),
    {
        to_be32(self.as_u32())
    }

    /// The four-letter name of the magic, which is also what its bytes spell in ASCII.
    pub fn as_str(self) -> (r: &'static str)
        ensures
            r@ == ascii_name(self.value()),
    {
        match self {
            Magic::PTMI => {
                proof {
                    reveal_strlit("PTMI");
                    crate::be_bytes::lemma_be32_arith(0x50544D49u32);
                    assert(be32(0x50544D49u32) =~= seq![0x50u8, 0x54u8, 0x4Du8, 0x49u8]);
                    assert(ascii_name(0x50544D49u32) =~= "PTMI"@);
                }
                "PTMI"
            },
            Magic::TMTT => {
                proof {
                    reveal_strlit("TMTT");
                    crate::be_bytes::lemma_be32_arith(0x544D5454u32);
                    assert(be32(0x544D5454u32) =~= seq![0x54u8, 0x4Du8, 0x54u8, 0x54u8]);
                    assert(ascii_name(0x544D5454u32) =~= "TMTT"@);
                }
                "TMTT"
            },
            Magic::QUIP => {
                proof {
                    reveal_strlit("QUIP");
                    crate::be_bytes::lemma_be32_arith(0x51554950u32);
                    assert(be32(0x51554950u32) =~= seq![0x51u8, 0x55u8, 0x49u8, 0x50u8]);
                    assert(ascii_name(0x51554950u32) =~= "QUIP"@);
                }
                "QUIP"
            },
            Magic::JCLM => {
                proof {
                    reveal_strlit("JCLM");
                    crate::be_bytes::lemma_be32_arith(0x4A434C4Du32);
                    assert(be32(0x4A434C4Du32) =~= seq![0x4Au8, 0x43u8, 0x4Cu8, 0x4Du8]);
                    assert(ascii_name(0x4A434C4Du32) =~= "JCLM"@);
                }
                "JCLM"
            },
            Magic::AUDT => {
                proof {
                    reveal_strlit("AUDT");
                    crate::be_bytes::lemma_be32_arith(0x41554454u32);
                    assert(be32(0x41554454u32) =~= seq![0x41u8, 0x55u8, 0x44u8, 0x54u8]);
                    assert(ascii_name(0x41554454u32) =~= "AUDT"@);
                }
                "AUDT"
            },
            Magic::TEST => {
                proof {
                    reveal_strlit("TEST");
                    crate::be_bytes::lemma_be32_arith(0x54455354u32);
                    assert(be32(0x54455354u32) =~= seq![0x54u8, 0x45u8, 0x53u8, 0x54u8]);
                    assert(ascii_name(0x54455354u32) =~= "TEST"@);
                }
                "TEST"
            },
            Magic::TOKN => {
                proof {
                    reveal_strlit("TOKN");
                    crate::be_bytes::lemma_be32_arith(0x544F4B4Eu32);
                    assert(be32(0x544F4B4Eu32) =~= seq![0x54u8, 0x4Fu8, 0x4Bu8, 0x4Eu8]);
                    assert(ascii_name(0x544F4B4Eu32) =~= "TOKN"@);
                }
                "TOKN"
            },
            Magic::CFGB => {
                proof {
                    reveal_strlit("CFGB");
                    crate::be_bytes::lemma_be32_arith(0x43464742u32);
                    assert(be32(0x43464742u32) =~= seq![0x43u8, 0x46u8, 0x47u8, 0x42u8]);
                    assert(ascii_name(0x43464742u32) =~= "CFGB"@);
                }
                "CFGB"
            },
            Magic::CMPL => {
                proof {
                    reveal_strlit("CMPL");
                    crate::be_bytes::lemma_be32_arith(0x434D504Cu32);
                    assert(be32(0x434D504Cu32) =~= seq![0x43u8, 0x4Du8, 0x50u8, 0x4Cu8]);
                    assert(ascii_name(0x434D504Cu32) =~= "CMPL"@);
                }
                "CMPL"
            },
            Magic::VALR => {
                proof {
                    reveal_strlit("VALR");
                    crate::be_bytes::lemma_be32_arith(0x56414C52u32);
                    assert(be32(0x56414C52u32) =~= seq![0x56u8, 0x41u8, 0x4Cu8, 0x52u8]);
                    assert(ascii_name(0x56414C52u32) =~= "VALR"@);
                }
                "VALR"
            },
            Magic::VALP => {
                proof {
                    reveal_strlit("VALP");
                    crate::be_bytes::lemma_be32_arith(0x56414C50u32);
                    assert(be32(0x56414C50u32) =~= seq![0x56u8, 0x41u8, 0x4Cu8, 0x50u8]);
                    assert(ascii_name(0x56414C50u32) =~= "VALP"@);
                }
                "VALP"
            },
            Magic::DIAG => {
                proof {
                    reveal_strlit("DIAG");
                    crate::be_bytes::lemma_be32_arith(0x44494147u32);
                    assert(be32(0x44494147u32) =~= seq![0x44u8, 0x49u8, 0x41u8, 0x47u8]);
                    assert(ascii_name(0x44494147u32) =~= "DIAG"@);
                }
                "DIAG"
            },
            Magic::ERRT => {
                proof {
                    reveal_strlit("ERRT");
                    crate::be_bytes::lemma_be32_arith(0x45525254u32);
                    assert(be32(0x45525254u32) =~= seq![0x45u8, 0x52u8, 0x52u8, 0x54u8]);
                    assert(ascii_name(0x45525254u32) =~= "ERRT"@);
                }
                "ERRT"
            },
            Magic::SECB => {
                proof {
                    reveal_strlit("SECB");
                    crate::be_bytes::lemma_be32_arith(0x53454342u32);
                    assert(be32(0x53454342u32) =~= seq![0x53u8, 0x45u8, 0x43u8, 0x42u8]);
                    assert(ascii_name(0x53454342u32) =~= "SECB"@);
                }
                "SECB"
            },
            Magic::SEAU => {
                proof {
                    reveal_strlit("SEAU");
                    crate::be_bytes::lemma_be32_arith(0x53454155u32);
                    assert(be32(0x53454155u32) =~= seq![0x53u8, 0x45u8, 0x41u8, 0x55u8]);
                    assert(ascii_name(0x53454155u32) =~= "SEAU"@);
                }
                "SEAU"
            },
            Magic::SNAP => {
                proof {
                    reveal_strlit("SNAP");
                    crate::be_bytes::lemma_be32_arith(0x534E4150u32);
                    assert(be32(0x534E4150u32) =~= seq![0x53u8, 0x4Eu8, 0x41u8, 0x50u8]);
                    assert(ascii_name(0x534E4150u32) =~= "SNAP"@);
                }
                "SNAP"
            },
            Magic::OQSM => {
                proof {
                    reveal_strlit("OQSM");
                    crate::be_bytes::lemma_be32_arith(0x4F51534Du32);
                    assert(be32(0x4F51534Du32) =~= seq![0x4Fu8, 0x51u8, 0x53u8, 0x4Du8]);
                    assert(ascii_name(0x4F51534Du32) =~= "OQSM"@);
                }
                "OQSM"
            },
        }
    }
}

} // verus!
