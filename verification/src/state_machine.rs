//! State encodings for FPGA synthesis: binary, one-hot and Gray codes.
use vstd::prelude::*;
use crate::text::{dec, push_dec, push_radix, radix_text};

verus! {

#[derive(Debug, Clone, Copy, PartialEq, Eq, Structural)]
pub enum EncodingType {
    Binary,
    OneHot,
    Gray,
}

#[derive(Debug, Clone)]
pub struct StateEncoder {
    pub encoding: EncodingType,
}

impl Default for StateEncoder {
    fn default() -> (r: Self)
        ensures
            r.encoding == EncodingType::Binary,
    {
        StateEncoder { encoding: EncodingType::Binary }
    }
}

/// The code of state `i` under an encoding.
pub open spec fn state_code(enc: EncodingType, i: u32) -> u32 {
    match enc {
        EncodingType::Binary => i,
        EncodingType::OneHot => 1u32 << i,
        EncodingType::Gray => i ^ (i >> 1u32),
    }
}

/// The codes of states `0..n`.
pub open spec fn state_codes(enc: EncodingType, n: u32) -> Seq<u32> {
    Seq::new(n as nat, |i: int| state_code(enc, i as u32))
}

/// The number of bits it takes to number `n` things: the smallest `k` with `2^k >= n`
/// (0 for no or one thing).
pub open spec fn ceil_log2(n: nat) -> nat
    decreases n,
{
    if n <= 1 {
        0
    } else {
        1 + ceil_log2(((n + 1) / 2) as nat)
    }
}

/// `2` to the power `k`.
pub open spec fn pow2(k: nat) -> nat
    decreases k,
{
    if k == 0 {
        1
    } else {
        2 * pow2((k - 1) as nat)
    }
}

/// The register width an encoding needs for `n` states.
pub open spec fn width_for(enc: EncodingType, n: u32) -> u32 {
    match enc {
        EncodingType::OneHot => n,
        _ => ceil_log2(n as nat) as u32,
    }
}

/// Computes `ceil_log2(n)`.
pub fn bits_for(n: u32) -> (r: u32)
    ensures
        r == ceil_log2(n as nat),
        r <= 32,
        n >= 2 ==> r >= 1,
    decreases n,
{
    proof {
        assert(pow2(32) == 0x1_0000_0000) by {
            reveal_with_fuel(pow2, 33);
        }
        lemma_ceil_log2_le(n as nat, 32);
    }
    if n <= 1 {
        0
    } else {
        let half: u32 = ((n as u64 + 1) / 2) as u32;
        1 + bits_for(half)
    }
}

/// A number no larger than `2^k` takes at most `k` bits.
pub proof fn lemma_ceil_log2_le(n: nat, k: nat)
    requires
        n <= pow2(k),
    ensures
        ceil_log2(n) <= k,
    decreases n,
{
    if n > 1 {
        assert(k > 0);
        let h = ((n + 1) / 2) as nat;
        assert(h <= pow2((k - 1) as nat));
        lemma_ceil_log2_le(h, (k - 1) as nat);
    }
}

/// `ceil_log2(n)` bits number `n` things and no fewer do.
pub proof fn lemma_ceil_log2_bounds(n: nat)
    ensures
        n <= pow2(ceil_log2(n)),
        n >= 2 ==> pow2((ceil_log2(n) - 1) as nat) < n,
    decreases n,
{
    if n > 1 {
        lemma_ceil_log2_bounds(((n + 1) / 2) as nat);
    }
}

/// Consecutive Gray codes differ in exactly one bit.
pub proof fn lemma_gray_one_bit(i: u32)
    requires
        i < u32::MAX,
    ensures
        ({
            let x = state_code(EncodingType::Gray, i) ^ state_code(
                EncodingType::Gray,
                (i + 1) as u32,
            );
            x != 0 && x & ((x - 1) as u32) == 0
        }),
{
    let j: u32 = (i + 1) as u32;
    assert(j == i + 1 ==> ((i ^ (i >> 1u32)) ^ (j ^ (j >> 1u32))) != 0 && ((i ^ (i >> 1u32)) ^ (j ^ (
    j >> 1u32))) & ((((i ^ (i >> 1u32)) ^ (j ^ (j >> 1u32))) - 1) as u32) == 0) by (bit_vector);
}

/// Distinct states get distinct Gray codes.
pub proof fn lemma_gray_injective(i: u32, j: u32)
    ensures
        state_code(EncodingType::Gray, i) == state_code(EncodingType::Gray, j) ==> i == j,
{
    assert((i ^ (i >> 1u32)) == (j ^ (j >> 1u32)) ==> i == j) by (bit_vector);
}

/// A Gray code of a number below `2^k` is itself below `2^k`.
pub proof fn lemma_gray_width(i: u32, k: u32)
    requires
        k < 32,
        i < (1u32 << k),
    ensures
        state_code(EncodingType::Gray, i) < (1u32 << k),
{
    assert(k < 32 && i < (1u32 << k) ==> (i ^ (i >> 1u32)) < (1u32 << k)) by (bit_vector);
}

/// The first line of the Verilog encoding block.
pub open spec fn encoding_header(enc: EncodingType, n: nat) -> Seq<char> {
    match enc {
        EncodingType::Binary => "    // Binary state encoding\n"@ + "    typedef enum logic ["@ + dec(
            (ceil_log2(n) - 1) as nat,
        ) + ":0"@ + "] {\n"@,
        EncodingType::OneHot => "    // One-hot state encoding\n"@ + "    typedef enum logic ["@ + dec(
            (n - 1) as nat,
        ) + ":0] {\n"@,
        EncodingType::Gray => "    // Gray code state encoding\n"@ + "    typedef enum logic ["@ + dec(
            (ceil_log2(n) - 1) as nat,
        ) + ":0] {\n"@,
    }
}

/// The line that declares state `i` named `name`, of `n` states, with code `code`.
pub open spec fn encoding_line(enc: EncodingType, name: Seq<char>, n: nat, code: u32) -> Seq<char> {
    match enc {
        EncodingType::Binary => "        S_"@ + name + " = "@ + dec(ceil_log2(n)) + "'d"@ + dec(
            code as nat,
        ),
        EncodingType::OneHot => "        S_"@ + name + " = "@ + dec(n) + "'h"@ + radix_text(
            code as nat,
            16,
            0,
        ),
        EncodingType::Gray => "        S_"@ + name + " = "@ + dec(ceil_log2(n)) + "'b"@ + radix_text(
            code as nat,
            2,
            0,
        ),
    }
}

/// The declaration lines of the first `k` of `n` states; every line but the last ends in a comma.
pub open spec fn encoding_lines(enc: EncodingType, names: Seq<Seq<char>>, n: nat, k: nat) -> Seq<
    char,
>
    decreases k,
{
    if k == 0 {
        Seq::empty()
    } else {
        let i = (k - 1) as nat;
        encoding_lines(enc, names, n, i) + encoding_line(enc, names[i as int], n, state_code(enc, i as u32))
            + (if i + 1 < n {
            ","@
        } else {
            Seq::empty()
        }) + "\n"@
    }
}

/// The Verilog `typedef enum` block that declares the named states under an encoding.
pub open spec fn encoding_block(enc: EncodingType, names: Seq<Seq<char>>) -> Seq<char> {
    encoding_header(enc, names.len()) + encoding_lines(enc, names, names.len(), names.len())
        + "    } state_t;\n"@
}

impl StateEncoder {
    /// The codes of states `0..num_states`.
    pub fn encode_states(&self, num_states: u32) -> (r: Vec<u32>)
        requires
            self.encoding == EncodingType::OneHot ==> num_states <= 32,
        ensures
            r@ == state_codes(self.encoding, num_states),
    {
        let mut codes: Vec<u32> = Vec::new();
        let mut i: u32 = 0;
        while i < num_states
            invariant
                i <= num_states,
                self.encoding == EncodingType::OneHot ==> num_states <= 32,
                codes@ == state_codes(self.encoding, num_states).take(i as int),
            decreases num_states - i,
        {
            let code = match self.encoding {
                EncodingType::Binary => i,
                EncodingType::OneHot => 1u32 << i,
                EncodingType::Gray => i ^ (i >> 1u32),
            };
            codes.push(code);
            i = i + 1;
            assert(codes@ =~= state_codes(self.encoding, num_states).take(i as int));
        }
        assert(codes@ =~= state_codes(self.encoding, num_states));
        codes
    }

    /// The register width the encoding needs for `num_states` states.
    pub fn bits_needed(&self, num_states: u32) -> (r: u32)
        ensures
            r == width_for(self.encoding, num_states),
            self.encoding != EncodingType::OneHot ==> r == ceil_log2(num_states as nat) && r <= 32
                && (num_states >= 2 ==> r >= 1),
    {
        match self.encoding {
            EncodingType::Binary => bits_for(num_states),
            EncodingType::OneHot => num_states,
            EncodingType::Gray => bits_for(num_states),
        }
    }

    /// The Verilog `typedef enum` block that declares `states` (index and name) under the
    /// encoding.
    pub fn generate_verilog_encoding(&self, states: &[(u32, &str)]) -> (r: String)
        requires
            states@.len() <= u32::MAX,
            self.encoding == EncodingType::OneHot ==> 1 <= states@.len() <= 32,
            self.encoding != EncodingType::OneHot ==> states@.len() >= 2,
        ensures
            r@ == encoding_block(self.encoding, states@.map_values(|s: (u32, &str)| s.1@)),
    {
        let ghost names = states@.map_values(|s: (u32, &str)| s.1@);
        let n = states.len();
        let count = n as u32;
        let encodings = self.encode_states(count);
        let mut out = String::new();
        match self.encoding {
            EncodingType::Binary => {
                out.append("    // Binary state encoding\n");
                out.append("    typedef enum logic [");
                let bits = self.bits_needed(count);
                proof {
                    lemma_ceil_log2_bounds(n as nat);
                }
                push_dec(&mut out, (bits - 1) as u64);
                out.append(":0");
                out.append("] {\n");
            },
            EncodingType::OneHot => {
                out.append("    // One-hot state encoding\n");
                out.append("    typedef enum logic [");
                push_dec(&mut out, (n - 1) as u64);
                out.append(":0] {\n");
            },
            EncodingType::Gray => {
                out.append("    // Gray code state encoding\n");
                let bits = self.bits_needed(count);
                proof {
                    lemma_ceil_log2_bounds(n as nat);
                }
                out.append("    typedef enum logic [");
                push_dec(&mut out, (bits - 1) as u64);
                out.append(":0] {\n");
            },
        }
        assert(out@ =~= Seq::<char>::empty() + encoding_header(self.encoding, n as nat));
        let ghost head = out@;
        let mut i: usize = 0;
        while i < n
            invariant
                n == states@.len(),
                count == n,
                n <= u32::MAX,
                i <= n,
                names == states@.map_values(|s: (u32, &str)| s.1@),
                encodings@ == state_codes(self.encoding, count),
                out@ == head + encoding_lines(self.encoding, names, n as nat, i as nat),
            decreases n - i,
        {
            let name = states[i].1;
            let enc = encodings[i];
            assert(names[i as int] == name@);
            let ghost before = out@;
            out.append("        S_");
            out.append(name);
            out.append(" = ");
            match self.encoding {
                EncodingType::Binary => {
                    push_dec(&mut out, self.bits_needed(count) as u64);
                    out.append("'d");
                    push_dec(&mut out, enc as u64);
                },
                EncodingType::OneHot => {
                    push_dec(&mut out, n as u64);
                    out.append("'h");
                    push_radix(&mut out, enc as u64, 16, 0);
                },
                EncodingType::Gray => {
                    push_dec(&mut out, self.bits_needed(count) as u64);
                    out.append("'b");
                    push_radix(&mut out, enc as u64, 2, 0);
                },
            }
            let ghost line = encoding_line(self.encoding, names[i as int], n as nat, enc);
            assert(out@ =~= before + line);
            if i < n - 1 {
                out.append(",");
            }
            out.append("\n");
            proof {
                let comma = if i + 1 < n {
                    ","@
                } else {
                    Seq::<char>::empty()
                };
                assert(enc == state_code(self.encoding, i as u32));
                assert(out@ =~= head + (encoding_lines(self.encoding, names, n as nat, i as nat) + line
                    + comma + "\n"@));
            }
            i = i + 1;
        }
        out.append("    } state_t;\n");
        assert(out@ =~= encoding_block(self.encoding, names));
        out
    }
}

} // verus!
