//! Intel Cyclone FPGA devices and resource estimates for a synthesized machine.
use vstd::prelude::*;
use crate::state_machine::{bits_for, ceil_log2};
use crate::text::{dec, push_dec};

verus! {

#[derive(Debug, Clone, Copy, PartialEq, Eq, Structural)]
pub enum CycloneDevice {
    Cyclone10LP,
    CycloneV,
    CycloneIVE,
    CycloneII,
}

impl CycloneDevice {
    /// Logic elements of the device.
    pub open spec fn spec_max_le(self) -> u32 {
        match self {
            CycloneDevice::Cyclone10LP => 150_000,
            CycloneDevice::CycloneV => 500_000,
            CycloneDevice::CycloneIVE => 150_000,
            CycloneDevice::CycloneII => 70_000,
        }
    }

    /// M9K memory blocks of the device.
    pub open spec fn spec_max_m9k(self) -> u32 {
        match self {
            CycloneDevice::Cyclone10LP => 504,
            CycloneDevice::CycloneV => 1220,
            CycloneDevice::CycloneIVE => 504,
            CycloneDevice::CycloneII => 32,
        }
    }

    /// The name of the device.
    pub open spec fn spec_name(self) -> Seq<char> {
        match self {
            CycloneDevice::Cyclone10LP => "Cyclone 10 LP"@,
            CycloneDevice::CycloneV => "Cyclone V"@,
            CycloneDevice::CycloneIVE => "Cyclone IV E"@,
            CycloneDevice::CycloneII => "Cyclone II"@,
        }
    }

    pub fn max_le(&self) -> (r: u32)
        ensures
            r == self.spec_max_le(),
    {
        match self {
            CycloneDevice::Cyclone10LP => 150_000,
            CycloneDevice::CycloneV => 500_000,
            CycloneDevice::CycloneIVE => 150_000,
            CycloneDevice::CycloneII => 70_000,
        }
    }

    pub fn max_m9k(&self) -> (r: u32)
        ensures
            r == self.spec_max_m9k(),
    {
        match self {
            CycloneDevice::Cyclone10LP => 504,
            CycloneDevice::CycloneV => 1220,
            CycloneDevice::CycloneIVE => 504,
            CycloneDevice::CycloneII => 32,
        }
    }

    /// Highest clock frequency of the device in MHz.
    pub fn max_fmax_mhz(&self) -> (r: u32)
        ensures
            r == match self {
                CycloneDevice::Cyclone10LP => 400u32,
                CycloneDevice::CycloneV => 500u32,
                CycloneDevice::CycloneIVE => 400u32,
                CycloneDevice::CycloneII => 200u32,
            },
    {
        match self {
            CycloneDevice::Cyclone10LP => 400,
            CycloneDevice::CycloneV => 500,
            CycloneDevice::CycloneIVE => 400,
            CycloneDevice::CycloneII => 200,
        }
    }

    pub fn name(&self) -> (r: &'static str)
        ensures
            r@ == self.spec_name(),
    {
        match self {
            CycloneDevice::Cyclone10LP => "Cyclone 10 LP",
            CycloneDevice::CycloneV => "Cyclone V",
            CycloneDevice::CycloneIVE => "Cyclone IV E",
            CycloneDevice::CycloneII => "Cyclone II",
        }
    }
}

#[derive(Debug, Clone)]
pub struct ResourceEstimate {
    pub logic_elements: u32,
    pub registers: u32,
    pub memory_bits: u32,
    pub m9k_blocks: u32,
    pub dsp_blocks: u32,
    pub io_pins: u32,
    pub fmax_mhz: u32,
}

/// Whether the estimate for a table fits 32-bit arithmetic.
pub open spec fn estimate_fits(num_states: u32, num_transitions: u32, tape_size: u32) -> bool {
    &&& ceil_log2(num_states as nat) + tape_size * 32 + 128 <= u32::MAX
    &&& num_states * 2 + num_transitions * 4 <= u32::MAX
}

/// Whether the estimate fits the device: enough logic elements and M9K blocks.
pub open spec fn fits(e: ResourceEstimate, d: CycloneDevice) -> bool {
    e.logic_elements <= d.spec_max_le() && e.m9k_blocks <= d.spec_max_m9k()
}

/// The text of a resource report; `utilization` is the logic-element utilization in percent,
/// already written with one decimal.
pub open spec fn report_text(e: ResourceEstimate, d: CycloneDevice, utilization: Seq<char>) -> Seq<
    char,
> {
    "Resource Estimate for "@ + d.spec_name() + ":\n  Logic Elements: "@ + dec(
        e.logic_elements as nat,
    ) + "/"@ + dec(d.spec_max_le() as nat) + " ("@ + utilization + "%)\n  Registers: "@ + dec(
        e.registers as nat,
    ) + "\n  Memory: "@ + dec(e.memory_bits as nat) + " bits ("@ + dec(e.m9k_blocks as nat)
        + " M9K blocks)\n  DSP Blocks: "@ + dec(e.dsp_blocks as nat) + "\n  I/O Pins: "@ + dec(
        e.io_pins as nat,
    ) + "\n  Fmax: "@ + dec(e.fmax_mhz as nat) + " MHz\n  Fits: "@ + (if fits(e, d) {
        "YES"@
    } else {
        "NO"@
    })
}

impl ResourceEstimate {
    /// The estimate for a machine with the given numbers of states and transitions and tapes
    /// of `tape_size` cells: state register plus four tapes of byte cells plus four 32-bit
    /// heads; two LUTs per state and four per transition; one M9K block per 9216 memory bits
    /// and one more.
    pub fn from_table(num_states: u32, num_transitions: u32, tape_size: u32) -> (r: Self)
        requires
            estimate_fits(num_states, num_transitions, tape_size),
        ensures
            r.registers == ceil_log2(num_states as nat) + tape_size * 8 * 4 + 32 * 4,
            r.logic_elements == num_states * 2 + num_transitions * 4,
            r.memory_bits == tape_size * 8 * 4,
            r.m9k_blocks == (tape_size * 8 * 4) / 9216 + 1,
            r.dsp_blocks == 0,
            r.io_pins == 64,
            r.fmax_mhz == 300,
    {
        let state_bits = bits_for(num_states);
        let registers = state_bits + (tape_size * 8) * 4 + 32 * 4;
        let state_luts = num_states * 2;
        let trans_luts = num_transitions * 4;
        let logic_elements = state_luts + trans_luts;
        let memory_bits = tape_size * 8 * 4;
        let m9k_blocks = (memory_bits / 9216) + 1;
        ResourceEstimate {
            logic_elements,
            registers,
            memory_bits,
            m9k_blocks,
            dsp_blocks: 0,
            io_pins: 64,
            fmax_mhz: 300,
        }
    }

    pub fn fits_device(&self, device: &CycloneDevice) -> (r: bool)
        ensures
            r == fits(*self, *device),
    {
        self.logic_elements <= device.max_le() && self.m9k_blocks <= device.max_m9k()
    }

    /// The resource report; `utilization` is the logic-element utilization in percent, already
    /// written with one decimal.
    pub fn report(&self, device: &CycloneDevice, utilization: &str) -> (r: String)
        ensures
            r@ == report_text(*self, *device, utilization@),
    {
        let mut o = String::from_str("Resource Estimate for ");
        o.append(device.name());
        o.append(":\n  Logic Elements: ");
        push_dec(&mut o, self.logic_elements as u64);
        o.append("/");
        push_dec(&mut o, device.max_le() as u64);
        o.append(" (");
        o.append(utilization);
        o.append("%)\n  Registers: ");
        push_dec(&mut o, self.registers as u64);
        o.append("\n  Memory: ");
        push_dec(&mut o, self.memory_bits as u64);
        o.append(" bits (");
        push_dec(&mut o, self.m9k_blocks as u64);
        o.append(" M9K blocks)\n  DSP Blocks: ");
        push_dec(&mut o, self.dsp_blocks as u64);
        o.append("\n  I/O Pins: ");
        push_dec(&mut o, self.io_pins as u64);
        o.append("\n  Fmax: ");
        push_dec(&mut o, self.fmax_mhz as u64);
        o.append(" MHz\n  Fits: ");
        if self.fits_device(device) {
            o.append("YES");
        } else {
            o.append("NO");
        }
        o
    }
}

} // verus!
