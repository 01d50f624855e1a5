use vstd::prelude::*;

verus! {

/// Kind of reverser instruction derived from one floor tile.
#[derive(Clone, Copy, Debug, PartialEq, Eq, Structural)]
pub enum InstructionType {
    NextInt,
    FilteredSkip,
    Skip,
    MutableSkip,
}

/// A single instruction for the reverser: an instruction kind and the range
/// of generator calls it may consume.
#[derive(Clone, Copy, Debug, PartialEq, Eq, Structural)]
pub struct ReverserInstruction {
    pub instruction_type: InstructionType,
    pub min_call_count: i32,
    pub max_call_count: i32,
}

/// The instruction a floor tile digit stands for: mossy (0) is a filtered
/// skip, cobble (1) an observed `nextInt(4) == 0`, air (2) no call, unknown
/// (3) zero or one calls, unknown-solid (4) one call with unknown result.
pub open spec fn instr_of_tile(index: u8) -> Option<ReverserInstruction> {
    if index == 0 {
        Some(
            ReverserInstruction {
                instruction_type: InstructionType::FilteredSkip,
                min_call_count: 1,
                max_call_count: 1,
            },
        )
    } else if index == 1 {
        Some(
            ReverserInstruction {
                instruction_type: InstructionType::NextInt,
                min_call_count: 1,
                max_call_count: 1,
            },
        )
    } else if index == 3 {
        Some(
            ReverserInstruction {
                instruction_type: InstructionType::MutableSkip,
                min_call_count: 0,
                max_call_count: 1,
            },
        )
    } else if index == 4 {
        Some(
            ReverserInstruction {
                instruction_type: InstructionType::Skip,
                min_call_count: 1,
                max_call_count: 1,
            },
        )
    } else {
        None
    }
}

impl ReverserInstruction {
    pub fn new(instruction_type: InstructionType, min_calls: i32, max_calls: i32) -> (r:
        ReverserInstruction)
        ensures
            r.instruction_type == instruction_type,
            r.min_call_count == min_calls,
            r.max_call_count == max_calls,
    {
        ReverserInstruction { instruction_type, min_call_count: min_calls, max_call_count: max_calls }
    }

    pub fn single(instruction_type: InstructionType) -> (r: ReverserInstruction)
        ensures
            r.instruction_type == instruction_type,
            r.min_call_count == 1,
            r.max_call_count == 1,
    {
        ReverserInstruction::new(instruction_type, 1, 1)
    }

    /// Convert a floor tile index to an instruction; air (2) and out-of-range
    /// digits yield none.
    pub fn from_tile_index(index: u8) -> (r: Option<ReverserInstruction>)
        ensures
            r == instr_of_tile(index),
    {
        match index {
            0 => Some(ReverserInstruction::single(InstructionType::FilteredSkip)),
            1 => Some(ReverserInstruction::single(InstructionType::NextInt)),
            3 => Some(ReverserInstruction::new(InstructionType::MutableSkip, 0, 1)),
            4 => Some(ReverserInstruction::single(InstructionType::Skip)),
            _ => None,
        }
    }
}

} // verus!
