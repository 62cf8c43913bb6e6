//! The Cairo VM's instruction record and decoder, as this library sees them.

use vstd::prelude::*;

use cairo_vm::types::instruction::{
    ApUpdate, FpUpdate, Instruction, Op1Addr, Opcode, OpcodeExtension, PcUpdate, Register, Res,
};
use cairo_vm::vm::errors::vm_errors::VirtualMachineError;

verus! {

#[verifier::external_type_specification]
pub struct ExRegister(Register);

#[verifier::external_type_specification]
pub struct ExOp1Addr(Op1Addr);

#[verifier::external_type_specification]
pub struct ExRes(Res);

#[verifier::external_type_specification]
pub struct ExPcUpdate(PcUpdate);

#[verifier::external_type_specification]
pub struct ExApUpdate(ApUpdate);

#[verifier::external_type_specification]
pub struct ExFpUpdate(FpUpdate);

#[verifier::external_type_specification]
pub struct ExOpcode(Opcode);

#[verifier::external_type_specification]
pub struct ExOpcodeExtension(OpcodeExtension);

#[verifier::external_type_specification]
pub struct ExInstruction(Instruction);

#[verifier::external_type_specification]
#[verifier::external_body]
pub struct ExVirtualMachineError(VirtualMachineError);

/// The instruction that the VM's decoder reads from an encoding, or `None`
/// where no instruction has that encoding.
pub uninterp spec fn decoded_of(encoding: u128) -> Option<Instruction>;

/// Whether the instruction's second operand is the immediate stored in the
/// cell after the instruction, which makes the instruction two cells wide.
pub open spec fn has_immediate(inst: Instruction) -> bool {
    inst.op1_addr is Imm
}

/// Relies on `cairo_vm::vm::decoding::decoder::decode_instruction`: a pure
/// function of the encoding, which fails exactly where no instruction matches.
pub assume_specification[ cairo_vm::vm::decoding::decoder::decode_instruction ](
    encoded_instr: u128,
) -> (r: Result<Instruction, VirtualMachineError>)
    ensures
        match r {
            Ok(inst) => decoded_of(encoded_instr) == Some(inst),
            Err(_) => decoded_of(encoded_instr) is None,
        },
;

} // verus!
