//! The instruction router: the leading byte selects the handler.
use vstd::prelude::*;
use crate::deposit::{deposit, deposit_result, ticket, ticket_result};
use crate::error::ProgramError;
use crate::swap::{plan_is, swap, swap_result, SwapPlan};

verus! {

/// The handler that an instruction's leading byte selects.
#[derive(Debug, Clone, Copy, PartialEq, Eq)]
pub enum Opcode {
    Deposit,
    Ticket,
    Swap,
}

pub open spec fn opcode_of(b: u8) -> Option<Opcode> {
    if b == 0 {
        Some(Opcode::Deposit)
    } else if b == 1 {
        Some(Opcode::Ticket)
    } else if b == 2 {
        Some(Opcode::Swap)
    } else {
        None
    }
}

/// Reads the opcode in the leading byte of an instruction.
pub fn decode_opcode(b: u8) -> (r: Option<Opcode>)
    ensures
        r == opcode_of(b),
{
    match b {
        0 => Some(Opcode::Deposit),
        1 => Some(Opcode::Ticket),
        2 => Some(Opcode::Swap),
        _ => None,
    }
}

/// The opcode of an instruction, where it has one that names a handler.
pub open spec fn instruction_opcode(data: Seq<u8>) -> Option<Opcode> {
    if data.len() == 0 {
        None
    } else {
        opcode_of(data[0])
    }
}

/// Runs one instruction against the account buffer. Deposit and Ticket change
/// the buffer; Swap leaves it alone and returns the transaction to sign, with
/// `signer` as the key of the participant's account.
pub fn process_instruction(account_data: &mut [u8], instruction_data: &[u8], signer: [u8; 32]) -> (r:
    Result<Option<SwapPlan>, ProgramError>)
    ensures
        match instruction_opcode(instruction_data@) {
            None => r == Err::<Option<SwapPlan>, ProgramError>(ProgramError::InvalidInstruction),
            Some(Opcode::Deposit) => match deposit_result(old(account_data)@, instruction_data@) {
                Ok(nb) => r == Ok::<Option<SwapPlan>, ProgramError>(None) && final(account_data)@ == nb,
                Err(e) => r == Err::<Option<SwapPlan>, ProgramError>(e),
            },
            Some(Opcode::Ticket) => match ticket_result(old(account_data)@) {
                Ok(nb) => r == Ok::<Option<SwapPlan>, ProgramError>(None) && final(account_data)@ == nb,
                Err(e) => r == Err::<Option<SwapPlan>, ProgramError>(e),
            },
            Some(Opcode::Swap) => final(account_data)@ == old(account_data)@ && match swap_result(
                instruction_data@,
            ) {
                Ok((ins, outs)) => r matches Ok(Some(plan)) && plan_is(plan, ins, outs, signer),
                Err(e) => r == Err::<Option<SwapPlan>, ProgramError>(e),
            },
        },
        r is Err ==> final(account_data)@ == old(account_data)@,
{
    if instruction_data.len() == 0 {
        return Err(ProgramError::InvalidInstruction);
    }
    match decode_opcode(instruction_data[0]) {
        None => Err(ProgramError::InvalidInstruction),
        Some(Opcode::Deposit) => match deposit(account_data, instruction_data) {
            Ok(()) => Ok(None),
            Err(e) => Err(e),
        },
        Some(Opcode::Ticket) => match ticket(account_data) {
            Ok(()) => Ok(None),
            Err(e) => Err(e),
        },
        Some(Opcode::Swap) => match swap(instruction_data, signer) {
            Ok(plan) => Ok(Some(plan)),
            Err(e) => Err(e),
        },
    }
}

} // verus!
