//! The requests carried in an instruction after its opcode byte.
use vstd::prelude::*;
use crate::wire::{take_bytes, take_str, take_u32, take_u8, read_bytes, read_str, read_u32, read_u8};

verus! {

/// A deposit request: `instruction` 0 initializes the state record, 1 records
/// the deposit `(txid, vout)` with its metadata.
#[derive(Debug, Clone)]
pub struct DepositParams {
    pub instruction: u8,
    pub txid: String,
    pub vout: u8,
    pub satoshi: u32,
    pub rune_id: String,
    pub rune_amount: u32,
    pub inscription_id: String,
}

pub struct DepositParamsView {
    pub instruction: u8,
    pub txid: Seq<char>,
    pub vout: u8,
    pub satoshi: u32,
    pub rune_id: Seq<char>,
    pub rune_amount: u32,
    pub inscription_id: Seq<char>,
}

impl View for DepositParams {
    type V = DepositParamsView;

    open spec fn view(&self) -> DepositParamsView {
        DepositParamsView {
            instruction: self.instruction,
            txid: self.txid@,
            vout: self.vout,
            satoshi: self.satoshi,
            rune_id: self.rune_id@,
            rune_amount: self.rune_amount,
            inscription_id: self.inscription_id@,
        }
    }
}

/// A settlement request: the deposit it settles and the raw bytes of the
/// previously observed transaction to rebuild.
#[derive(Debug, Clone)]
pub struct SwapParams {
    pub txid: String,
    pub vout: u8,
    pub swap_tx: Vec<u8>,
}

pub struct SwapParamsView {
    pub txid: Seq<char>,
    pub vout: u8,
    pub swap_tx: Seq<u8>,
}

impl View for SwapParams {
    type V = SwapParamsView;

    open spec fn view(&self) -> SwapParamsView {
        SwapParamsView { txid: self.txid@, vout: self.vout, swap_tx: self.swap_tx@ }
    }
}

/// The deposit request that `b` holds, field after field, with no byte left over.
pub open spec fn parse_deposit_params(b: Seq<u8>) -> Option<DepositParamsView> {
    match take_u8(b, 0) {
        None => None,
        Some((instruction, q1)) => match take_str(b, q1) {
            None => None,
            Some((txid, q2)) => match take_u8(b, q2) {
                None => None,
                Some((vout, q3)) => match take_u32(b, q3) {
                    None => None,
                    Some((satoshi, q4)) => match take_str(b, q4) {
                        None => None,
                        Some((rune_id, q5)) => match take_u32(b, q5) {
                            None => None,
                            Some((rune_amount, q6)) => match take_str(b, q6) {
                                None => None,
                                Some((inscription_id, q7)) => if q7 == b.len() {
                                    Some(
                                        DepositParamsView {
                                            instruction,
                                            txid,
                                            vout,
                                            satoshi,
                                            rune_id,
                                            rune_amount,
                                            inscription_id,
                                        },
                                    )
                                } else {
                                    None
                                },
                            },
                        },
                    },
                },
            },
        },
    }
}

/// The settlement request that `b` holds, with no byte left over.
pub open spec fn parse_swap_params(b: Seq<u8>) -> Option<SwapParamsView> {
    match take_str(b, 0) {
        None => None,
        Some((txid, q1)) => match take_u8(b, q1) {
            None => None,
            Some((vout, q2)) => match take_bytes(b, q2) {
                None => None,
                Some((swap_tx, q3)) => if q3 == b.len() {
                    Some(SwapParamsView { txid, vout, swap_tx })
                } else {
                    None
                },
            },
        },
    }
}

/// Decodes a deposit request; `None` where the bytes are malformed.
pub fn decode_deposit_params(b: &[u8]) -> (r: Option<DepositParams>)
    ensures
        match r {
            Some(p) => parse_deposit_params(b@) == Some(p@),
            None => parse_deposit_params(b@) is None,
        },
{
    let (instruction, q1) = match read_u8(b, 0) {
        Some(x) => x,
        None => return None,
    };
    let (txid, q2) = match read_str(b, q1) {
        Some(x) => x,
        None => return None,
    };
    let (vout, q3) = match read_u8(b, q2) {
        Some(x) => x,
        None => return None,
    };
    let (satoshi, q4) = match read_u32(b, q3) {
        Some(x) => x,
        None => return None,
    };
    let (rune_id, q5) = match read_str(b, q4) {
        Some(x) => x,
        None => return None,
    };
    let (rune_amount, q6) = match read_u32(b, q5) {
        Some(x) => x,
        None => return None,
    };
    let (inscription_id, q7) = match read_str(b, q6) {
        Some(x) => x,
        None => return None,
    };
    if q7 != b.len() {
        return None;
    }
    Some(DepositParams { instruction, txid, vout, satoshi, rune_id, rune_amount, inscription_id })
}

/// Decodes a settlement request; `None` where the bytes are malformed.
pub fn decode_swap_params(b: &[u8]) -> (r: Option<SwapParams>)
    ensures
        match r {
            Some(p) => parse_swap_params(b@) == Some(p@),
            None => parse_swap_params(b@) is None,
        },
{
    let (txid, q1) = match read_str(b, 0) {
        Some(x) => x,
        None => return None,
    };
    let (vout, q2) = match read_u8(b, q1) {
        Some(x) => x,
        None => return None,
    };
    let (swap_tx, q3) = match read_bytes(b, q2) {
        Some(x) => x,
        None => return None,
    };
    if q3 != b.len() {
        return None;
    }
    Some(SwapParams { txid, vout, swap_tx })
}

} // verus!
