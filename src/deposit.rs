//! The Deposit and Ticket handlers: read the record from the account buffer,
//! change it, and write it back only once every check has passed.
use vstd::prelude::*;
use crate::error::ProgramError;
use crate::params::{decode_deposit_params, parse_deposit_params};
use crate::params::DepositParamsView;
use crate::state::{
    apply_deposit, default_state, deposit_fits, enc_state, find_deposit, grant_tickets,
    lemma_apply_deposit_wf, lemma_deposit_same_key, lemma_parse_deposit_params_fit,
    lemma_parse_state_wf, lemma_state_round_trip, parse_state, LuckySpinData,
};

verus! {

/// The request bytes of an instruction: all bytes after the opcode.
pub open spec fn payload(data: Seq<u8>) -> Seq<u8> {
    if data.len() == 0 {
        Seq::empty()
    } else {
        data.subrange(1, data.len() as int)
    }
}

/// `bytes` written over the start of the buffer, or a capacity error where
/// they do not fit; the buffer never changes length.
pub open spec fn commit(buf: Seq<u8>, bytes: Seq<u8>) -> Result<Seq<u8>, ProgramError> {
    if bytes.len() <= buf.len() {
        Ok(bytes + buf.subrange(bytes.len() as int, buf.len() as int))
    } else {
        Err(ProgramError::CapacityExceeded)
    }
}

/// The buffer after a Deposit instruction `data`, or its error.
pub open spec fn deposit_result(buf: Seq<u8>, data: Seq<u8>) -> Result<Seq<u8>, ProgramError> {
    match parse_deposit_params(payload(data)) {
        None => Err(ProgramError::InvalidArgument),
        Some(p) => if p.instruction == 0 {
            commit(buf, enc_state(default_state()))
        } else if p.instruction == 1 {
            match parse_state(buf) {
                None => Err(ProgramError::InvalidArgument),
                Some(s) => if deposit_fits(s, p) {
                    commit(buf, enc_state(apply_deposit(s, p)))
                } else {
                    Err(ProgramError::CapacityExceeded)
                },
            }
        } else {
            Err(ProgramError::InvalidArgument)
        },
    }
}

/// The buffer after a Ticket instruction, or its error.
pub open spec fn ticket_result(buf: Seq<u8>) -> Result<Seq<u8>, ProgramError> {
    match parse_state(buf) {
        None => Err(ProgramError::InvalidArgument),
        Some(s) => commit(buf, enc_state(grant_tickets(s))),
    }
}

/// Writes `bytes` over the start of `buf` where they fit.
pub fn write_prefix(buf: &mut [u8], bytes: &[u8]) -> (r: Result<(), ProgramError>)
    ensures
        match commit(old(buf)@, bytes@) {
            Ok(nb) => r is Ok && final(buf)@ == nb,
            Err(e) => r == Err::<(), ProgramError>(e) && final(buf)@ == old(buf)@,
        },
{
    if bytes.len() > buf.len() {
        return Err(ProgramError::CapacityExceeded);
    }
    let mut i: usize = 0;
    while i < bytes.len()
        invariant
            i <= bytes@.len() <= buf@.len(),
            buf@.len() == old(buf)@.len(),
            forall|k: int| 0 <= k < i ==> buf@[k] == bytes@[k],
            forall|k: int| i <= k < buf@.len() ==> buf@[k] == old(buf)@[k],
        decreases bytes@.len() - i,
    {
        buf[i] = bytes[i];
        i = i + 1;
    }
    assert(buf@ =~= bytes@ + old(buf)@.subrange(bytes@.len() as int, old(buf)@.len() as int));
    Ok(())
}

fn instruction_payload(data: &[u8]) -> (r: &[u8])
    ensures
        r@ == payload(data@),
{
    if data.len() == 0 {
        assert(data@ =~= Seq::<u8>::empty());
        data
    } else {
        vstd::slice::slice_subrange(data, 1, data.len())
    }
}

/// Handles a Deposit instruction on the account buffer: sub-instruction 0
/// writes the default record, 1 records the deposit in the stored record.
pub fn deposit(account_data: &mut [u8], instruction_data: &[u8]) -> (r: Result<(), ProgramError>)
    ensures
        match deposit_result(old(account_data)@, instruction_data@) {
            Ok(nb) => r is Ok && final(account_data)@ == nb,
            Err(e) => r == Err::<(), ProgramError>(e),
        },
        r is Err ==> final(account_data)@ == old(account_data)@,
{
    let params = match decode_deposit_params(instruction_payload(instruction_data)) {
        Some(p) => p,
        None => return Err(ProgramError::InvalidArgument),
    };
    if params.instruction == 0 {
        let record = LuckySpinData::new();
        let bytes = record.encode();
        write_prefix(account_data, bytes.as_slice())
    } else if params.instruction == 1 {
        let mut record = match LuckySpinData::decode(account_data) {
            Some(s) => s,
            None => return Err(ProgramError::InvalidArgument),
        };
        proof {
            lemma_parse_state_wf(old(account_data)@);
            lemma_parse_deposit_params_fit(payload(instruction_data@));
        }
        if record.deposits.len() as u64 >= u32::MAX as u64 && find_deposit(
            &record.deposits,
            record.deposits.len(),
            &params.txid,
            params.vout,
        ).is_none() {
            return Err(ProgramError::CapacityExceeded);
        }
        record.record_deposit(&params);
        let bytes = record.encode();
        write_prefix(account_data, bytes.as_slice())
    } else {
        Err(ProgramError::InvalidArgument)
    }
}

/// Handles a Ticket instruction: grants one ticket per recorded deposit.
pub fn ticket(account_data: &mut [u8]) -> (r: Result<(), ProgramError>)
    ensures
        match ticket_result(old(account_data)@) {
            Ok(nb) => r is Ok && final(account_data)@ == nb,
            Err(e) => r == Err::<(), ProgramError>(e),
        },
        r is Err ==> final(account_data)@ == old(account_data)@,
{
    let mut record = match LuckySpinData::decode(account_data) {
        Some(s) => s,
        None => return Err(ProgramError::InvalidArgument),
    };
    proof {
        lemma_parse_state_wf(old(account_data)@);
    }
    record.grant_tickets();
    let bytes = record.encode();
    write_prefix(account_data, bytes.as_slice())
}

/// Initializing twice gives the buffer that initializing once gives.
pub proof fn lemma_initialize_idempotent(buf: Seq<u8>, data: Seq<u8>)
    requires
        parse_deposit_params(payload(data)) matches Some(p) && p.instruction == 0,
    ensures
        deposit_result(buf, data) matches Ok(b1) ==> deposit_result(b1, data) == Ok::<Seq<u8>, ProgramError>(b1),
{
    if let Ok(b1) = deposit_result(buf, data) {
        let e = enc_state(default_state());
        assert(b1.subrange(0, e.len() as int) =~= e);
        assert(e + b1.subrange(e.len() as int, b1.len() as int) =~= b1);
    }
}

/// A record whose serialized form is longer than the account buffer is
/// refused with a capacity error, by Deposit and by Ticket alike (their
/// contracts leave the buffer unchanged on every error).
pub proof fn lemma_capacity_safety(buf: Seq<u8>, data: Seq<u8>)
    ensures
        match parse_deposit_params(payload(data)) {
            Some(p) => (p.instruction == 0 && enc_state(default_state()).len() > buf.len()) ==> deposit_result(buf, data)
                == Err::<Seq<u8>, ProgramError>(ProgramError::CapacityExceeded),
            None => true,
        },
        match (parse_deposit_params(payload(data)), parse_state(buf)) {
            (Some(p), Some(s)) => (p.instruction == 1 && enc_state(apply_deposit(s, p)).len() > buf.len())
                ==> deposit_result(buf, data) == Err::<Seq<u8>, ProgramError>(ProgramError::CapacityExceeded),
            _ => true,
        },
        match parse_state(buf) {
            Some(s) => enc_state(grant_tickets(s)).len() > buf.len() ==> ticket_result(buf)
                == Err::<Seq<u8>, ProgramError>(ProgramError::CapacityExceeded),
            None => true,
        },
{
}

/// Two Deposit requests for the same `(txid, vout)`, one after the other,
/// store the record that the second alone would give: the deposit is kept
/// once, with the second request's metadata, and the entry count does not grow.
pub proof fn lemma_deposit_twice_same_key(
    buf: Seq<u8>,
    data1: Seq<u8>,
    data2: Seq<u8>,
    first: DepositParamsView,
    second: DepositParamsView,
)
    requires
        parse_deposit_params(payload(data1)) == Some(first),
        parse_deposit_params(payload(data2)) == Some(second),
        first.instruction == 1,
        second.instruction == 1,
        first.txid == second.txid,
        first.vout == second.vout,
    ensures
        match deposit_result(buf, data1) {
            Ok(b1) => match deposit_result(b1, data2) {
                Ok(b2) => parse_state(b2) == Some(apply_deposit(parse_state(buf).unwrap(), second))
                    && parse_state(b2).unwrap().deposits.len() == parse_state(b1).unwrap().deposits.len(),
                Err(_) => true,
            },
            Err(_) => true,
        },
{
    if let Ok(b1) = deposit_result(buf, data1) {
        let s = parse_state(buf).unwrap();
        lemma_parse_state_wf(buf);
        lemma_apply_deposit_wf(s, first);
        let s1 = apply_deposit(s, first);
        let e1 = enc_state(s1);
        lemma_state_round_trip(s1, buf.subrange(e1.len() as int, buf.len() as int));
        if let Ok(b2) = deposit_result(b1, data2) {
            lemma_apply_deposit_wf(s1, second);
            let s2 = apply_deposit(s1, second);
            let e2 = enc_state(s2);
            lemma_state_round_trip(s2, b1.subrange(e2.len() as int, b1.len() as int));
            lemma_deposit_same_key(s, first, second);
        }
    }
}

} // verus!
