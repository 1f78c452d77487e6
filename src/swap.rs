//! The settlement engine: rebuilds an unsigned transaction from a previously
//! observed one, without its first (funding) input, and lists the inputs that
//! the participant's account must sign.
use vstd::prelude::*;
use crate::deposit::payload;
use crate::error::ProgramError;
use crate::params::{decode_swap_params, parse_swap_params};

verus! {

/// The protocol version of every rebuilt transaction.
pub const DRAFT_VERSION: i32 = 2;

/// A decoded transaction, each input and output kept in its consensus encoding.
pub struct SourceTx {
    pub inputs: Vec<Vec<u8>>,
    pub outputs: Vec<Vec<u8>>,
}

/// An unsigned transaction: version, lock time, and the consensus encoding of
/// each input (without witness) and each output, in order.
pub struct TxDraft {
    pub version: i32,
    pub lock_time: u32,
    pub inputs: Vec<Vec<u8>>,
    pub outputs: Vec<Vec<u8>>,
}

/// One input of the draft that `signer` must sign.
#[derive(Debug, Clone, Copy)]
pub struct InputToSign {
    pub index: usize,
    pub signer: [u8; 32],
}

/// A rebuilt transaction and the signatures it needs.
pub struct SwapPlan {
    pub draft: TxDraft,
    pub inputs_to_sign: Vec<InputToSign>,
}

/// The inputs and outputs, each in its consensus encoding, of the transaction
/// that `b` encodes; `None` where `b` is not exactly one transaction.
pub uninterp spec fn tx_parts(b: Seq<u8>) -> Option<(Seq<Seq<u8>>, Seq<Seq<u8>>)>;

/// Relies on bitcoin::consensus::deserialize::<Transaction>, which fails unless
/// the bytes hold exactly one transaction, and on bitcoin::consensus::serialize
/// to hand out each decoded input and output as its encoding.
#[verifier::external_body]
fn decode_transaction(b: &[u8]) -> (r: Option<SourceTx>)
    ensures
        r is Some <==> tx_parts(b@) is Some,
        r matches Some(t) ==> tx_parts(b@) == Some((t.inputs.deep_view(), t.outputs.deep_view())),
{
    let tx: bitcoin::Transaction = bitcoin::consensus::deserialize(b).ok()?;
    Some(SourceTx {
        inputs: tx.input.iter().map(bitcoin::consensus::serialize).collect(),
        outputs: tx.output.iter().map(bitcoin::consensus::serialize).collect(),
    })
}

/// The directive for a draft with `n` inputs: every input, in order, signed by `signer`.
pub open spec fn signs_all(signs: Seq<InputToSign>, n: int, signer: [u8; 32]) -> bool {
    &&& signs.len() == n
    &&& forall|i: int| 0 <= i < n ==> (#[trigger] signs[i]).index == i && signs[i].signer == signer
}

/// `plan` is the version-2, lock-time-zero draft with these inputs and
/// outputs, each of its inputs to be signed by `signer`.
pub open spec fn plan_is(plan: SwapPlan, ins: Seq<Seq<u8>>, outs: Seq<Seq<u8>>, signer: [u8; 32]) -> bool {
    &&& plan.draft.version == DRAFT_VERSION
    &&& plan.draft.lock_time == 0
    &&& plan.draft.inputs.deep_view() == ins
    &&& plan.draft.outputs.deep_view() == outs
    &&& signs_all(plan.inputs_to_sign@, ins.len() as int, signer)
}

/// The inputs and outputs of the draft rebuilt from a request `data`, or its error.
pub open spec fn swap_result(data: Seq<u8>) -> Result<(Seq<Seq<u8>>, Seq<Seq<u8>>), ProgramError> {
    match parse_swap_params(payload(data)) {
        None => Err(ProgramError::InvalidArgument),
        Some(p) => match tx_parts(p.swap_tx) {
            None => Err(ProgramError::MalformedTransaction),
            Some((ins, outs)) => if ins.len() == 0 {
                Err(ProgramError::MalformedTransaction)
            } else {
                Ok((ins.drop_first(), outs))
            },
        },
    }
}

fn copy_items(v: &Vec<Vec<u8>>, from: usize) -> (r: Vec<Vec<u8>>)
    requires
        from <= v@.len(),
    ensures
        r.deep_view() == v.deep_view().subrange(from as int, v@.len() as int),
{
    let mut r: Vec<Vec<u8>> = Vec::new();
    let mut i: usize = from;
    while i < v.len()
        invariant
            from <= i <= v@.len(),
            r.deep_view() =~= v.deep_view().subrange(from as int, i as int),
        decreases v@.len() - i,
    {
        let item = vstd::slice::slice_to_vec(v[i].as_slice());
        assert(item.deep_view() =~= v.deep_view()[i as int]);
        let ghost before = r.deep_view();
        r.push(item);
        assert(r.deep_view() =~= before.push(v.deep_view()[i as int]));
        i = i + 1;
        assert(r.deep_view() =~= v.deep_view().subrange(from as int, i as int));
    }
    r
}

/// Rebuilds the settlement transaction from a decoded source: version 2, lock
/// time zero, every input but the first in order, every output unchanged, and
/// each kept input to be signed by `signer` at its new index. A source with no
/// input is malformed.
pub fn rebuild_swap(src: &SourceTx, signer: [u8; 32]) -> (r: Result<SwapPlan, ProgramError>)
    ensures
        match r {
            Ok(plan) => src.inputs@.len() > 0 && plan_is(
                plan,
                src.inputs.deep_view().drop_first(),
                src.outputs.deep_view(),
                signer,
            ),
            Err(e) => src.inputs@.len() == 0 && e == ProgramError::MalformedTransaction,
        },
{
    if src.inputs.len() == 0 {
        return Err(ProgramError::MalformedTransaction);
    }
    let inputs = copy_items(&src.inputs, 1);
    let outputs = copy_items(&src.outputs, 0);
    assert(src.inputs.deep_view().subrange(1, src.inputs@.len() as int) =~= src.inputs.deep_view().drop_first());
    assert(src.outputs.deep_view().subrange(0, src.outputs@.len() as int) =~= src.outputs.deep_view());
    let mut signs: Vec<InputToSign> = Vec::new();
    let mut i: usize = 0;
    while i < inputs.len()
        invariant
            i <= inputs@.len(),
            signs_all(signs@, i as int, signer),
        decreases inputs@.len() - i,
    {
        signs.push(InputToSign { index: i, signer });
        i = i + 1;
    }
    assert(inputs.deep_view().len() == inputs@.len());
    let draft = TxDraft { version: DRAFT_VERSION, lock_time: 0, inputs, outputs };
    Ok(SwapPlan { draft, inputs_to_sign: signs })
}

/// Handles a Swap instruction: decodes the request and the transaction it
/// embeds, and rebuilds the settlement transaction for `signer` to sign.
pub fn swap(instruction_data: &[u8], signer: [u8; 32]) -> (r: Result<SwapPlan, ProgramError>)
    ensures
        match swap_result(instruction_data@) {
            Ok((ins, outs)) => r matches Ok(plan) && plan_is(plan, ins, outs, signer),
            Err(e) => r == Err::<SwapPlan, ProgramError>(e),
        },
{
    let body = if instruction_data.len() == 0 {
        assert(instruction_data@ =~= Seq::<u8>::empty());
        instruction_data
    } else {
        vstd::slice::slice_subrange(instruction_data, 1, instruction_data.len())
    };
    let params = match decode_swap_params(body) {
        Some(p) => p,
        None => return Err(ProgramError::InvalidArgument),
    };
    let src = match decode_transaction(params.swap_tx.as_slice()) {
        Some(t) => t,
        None => return Err(ProgramError::MalformedTransaction),
    };
    rebuild_swap(&src, signer)
}

} // verus!
