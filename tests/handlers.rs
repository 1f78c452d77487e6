use bitcoin::absolute::LockTime;
use bitcoin::transaction::Version;
use bitcoin::{Amount, OutPoint, ScriptBuf, Sequence, Transaction, TxIn, TxOut, Txid, Witness};
use lucky_spin::deposit::{deposit, ticket};
use lucky_spin::error::ProgramError;
use lucky_spin::params::{decode_deposit_params, decode_swap_params};
use lucky_spin::router::{decode_opcode, process_instruction, Opcode};
use lucky_spin::state::LuckySpinData;
use lucky_spin::swap::{rebuild_swap, swap, SourceTx, DRAFT_VERSION};

const SIGNER: [u8; 32] = [7u8; 32];

fn deposit_request(sub: u8, txid: &str, vout: u8, satoshi: u32, rune_id: &str) -> Vec<u8> {
    let mut data = vec![0u8];
    let body = borsh::to_vec(&(
        sub,
        txid.to_string(),
        vout,
        satoshi,
        rune_id.to_string(),
        0u32,
        String::new(),
    ))
    .unwrap();
    data.extend_from_slice(&body);
    data
}

fn swap_request(tx_bytes: &[u8]) -> Vec<u8> {
    let mut data = vec![2u8];
    let body = borsh::to_vec(&("abc123".to_string(), 0u8, tx_bytes.to_vec())).unwrap();
    data.extend_from_slice(&body);
    data
}

fn input(n: u8) -> TxIn {
    TxIn {
        previous_output: OutPoint { txid: bitcoin::consensus::deserialize::<Txid>(&[n; 32]).unwrap(), vout: n as u32 },
        script_sig: ScriptBuf::from_bytes(vec![n, n]),
        sequence: Sequence::MAX,
        witness: Witness::new(),
    }
}

fn output(sat: u64) -> TxOut {
    TxOut { value: Amount::from_sat(sat), script_pubkey: ScriptBuf::from_bytes(vec![0x51, 0x20]) }
}

fn source_tx(inputs: Vec<TxIn>, outputs: Vec<TxOut>) -> Vec<u8> {
    let tx = Transaction {
        version: Version::ONE,
        lock_time: LockTime::from_consensus(99),
        input: inputs,
        output: outputs,
    };
    bitcoin::consensus::serialize(&tx)
}

fn stored(buf: &[u8]) -> LuckySpinData {
    LuckySpinData::decode(buf).expect("record")
}

#[test]
fn opcode_bytes() {
    assert_eq!(decode_opcode(0), Some(Opcode::Deposit));
    assert_eq!(decode_opcode(1), Some(Opcode::Ticket));
    assert_eq!(decode_opcode(2), Some(Opcode::Swap));
    assert_eq!(decode_opcode(3), None);
}

#[test]
fn router_rejects_unknown_opcode() {
    for op in [3u8, 4, 17, 255] {
        let mut buf = vec![9u8; 64];
        let r = process_instruction(&mut buf, &[op, 0, 0], SIGNER);
        assert!(matches!(r, Err(ProgramError::InvalidInstruction)));
        assert_eq!(buf, vec![9u8; 64]);
    }
    let mut buf = vec![9u8; 64];
    assert!(matches!(process_instruction(&mut buf, &[], SIGNER), Err(ProgramError::InvalidInstruction)));
    assert_eq!(buf, vec![9u8; 64]);
}

#[test]
fn default_record_bytes() {
    let r = LuckySpinData::new();
    assert_eq!(r.encode(), vec![1u8, 0, 0, 0, 0, 0, 0, 0, 0, 0]);
}

#[test]
fn initialize_twice_gives_same_record() {
    let mut buf = vec![0xAAu8; 32];
    let req = deposit_request(0, "", 0, 0, "");
    assert!(deposit(&mut buf, &req).is_ok());
    let first = buf.clone();
    let mut expected = vec![1u8, 0, 0, 0, 0, 0, 0, 0, 0, 0];
    expected.extend_from_slice(&[0xAAu8; 22]);
    assert_eq!(first, expected);
    assert!(deposit(&mut buf, &req).is_ok());
    assert_eq!(buf, first);
}

#[test]
fn apply_records_deposit() {
    let mut buf = vec![0u8; 256];
    assert!(deposit(&mut buf, &deposit_request(0, "", 0, 0, "")).is_ok());
    assert!(process_instruction(&mut buf, &deposit_request(1, "abc123", 0, 50000, "RUNE1"), SIGNER).is_ok());
    let rec = stored(&buf);
    assert_eq!(rec.version, 1);
    assert_eq!(rec.deposits.len(), 1);
    assert_eq!(rec.deposits[0].txid, "abc123");
    assert_eq!(rec.deposits[0].vout, 0);
    assert_eq!(rec.deposits[0].satoshi, 50000);
    assert_eq!(rec.deposits[0].rune_id, "RUNE1");
    assert_eq!(rec.tickets, 0);
    assert!(!rec.settled);
}

#[test]
fn same_deposit_twice_is_not_doubled() {
    let mut buf = vec![0u8; 256];
    assert!(deposit(&mut buf, &deposit_request(0, "", 0, 0, "")).is_ok());
    assert!(deposit(&mut buf, &deposit_request(1, "abc123", 0, 50000, "RUNE1")).is_ok());
    assert!(deposit(&mut buf, &deposit_request(1, "abc123", 0, 50000, "RUNE1")).is_ok());
    let rec = stored(&buf);
    assert_eq!(rec.deposits.len(), 1);
    assert_eq!(rec.deposits[0].satoshi, 50000);
    assert!(deposit(&mut buf, &deposit_request(1, "abc123", 0, 70000, "RUNE2")).is_ok());
    let rec = stored(&buf);
    assert_eq!(rec.deposits.len(), 1);
    assert_eq!(rec.deposits[0].satoshi, 70000);
    assert_eq!(rec.deposits[0].rune_id, "RUNE2");
    assert!(deposit(&mut buf, &deposit_request(1, "abc123", 1, 10, "RUNE1")).is_ok());
    assert_eq!(stored(&buf).deposits.len(), 2);
}

#[test]
fn initialize_without_room_fails() {
    let mut buf = vec![5u8; 9];
    let r = deposit(&mut buf, &deposit_request(0, "", 0, 0, ""));
    assert!(matches!(r, Err(ProgramError::CapacityExceeded)));
    assert_eq!(buf, vec![5u8; 9]);
}

#[test]
fn deposit_without_room_fails() {
    let mut buf = vec![0u8; 20];
    assert!(deposit(&mut buf, &deposit_request(0, "", 0, 0, "")).is_ok());
    let before = buf.clone();
    let r = deposit(&mut buf, &deposit_request(1, "abc123", 0, 50000, "RUNE1"));
    assert!(matches!(r, Err(ProgramError::CapacityExceeded)));
    assert_eq!(buf, before);
}

#[test]
fn deposit_fills_buffer_exactly() {
    // 10 bytes of record, plus 4+6 txid, 1 vout, 4 satoshi, 4+5 rune, 4 amount, 4 inscription
    let mut buf = vec![0u8; 42];
    assert!(deposit(&mut buf, &deposit_request(0, "", 0, 0, "")).is_ok());
    assert!(deposit(&mut buf, &deposit_request(1, "abc123", 0, 50000, "RUNE1")).is_ok());
    assert_eq!(stored(&buf).deposits.len(), 1);
    let mut small = vec![0u8; 41];
    assert!(deposit(&mut small, &deposit_request(0, "", 0, 0, "")).is_ok());
    assert!(matches!(
        deposit(&mut small, &deposit_request(1, "abc123", 0, 50000, "RUNE1")),
        Err(ProgramError::CapacityExceeded)
    ));
}

#[test]
fn apply_before_initialize_fails() {
    let mut buf = vec![0u8; 64];
    let r = deposit(&mut buf, &deposit_request(1, "abc123", 0, 50000, "RUNE1"));
    assert!(matches!(r, Err(ProgramError::InvalidArgument)));
    assert_eq!(buf, vec![0u8; 64]);
}

#[test]
fn unknown_sub_instruction_fails() {
    let mut buf = vec![0u8; 64];
    let r = deposit(&mut buf, &deposit_request(2, "abc123", 0, 50000, "RUNE1"));
    assert!(matches!(r, Err(ProgramError::InvalidArgument)));
    assert_eq!(buf, vec![0u8; 64]);
}

#[test]
fn malformed_deposit_request_fails() {
    let mut buf = vec![0u8; 64];
    let mut req = deposit_request(0, "abc", 0, 1, "R");
    req.push(0);
    assert!(matches!(deposit(&mut buf, &req), Err(ProgramError::InvalidArgument)));
    assert!(matches!(deposit(&mut buf, &[0u8, 0, 9, 0]), Err(ProgramError::InvalidArgument)));
    assert_eq!(buf, vec![0u8; 64]);
}

#[test]
fn deposit_params_decode_fields() {
    let req = deposit_request(1, "abc123", 3, 50000, "RUNE1");
    let p = decode_deposit_params(&req[1..]).unwrap();
    assert_eq!(p.instruction, 1);
    assert_eq!(p.txid, "abc123");
    assert_eq!(p.vout, 3);
    assert_eq!(p.satoshi, 50000);
    assert_eq!(p.rune_id, "RUNE1");
    assert_eq!(p.rune_amount, 0);
    assert_eq!(p.inscription_id, "");
}

#[test]
fn deposit_params_text_must_be_utf8() {
    let mut bad = vec![1u8, 2, 0, 0, 0, 0xff, 0xfe, 0];
    bad.extend_from_slice(&[0, 0, 0, 0, 0, 0, 0, 0, 0, 0, 0, 0, 0, 0, 0, 0]);
    assert!(decode_deposit_params(&bad).is_none());
    let ok = borsh::to_vec(&(1u8, "é€".to_string(), 0u8, 1u32, "x".to_string(), 2u32, "i".to_string())).unwrap();
    let p = decode_deposit_params(&ok).unwrap();
    assert_eq!(p.txid, "é€");
    assert_eq!(p.rune_amount, 2);
    assert_eq!(p.inscription_id, "i");
}

#[test]
fn ticket_counts_deposits() {
    let mut buf = vec![0u8; 256];
    assert!(deposit(&mut buf, &deposit_request(0, "", 0, 0, "")).is_ok());
    assert!(deposit(&mut buf, &deposit_request(1, "a", 0, 1, "R")).is_ok());
    assert!(deposit(&mut buf, &deposit_request(1, "b", 0, 2, "R")).is_ok());
    assert!(deposit(&mut buf, &deposit_request(1, "a", 0, 3, "R")).is_ok());
    assert!(process_instruction(&mut buf, &[1u8], SIGNER).is_ok());
    assert_eq!(stored(&buf).tickets, 2);
}

#[test]
fn ticket_on_uninitialized_fails() {
    let mut buf = vec![0u8; 16];
    assert!(matches!(ticket(&mut buf), Err(ProgramError::InvalidArgument)));
    assert_eq!(buf, vec![0u8; 16]);
}

#[test]
fn ticket_fits_exact_buffer() {
    let mut rec = LuckySpinData::new();
    let mut buf = rec.encode();
    buf.truncate(10);
    assert!(ticket(&mut buf).is_ok());
    assert_eq!(buf, vec![1u8, 0, 0, 0, 0, 0, 0, 0, 0, 0]);
}

#[test]
fn swap_drops_first_input() {
    let ins = vec![input(1), input(2)];
    let outs = vec![output(50000)];
    let tx = source_tx(ins.clone(), outs.clone());
    let mut buf = vec![3u8; 16];
    let plan = process_instruction(&mut buf, &swap_request(&tx), SIGNER).unwrap().unwrap();
    assert_eq!(buf, vec![3u8; 16]);
    assert_eq!(plan.draft.version, DRAFT_VERSION);
    assert_eq!(plan.draft.lock_time, 0);
    assert_eq!(plan.draft.inputs.len(), 1);
    assert_eq!(plan.draft.inputs[0], bitcoin::consensus::serialize(&ins[1]));
    assert_eq!(plan.draft.outputs.len(), 1);
    assert_eq!(plan.draft.outputs[0], bitcoin::consensus::serialize(&outs[0]));
    assert_eq!(plan.inputs_to_sign.len(), 1);
    assert_eq!(plan.inputs_to_sign[0].index, 0);
    assert_eq!(plan.inputs_to_sign[0].signer, SIGNER);
}

#[test]
fn swap_keeps_order_of_many() {
    let ins = vec![input(1), input(2), input(3), input(4)];
    let outs = vec![output(1), output(2), output(3)];
    let tx = source_tx(ins.clone(), outs.clone());
    let plan = swap(&swap_request(&tx), SIGNER).unwrap();
    assert_eq!(plan.draft.inputs.len(), 3);
    for i in 0..3 {
        assert_eq!(plan.draft.inputs[i], bitcoin::consensus::serialize(&ins[i + 1]));
        assert_eq!(plan.inputs_to_sign[i].index, i);
    }
    for i in 0..3 {
        assert_eq!(plan.draft.outputs[i], bitcoin::consensus::serialize(&outs[i]));
    }
}

#[test]
fn swap_single_input_leaves_none() {
    let tx = source_tx(vec![input(1)], vec![output(5), output(6)]);
    let plan = swap(&swap_request(&tx), SIGNER).unwrap();
    assert!(plan.draft.inputs.is_empty());
    assert!(plan.inputs_to_sign.is_empty());
    assert_eq!(plan.draft.outputs.len(), 2);
}

#[test]
fn swap_zero_inputs_rejected() {
    let tx = source_tx(vec![], vec![output(5)]);
    let r = swap(&swap_request(&tx), SIGNER);
    assert!(matches!(r, Err(ProgramError::MalformedTransaction)));
    let empty = SourceTx { inputs: vec![], outputs: vec![vec![1u8, 2]] };
    assert!(matches!(rebuild_swap(&empty, SIGNER), Err(ProgramError::MalformedTransaction)));
}

#[test]
fn swap_rebuild_from_parts() {
    let src = SourceTx { inputs: vec![vec![1u8], vec![2u8, 2], vec![3u8]], outputs: vec![vec![9u8]] };
    let plan = rebuild_swap(&src, SIGNER).unwrap();
    assert_eq!(plan.draft.inputs, vec![vec![2u8, 2], vec![3u8]]);
    assert_eq!(plan.draft.outputs, vec![vec![9u8]]);
    assert_eq!(plan.inputs_to_sign.len(), 2);
    assert_eq!(plan.inputs_to_sign[1].index, 1);
}

#[test]
fn swap_malformed_transaction_rejected() {
    let r = swap(&swap_request(&[1u8, 2, 3]), SIGNER);
    assert!(matches!(r, Err(ProgramError::MalformedTransaction)));
    let mut tx = source_tx(vec![input(1), input(2)], vec![output(5)]);
    tx.push(0);
    assert!(matches!(swap(&swap_request(&tx), SIGNER), Err(ProgramError::MalformedTransaction)));
}

#[test]
fn swap_malformed_request_rejected() {
    assert!(matches!(swap(&[2u8, 1, 0], SIGNER), Err(ProgramError::InvalidArgument)));
    let p = decode_swap_params(&swap_request(&[4u8, 5])[1..]).unwrap();
    assert_eq!(p.txid, "abc123");
    assert_eq!(p.vout, 0);
    assert_eq!(p.swap_tx, vec![4u8, 5]);
}

fn record_bytes(entries: &[(&str, u8)], flag: u8) -> Vec<u8> {
    let mut b = vec![1u8];
    b.extend_from_slice(&(entries.len() as u32).to_le_bytes());
    for (txid, vout) in entries {
        b.extend_from_slice(&borsh::to_vec(&(txid.to_string(), *vout, 10u32, "R".to_string(), 0u32, String::new())).unwrap());
    }
    b.extend_from_slice(&3u32.to_le_bytes());
    b.push(flag);
    b
}

#[test]
fn record_decodes_with_trailing_bytes() {
    let mut b = record_bytes(&[("a", 0), ("a", 1)], 1);
    b.extend_from_slice(&[0xEEu8; 7]);
    let rec = LuckySpinData::decode(&b).unwrap();
    assert_eq!(rec.deposits.len(), 2);
    assert_eq!(rec.deposits[1].vout, 1);
    assert_eq!(rec.tickets, 3);
    assert!(rec.settled);
    assert_eq!(rec.encode(), b[..b.len() - 7].to_vec());
}

#[test]
fn record_with_bad_flag_rejected() {
    assert!(LuckySpinData::decode(&record_bytes(&[("a", 0)], 2)).is_none());
}

#[test]
fn record_with_repeated_deposit_rejected() {
    assert!(LuckySpinData::decode(&record_bytes(&[("a", 0), ("b", 0), ("a", 0)], 0)).is_none());
    let mut buf = record_bytes(&[("a", 0), ("a", 0)], 0);
    buf.extend_from_slice(&[0u8; 64]);
    let before = buf.clone();
    assert!(matches!(ticket(&mut buf), Err(ProgramError::InvalidArgument)));
    assert_eq!(buf, before);
}

#[test]
fn record_with_other_schema_rejected() {
    let mut b = record_bytes(&[], 0);
    b[0] = 2;
    assert!(LuckySpinData::decode(&b).is_none());
    assert!(LuckySpinData::decode(&[]).is_none());
}

#[test]
fn largest_vout_kept() {
    let mut buf = vec![0u8; 128];
    assert!(deposit(&mut buf, &deposit_request(0, "", 0, 0, "")).is_ok());
    assert!(deposit(&mut buf, &deposit_request(1, "ff", 255, u32::MAX, "R")).is_ok());
    let rec = stored(&buf);
    assert_eq!(rec.deposits[0].vout, 255);
    assert_eq!(rec.deposits[0].satoshi, u32::MAX);
}
