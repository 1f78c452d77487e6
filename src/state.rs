//! The state record persisted at the start of the account buffer.
use vstd::prelude::*;
use crate::params::{parse_deposit_params, DepositParams, DepositParamsView};
use vstd::utf8::{
    decode_utf8_encode_utf8, encode_utf8, encode_utf8_decode_utf8, encode_utf8_valid_utf8, valid_utf8,
};
use crate::wire::{
    enc_bool, enc_str, le32, put_bool, put_str, put_u32, put_u8, read_bool, read_str, read_u32,
    read_u8, str_fits, take_bool, take_bytes, take_str, take_u32, take_u8,
};

verus! {

/// The schema tag of the record layout below.
pub const STATE_VERSION: u8 = 1;

/// One recorded deposit, identified by `(txid, vout)`.
#[derive(Debug, Clone)]
pub struct DepositEntry {
    pub txid: String,
    pub vout: u8,
    pub satoshi: u32,
    pub rune_id: String,
    pub rune_amount: u32,
    pub inscription_id: String,
}

pub struct EntryView {
    pub txid: Seq<char>,
    pub vout: u8,
    pub satoshi: u32,
    pub rune_id: Seq<char>,
    pub rune_amount: u32,
    pub inscription_id: Seq<char>,
}

impl View for DepositEntry {
    type V = EntryView;

    open spec fn view(&self) -> EntryView {
        EntryView {
            txid: self.txid@,
            vout: self.vout,
            satoshi: self.satoshi,
            rune_id: self.rune_id@,
            rune_amount: self.rune_amount,
            inscription_id: self.inscription_id@,
        }
    }
}

/// A participant's lottery state: the schema tag, the deposits seen, the
/// tickets granted for them, and whether a settlement has completed.
#[derive(Debug, Clone)]
pub struct LuckySpinData {
    pub version: u8,
    pub deposits: Vec<DepositEntry>,
    pub tickets: u32,
    pub settled: bool,
}

pub struct StateView {
    pub version: u8,
    pub deposits: Seq<EntryView>,
    pub tickets: u32,
    pub settled: bool,
}

impl View for LuckySpinData {
    type V = StateView;

    open spec fn view(&self) -> StateView {
        StateView {
            version: self.version,
            deposits: entries_view(self.deposits@),
            tickets: self.tickets,
            settled: self.settled,
        }
    }
}

pub open spec fn entries_view(es: Seq<DepositEntry>) -> Seq<EntryView> {
    es.map_values(|e: DepositEntry| e@)
}

pub open spec fn entry_fits(e: EntryView) -> bool {
    str_fits(e.txid) && str_fits(e.rune_id) && str_fits(e.inscription_id)
}

/// No two deposits share an identifier.
pub open spec fn keys_unique(es: Seq<EntryView>) -> bool {
    forall|i: int, j: int|
        0 <= i < es.len() && 0 <= j < es.len() && i != j ==> !(#[trigger] es[i].txid == #[trigger] es[j].txid
            && es[i].vout == es[j].vout)
}

/// A record that can be encoded and keeps each deposit once.
pub open spec fn state_wf(s: StateView) -> bool {
    &&& s.deposits.len() <= u32::MAX
    &&& forall|i: int| 0 <= i < s.deposits.len() ==> entry_fits(#[trigger] s.deposits[i])
    &&& keys_unique(s.deposits)
}

pub open spec fn default_state() -> StateView {
    StateView { version: STATE_VERSION, deposits: Seq::empty(), tickets: 0, settled: false }
}

pub open spec fn enc_entry(e: EntryView) -> Seq<u8> {
    enc_str(e.txid) + seq![e.vout] + le32(e.satoshi) + enc_str(e.rune_id) + le32(e.rune_amount)
        + enc_str(e.inscription_id)
}

pub open spec fn enc_entries(es: Seq<EntryView>) -> Seq<u8>
    decreases es.len(),
{
    if es.len() == 0 {
        Seq::empty()
    } else {
        enc_entries(es.drop_last()) + enc_entry(es.last())
    }
}

/// The serialized form of a record: tag, deposit count, deposits, tickets, flag.
pub open spec fn enc_state(s: StateView) -> Seq<u8> {
    seq![s.version] + le32(s.deposits.len() as u32) + enc_entries(s.deposits) + le32(s.tickets)
        + enc_bool(s.settled)
}

pub open spec fn take_entry(b: Seq<u8>, pos: int) -> Option<(EntryView, int)> {
    match take_str(b, pos) {
        None => None,
        Some((txid, q1)) => match take_u8(b, q1) {
            None => None,
            Some((vout, q2)) => match take_u32(b, q2) {
                None => None,
                Some((satoshi, q3)) => match take_str(b, q3) {
                    None => None,
                    Some((rune_id, q4)) => match take_u32(b, q4) {
                        None => None,
                        Some((rune_amount, q5)) => match take_str(b, q5) {
                            None => None,
                            Some((inscription_id, q6)) => Some(
                                (
                                    EntryView {
                                        txid,
                                        vout,
                                        satoshi,
                                        rune_id,
                                        rune_amount,
                                        inscription_id,
                                    },
                                    q6,
                                ),
                            ),
                        },
                    },
                },
            },
        },
    }
}

/// `n` deposits read one after another from `pos`.
pub open spec fn take_entries(b: Seq<u8>, pos: int, n: nat) -> Option<(Seq<EntryView>, int)>
    decreases n,
{
    if n == 0 {
        Some((Seq::empty(), pos))
    } else {
        match take_entries(b, pos, (n - 1) as nat) {
            None => None,
            Some((es, p)) => match take_entry(b, p) {
                None => None,
                Some((e, q)) => Some((es.push(e), q)),
            },
        }
    }
}

/// The record at the start of `b` (bytes after it are ignored), where its tag
/// is the current schema and its deposits are unique.
pub open spec fn parse_state(b: Seq<u8>) -> Option<StateView> {
    match take_u8(b, 0) {
        None => None,
        Some((version, q1)) => if version != STATE_VERSION {
            None
        } else {
            match take_u32(b, q1) {
                None => None,
                Some((n, q2)) => match take_entries(b, q2, n as nat) {
                    None => None,
                    Some((deposits, q3)) => match take_u32(b, q3) {
                        None => None,
                        Some((tickets, q4)) => match take_bool(b, q4) {
                            None => None,
                            Some((settled, _q5)) => if keys_unique(deposits) {
                                Some(StateView { version, deposits, tickets, settled })
                            } else {
                                None
                            },
                        },
                    },
                },
            }
        },
    }
}

pub open spec fn entry_of(p: DepositParamsView) -> EntryView {
    EntryView {
        txid: p.txid,
        vout: p.vout,
        satoshi: p.satoshi,
        rune_id: p.rune_id,
        rune_amount: p.rune_amount,
        inscription_id: p.inscription_id,
    }
}

pub open spec fn has_key_at(es: Seq<EntryView>, i: int, txid: Seq<char>, vout: u8) -> bool {
    0 <= i < es.len() && es[i].txid == txid && es[i].vout == vout
}

/// Records a deposit: an entry with the same `(txid, vout)` is replaced in
/// place, otherwise the entry is appended.
pub open spec fn apply_deposit(s: StateView, p: DepositParamsView) -> StateView {
    let deposits = if exists|i: int| has_key_at(s.deposits, i, p.txid, p.vout) {
        let i = choose|i: int| has_key_at(s.deposits, i, p.txid, p.vout);
        s.deposits.update(i, entry_of(p))
    } else {
        s.deposits.push(entry_of(p))
    };
    StateView { deposits, ..s }
}

/// Whether `apply_deposit` keeps the record encodable.
pub open spec fn deposit_fits(s: StateView, p: DepositParamsView) -> bool {
    &&& entry_fits(entry_of(p))
    &&& (s.deposits.len() < u32::MAX || exists|i: int| has_key_at(s.deposits, i, p.txid, p.vout))
}

/// Grants one ticket for each recorded deposit.
pub open spec fn grant_tickets(s: StateView) -> StateView {
    StateView { tickets: s.deposits.len() as u32, ..s }
}


/// Reading `n` deposits gives `n` of them.
pub proof fn lemma_take_entries_len(b: Seq<u8>, pos: int, n: nat)
    requires
        take_entries(b, pos, n) is Some,
    ensures
        take_entries(b, pos, n).unwrap().0.len() == n,
    decreases n,
{
    if n > 0 {
        lemma_take_entries_len(b, pos, (n - 1) as nat);
    }
}

/// A prefix of the deposits read from `pos` is what reading fewer of them gives.
pub proof fn lemma_take_entries_prefix(b: Seq<u8>, pos: int, k: nat, n: nat)
    requires
        k <= n,
        take_entries(b, pos, n) is Some,
    ensures
        take_entries(b, pos, k) is Some,
        take_entries(b, pos, k).unwrap().0 == take_entries(b, pos, n).unwrap().0.subrange(0, k as int),
    decreases n,
{
    lemma_take_entries_len(b, pos, n);
    let es = take_entries(b, pos, n).unwrap().0;
    if k == n {
        assert(es.subrange(0, k as int) =~= es);
    } else {
        let prev = take_entries(b, pos, (n - 1) as nat).unwrap();
        let e = take_entry(b, prev.1).unwrap().0;
        assert(es == prev.0.push(e));
        lemma_take_entries_len(b, pos, (n - 1) as nat);
        lemma_take_entries_prefix(b, pos, k, (n - 1) as nat);
        assert(prev.0.subrange(0, k as int) =~= es.subrange(0, k as int));
    }
}

/// The position of a deposit `(txid, vout)` among the first `end` entries.
pub fn find_deposit(es: &Vec<DepositEntry>, end: usize, txid: &String, vout: u8) -> (r: Option<usize>)
    requires
        end <= es@.len(),
    ensures
        match r {
            Some(i) => i < end && has_key_at(entries_view(es@), i as int, txid@, vout),
            None => forall|i: int|
                0 <= i < end ==> !#[trigger] has_key_at(entries_view(es@), i, txid@, vout),
        },
{
    let mut i: usize = 0;
    while i < end
        invariant
            i <= end <= es@.len(),
            forall|j: int|
                0 <= j < i ==> !#[trigger] has_key_at(entries_view(es@), j, txid@, vout),
        decreases end - i,
    {
        if es[i].vout == vout && es[i].txid == *txid {
            return Some(i);
        }
        i = i + 1;
    }
    None
}

fn read_entry(b: &[u8], pos: usize) -> (r: Option<(DepositEntry, usize)>)
    ensures
        match r {
            Some((e, p)) => take_entry(b@, pos as int) == Some((e@, p as int)),
            None => take_entry(b@, pos as int) is None,
        },
{
    let (txid, q1) = match read_str(b, pos) {
        Some(x) => x,
        None => return None,
    };
    let (vout, q2) = match read_u8(b, q1) {
        Some(x) => x,
        None => return None,
    };
    let (satoshi, q3) = match read_u32(b, q2) {
        Some(x) => x,
        None => return None,
    };
    let (rune_id, q4) = match read_str(b, q3) {
        Some(x) => x,
        None => return None,
    };
    let (rune_amount, q5) = match read_u32(b, q4) {
        Some(x) => x,
        None => return None,
    };
    let (inscription_id, q6) = match read_str(b, q5) {
        Some(x) => x,
        None => return None,
    };
    Some((DepositEntry { txid, vout, satoshi, rune_id, rune_amount, inscription_id }, q6))
}

impl LuckySpinData {
    /// The default record of the current schema, with no deposits.
    pub fn new() -> (r: LuckySpinData)
        ensures
            r@ == default_state(),
    {
        let r = LuckySpinData { version: STATE_VERSION, deposits: Vec::new(), tickets: 0, settled: false };
        assert(r@.deposits =~= Seq::<EntryView>::empty());
        r
    }

    /// Reads the record at the start of `b`; `None` where it is malformed,
    /// of another schema, or lists a deposit twice.
    pub fn decode(b: &[u8]) -> (r: Option<LuckySpinData>)
        ensures
            match r {
                Some(s) => parse_state(b@) == Some(s@),
                None => parse_state(b@) is None,
            },
    {
        let (version, q1) = match read_u8(b, 0) {
            Some(x) => x,
            None => return None,
        };
        if version != STATE_VERSION {
            return None;
        }
        let (n, q2) = match read_u32(b, q1) {
            Some(x) => x,
            None => return None,
        };
        let mut deposits: Vec<DepositEntry> = Vec::new();
        let mut pos = q2;
        let mut i: u32 = 0;
        while i < n
            invariant
                i <= n,
                take_u8(b@, 0) == Some((version, q1 as int)),
                version == STATE_VERSION,
                take_u32(b@, q1 as int) == Some((n, q2 as int)),
                take_entries(b@, q2 as int, i as nat) == Some(
                    (entries_view(deposits@), pos as int),
                ),
            decreases n - i,
        {
            match read_entry(b, pos) {
                Some((e, q)) => {
                    let ghost old_view = entries_view(deposits@);
                    deposits.push(e);
                    assert(entries_view(deposits@) =~= old_view.push(e@));
                    pos = q;
                    i = i + 1;
                },
                None => {
                    proof {
                        assert(take_entries(b@, q2 as int, (i + 1) as nat) is None);
                        if take_entries(b@, q2 as int, n as nat) is Some {
                            lemma_take_entries_prefix(b@, q2 as int, (i + 1) as nat, n as nat);
                        }
                    }
                    return None;
                },
            }
        }
        let (tickets, q4) = match read_u32(b, pos) {
            Some(x) => x,
            None => return None,
        };
        let (settled, _q5) = match read_bool(b, q4) {
            Some(x) => x,
            None => return None,
        };
        let ghost es = entries_view(deposits@);
        let mut j: usize = 0;
        while j < deposits.len()
            invariant
                j <= deposits@.len(),
                take_u8(b@, 0) == Some((version, q1 as int)),
                version == STATE_VERSION,
                take_u32(b@, q1 as int) == Some((n, q2 as int)),
                take_entries(b@, q2 as int, n as nat) == Some((es, pos as int)),
                take_u32(b@, pos as int) == Some((tickets, q4 as int)),
                take_bool(b@, q4 as int) is Some,
                es == entries_view(deposits@),
                forall|a: int, c: int|
                    0 <= a < c < j ==> !(#[trigger] es[a].txid == #[trigger] es[c].txid && es[a].vout
                        == es[c].vout),
            decreases deposits@.len() - j,
        {
            if let Some(a) = find_deposit(&deposits, j, &deposits[j].txid, deposits[j].vout) {
                assert(es[j as int] == deposits@[j as int]@);
                assert(es[a as int].txid == es[j as int].txid);
                assert(!keys_unique(es));
                return None;
            }
            proof {
                assert(es[j as int] == deposits@[j as int]@);
                assert forall|a: int, c: int| 0 <= a < c < j + 1 implies !(#[trigger] es[a].txid
                    == #[trigger] es[c].txid && es[a].vout == es[c].vout) by {
                    if c == j {
                        assert(!has_key_at(es, a, deposits@[j as int].txid@, deposits@[j as int].vout));
                    }
                }
            }
            j = j + 1;
        }
        Some(LuckySpinData { version, deposits, tickets, settled })
    }

    /// Records the deposit that `p` describes (see `apply_deposit`).
    pub fn record_deposit(&mut self, p: &DepositParams)
        requires
            state_wf(old(self)@),
            deposit_fits(old(self)@, p@),
        ensures
            final(self)@ == apply_deposit(old(self)@, p@),
            state_wf(final(self)@),
    {
        let e = DepositEntry {
            txid: p.txid.clone(),
            vout: p.vout,
            satoshi: p.satoshi,
            rune_id: p.rune_id.clone(),
            rune_amount: p.rune_amount,
            inscription_id: p.inscription_id.clone(),
        };
        let ghost s0 = self@;
        proof {
            lemma_apply_deposit_wf(s0, p@);
        }
        match find_deposit(&self.deposits, self.deposits.len(), &p.txid, p.vout) {
            Some(i) => {
                proof {
                    assert(has_key_at(s0.deposits, i as int, p.txid@, p.vout));
                    let k = choose|k: int| has_key_at(s0.deposits, k, p.txid@, p.vout);
                    assert(s0.deposits[k].txid == s0.deposits[i as int].txid);
                    assert(k == i as int);
                }
                self.deposits[i] = e;
                assert(self@.deposits =~= s0.deposits.update(i as int, entry_of(p@)));
            },
            None => {
                self.deposits.push(e);
                assert(self@.deposits =~= s0.deposits.push(entry_of(p@)));
            },
        }
    }

    /// Grants one ticket for each recorded deposit.
    pub fn grant_tickets(&mut self)
        requires
            state_wf(old(self)@),
        ensures
            final(self)@ == grant_tickets(old(self)@),
            state_wf(final(self)@),
    {
        self.tickets = self.deposits.len() as u32;
    }

    /// Serializes the record.
    pub fn encode(&self) -> (r: Vec<u8>)
        requires
            state_wf(self@),
        ensures
            r@ == enc_state(self@),
    {
        let mut out: Vec<u8> = Vec::new();
        put_u8(&mut out, self.version);
        put_u32(&mut out, self.deposits.len() as u32);
        let ghost head = out@;
        let mut i: usize = 0;
        while i < self.deposits.len()
            invariant
                i <= self.deposits@.len(),
                state_wf(self@),
                out@ == head + enc_entries(self@.deposits.subrange(0, i as int)),
            decreases self.deposits@.len() - i,
        {
            let e = &self.deposits[i];
            assert(entry_fits(self@.deposits[i as int]));
            let ghost before = out@;
            put_str(&mut out, &e.txid);
            put_u8(&mut out, e.vout);
            put_u32(&mut out, e.satoshi);
            put_str(&mut out, &e.rune_id);
            put_u32(&mut out, e.rune_amount);
            put_str(&mut out, &e.inscription_id);
            assert(out@ =~= before + enc_entry(e@));
            let ghost es = self@.deposits.subrange(0, i + 1);
            assert(es.drop_last() =~= self@.deposits.subrange(0, i as int));
            i = i + 1;
        }
        assert(self@.deposits.subrange(0, i as int) =~= self@.deposits);
        put_u32(&mut out, self.tickets);
        put_bool(&mut out, self.settled);
        assert(out@ =~= enc_state(self@));
        out
    }
}

} // verus!

verus! {

/// A second deposit with the same identifier replaces the first: recording
/// both gives the record that recording the second alone gives, so an amount
/// is never counted twice.
pub proof fn lemma_deposit_same_key(s: StateView, first: DepositParamsView, second: DepositParamsView)
    requires
        state_wf(s),
        first.txid == second.txid,
        first.vout == second.vout,
    ensures
        apply_deposit(apply_deposit(s, first), second) == apply_deposit(s, second),
        apply_deposit(apply_deposit(s, first), second).deposits.len() == apply_deposit(s, first).deposits.len(),
{
    let s1 = apply_deposit(s, first);
    if exists|i: int| has_key_at(s.deposits, i, first.txid, first.vout) {
        let i = choose|i: int| has_key_at(s.deposits, i, first.txid, first.vout);
        assert(has_key_at(s1.deposits, i, second.txid, second.vout));
        let j = choose|j: int| has_key_at(s1.deposits, j, second.txid, second.vout);
        if j != i {
            assert(s.deposits[j].txid == s.deposits[i].txid);
        }
        assert(s1.deposits.update(i, entry_of(second)) =~= s.deposits.update(i, entry_of(second)));
    } else {
        let n = s.deposits.len() as int;
        assert(has_key_at(s1.deposits, n, second.txid, second.vout));
        let j = choose|j: int| has_key_at(s1.deposits, j, second.txid, second.vout);
        if j != n {
            assert(has_key_at(s.deposits, j, first.txid, first.vout));
        }
        assert(s1.deposits.update(n, entry_of(second)) =~= s.deposits.push(entry_of(second)));
    }
}

} // verus!

verus! {

/// A text read with a four-byte length prefix can be written back with one.
pub proof fn lemma_take_str_fits(b: Seq<u8>, pos: int)
    ensures
        take_str(b, pos) matches Some((s, _p)) ==> str_fits(s),
{
    if let Some((bytes, _q)) = take_bytes(b, pos) {
        if valid_utf8(bytes) {
            decode_utf8_encode_utf8(bytes);
        }
    }
}

pub proof fn lemma_take_entry_fits(b: Seq<u8>, pos: int)
    ensures
        take_entry(b, pos) matches Some((e, _p)) ==> entry_fits(e),
{
    if let Some((txid, q1)) = take_str(b, pos) {
        lemma_take_str_fits(b, pos);
        if let Some((_v, q2)) = take_u8(b, q1) {
            if let Some((_s, q3)) = take_u32(b, q2) {
                lemma_take_str_fits(b, q3);
                if let Some((_r, q4)) = take_str(b, q3) {
                    if let Some((_a, q5)) = take_u32(b, q4) {
                        lemma_take_str_fits(b, q5);
                    }
                }
            }
        }
    }
}

pub proof fn lemma_take_entries_fit(b: Seq<u8>, pos: int, n: nat)
    ensures
        take_entries(b, pos, n) matches Some((es, _p)) ==> forall|i: int|
            0 <= i < es.len() ==> entry_fits(#[trigger] es[i]),
    decreases n,
{
    if n > 0 {
        lemma_take_entries_fit(b, pos, (n - 1) as nat);
        if let Some((es, p)) = take_entries(b, pos, (n - 1) as nat) {
            lemma_take_entry_fits(b, p);
            if let Some((e, _q)) = take_entry(b, p) {
                let all = es.push(e);
                assert forall|i: int| 0 <= i < all.len() implies entry_fits(#[trigger] all[i]) by {
                    if i < es.len() {
                        assert(all[i] == es[i]);
                    }
                }
            }
        }
    }
}

/// Every record read from bytes is well formed.
pub proof fn lemma_parse_state_wf(b: Seq<u8>)
    ensures
        parse_state(b) matches Some(s) ==> state_wf(s),
{
    if let Some((_v, q1)) = take_u8(b, 0) {
        if let Some((n, q2)) = take_u32(b, q1) {
            lemma_take_entries_fit(b, q2, n as nat);
            if take_entries(b, q2, n as nat) is Some {
                lemma_take_entries_len(b, q2, n as nat);
            }
        }
    }
}

/// Every deposit request read from bytes describes an entry that can be written back.
pub proof fn lemma_parse_deposit_params_fit(b: Seq<u8>)
    ensures
        parse_deposit_params(b) matches Some(p) ==> entry_fits(entry_of(p)),
{
    if let Some((_i, q1)) = take_u8(b, 0) {
        lemma_take_str_fits(b, q1);
        if let Some((_t, q2)) = take_str(b, q1) {
            if let Some((_v, q3)) = take_u8(b, q2) {
                if let Some((_s, q4)) = take_u32(b, q3) {
                    lemma_take_str_fits(b, q4);
                    if let Some((_r, q5)) = take_str(b, q4) {
                        if let Some((_a, q6)) = take_u32(b, q5) {
                            lemma_take_str_fits(b, q6);
                        }
                    }
                }
            }
        }
    }
}

} // verus!

verus! {

/// `x` stands in `b` at `pos`.
pub open spec fn bytes_at(b: Seq<u8>, pos: int, x: Seq<u8>) -> bool {
    0 <= pos && pos + x.len() <= b.len() && b.subrange(pos, pos + x.len()) == x
}

proof fn lemma_at_split(b: Seq<u8>, pos: int, x: Seq<u8>, y: Seq<u8>)
    requires
        bytes_at(b, pos, x + y),
    ensures
        bytes_at(b, pos, x),
        bytes_at(b, pos + x.len(), y),
{
    let xy = x + y;
    assert(b.subrange(pos, pos + x.len()) =~= xy.subrange(0, x.len() as int));
    assert(xy.subrange(0, x.len() as int) =~= x);
    assert(b.subrange(pos + x.len(), pos + x.len() + y.len()) =~= xy.subrange(
        x.len() as int,
        xy.len() as int,
    ));
    assert(xy.subrange(x.len() as int, xy.len() as int) =~= y);
}

proof fn lemma_take_u8_at(b: Seq<u8>, pos: int, v: u8)
    requires
        bytes_at(b, pos, seq![v]),
    ensures
        take_u8(b, pos) == Some((v, pos + 1)),
{
    assert(b.subrange(pos, pos + 1)[0] == b[pos]);
}

proof fn lemma_take_bool_at(b: Seq<u8>, pos: int, v: bool)
    requires
        bytes_at(b, pos, enc_bool(v)),
    ensures
        take_bool(b, pos) == Some((v, pos + 1)),
{
    assert(b.subrange(pos, pos + 1)[0] == b[pos]);
}

proof fn lemma_take_u32_at(b: Seq<u8>, pos: int, x: u32)
    requires
        bytes_at(b, pos, le32(x)),
    ensures
        take_u32(b, pos) == Some((x, pos + 4)),
{
    let s = b.subrange(pos, pos + 4);
    assert(s[0] == b[pos] && s[1] == b[pos + 1] && s[2] == b[pos + 2] && s[3] == b[pos + 3]);
    crate::wire::lemma_le32_round_trip(x);
}

proof fn lemma_take_str_at(b: Seq<u8>, pos: int, s: Seq<char>)
    requires
        str_fits(s),
        bytes_at(b, pos, enc_str(s)),
    ensures
        take_str(b, pos) == Some((s, pos + enc_str(s).len())),
{
    let bytes = encode_utf8(s);
    lemma_at_split(b, pos, le32(bytes.len() as u32), bytes);
    lemma_take_u32_at(b, pos, bytes.len() as u32);
    encode_utf8_valid_utf8(s);
    encode_utf8_decode_utf8(s);
}

proof fn lemma_take_entry_at(b: Seq<u8>, pos: int, e: EntryView)
    requires
        entry_fits(e),
        bytes_at(b, pos, enc_entry(e)),
    ensures
        take_entry(b, pos) == Some((e, pos + enc_entry(e).len())),
{
    let a1 = enc_str(e.txid);
    let a2 = a1 + seq![e.vout];
    let a3 = a2 + le32(e.satoshi);
    let a4 = a3 + enc_str(e.rune_id);
    let a5 = a4 + le32(e.rune_amount);
    lemma_at_split(b, pos, a5, enc_str(e.inscription_id));
    lemma_at_split(b, pos, a4, le32(e.rune_amount));
    lemma_at_split(b, pos, a3, enc_str(e.rune_id));
    lemma_at_split(b, pos, a2, le32(e.satoshi));
    lemma_at_split(b, pos, a1, seq![e.vout]);
    lemma_take_str_at(b, pos, e.txid);
    lemma_take_u8_at(b, pos + a1.len(), e.vout);
    lemma_take_u32_at(b, pos + a2.len(), e.satoshi);
    lemma_take_str_at(b, pos + a3.len(), e.rune_id);
    lemma_take_u32_at(b, pos + a4.len(), e.rune_amount);
    lemma_take_str_at(b, pos + a5.len(), e.inscription_id);
}

proof fn lemma_take_entries_at(b: Seq<u8>, pos: int, es: Seq<EntryView>)
    requires
        forall|i: int| 0 <= i < es.len() ==> entry_fits(#[trigger] es[i]),
        bytes_at(b, pos, enc_entries(es)),
    ensures
        take_entries(b, pos, es.len()) == Some((es, pos + enc_entries(es).len())),
    decreases es.len(),
{
    if es.len() == 0 {
        assert(es =~= Seq::<EntryView>::empty());
    } else {
        let init = es.drop_last();
        lemma_at_split(b, pos, enc_entries(init), enc_entry(es.last()));
        assert forall|i: int| 0 <= i < init.len() implies entry_fits(#[trigger] init[i]) by {
            assert(init[i] == es[i]);
        }
        lemma_take_entries_at(b, pos, init);
        assert(entry_fits(es[es.len() - 1]));
        lemma_take_entry_at(b, pos + enc_entries(init).len(), es.last());
        assert(init.push(es.last()) =~= es);
    }
}

proof fn lemma_state_layout(s: StateView, rest: Seq<u8>)
    ensures
        ({
            let b = enc_state(s) + rest;
            let e = enc_entries(s.deposits);
            &&& bytes_at(b, 0, seq![s.version])
            &&& bytes_at(b, 1, le32(s.deposits.len() as u32))
            &&& bytes_at(b, 5, e)
            &&& bytes_at(b, (5 + e.len()) as int, le32(s.tickets))
            &&& bytes_at(b, (9 + e.len()) as int, enc_bool(s.settled))
        }),
{
    let b = enc_state(s) + rest;
    let a1 = seq![s.version];
    let a2 = a1 + le32(s.deposits.len() as u32);
    let a3 = a2 + enc_entries(s.deposits);
    let a4 = a3 + le32(s.tickets);
    assert(b.subrange(0, enc_state(s).len() as int) =~= enc_state(s));
    lemma_at_split(b, 0, a4, enc_bool(s.settled));
    lemma_at_split(b, 0, a3, le32(s.tickets));
    lemma_at_split(b, 0, a2, enc_entries(s.deposits));
    lemma_at_split(b, 0, a1, le32(s.deposits.len() as u32));
}

/// Reading back an encoded record, whatever bytes follow it, gives the record.
pub proof fn lemma_state_round_trip(s: StateView, rest: Seq<u8>)
    requires
        state_wf(s),
        s.version == STATE_VERSION,
    ensures
        parse_state(enc_state(s) + rest) == Some(s),
{
    let b = enc_state(s) + rest;
    let e = enc_entries(s.deposits);
    let n = s.deposits.len() as u32;
    lemma_state_layout(s, rest);
    lemma_take_u8_at(b, 0, s.version);
    lemma_take_u32_at(b, 1, n);
    lemma_take_entries_at(b, 5, s.deposits);
    assert(n as nat == s.deposits.len());
    lemma_take_u32_at(b, (5 + e.len()) as int, s.tickets);
    lemma_take_bool_at(b, (9 + e.len()) as int, s.settled);
}

/// Recording a deposit that fits keeps the record well formed.
pub proof fn lemma_apply_deposit_wf(s: StateView, p: DepositParamsView)
    requires
        state_wf(s),
        deposit_fits(s, p),
    ensures
        state_wf(apply_deposit(s, p)),
        apply_deposit(s, p).version == s.version,
{
    let ds = apply_deposit(s, p).deposits;
    if exists|i: int| has_key_at(s.deposits, i, p.txid, p.vout) {
        let k = choose|i: int| has_key_at(s.deposits, i, p.txid, p.vout);
        assert forall|a: int, c: int|
            0 <= a < ds.len() && 0 <= c < ds.len() && a != c implies !(#[trigger] ds[a].txid
            == #[trigger] ds[c].txid && ds[a].vout == ds[c].vout) by {
            let x = s.deposits[a].txid;
            let y = s.deposits[c].txid;
            let z = s.deposits[k].txid;
        }
        assert forall|i: int| 0 <= i < ds.len() implies entry_fits(#[trigger] ds[i]) by {
            if i != k {
                assert(ds[i] == s.deposits[i]);
            }
        }
    } else {
        assert forall|a: int, c: int|
            0 <= a < ds.len() && 0 <= c < ds.len() && a != c implies !(#[trigger] ds[a].txid
            == #[trigger] ds[c].txid && ds[a].vout == ds[c].vout) by {
            let x = s.deposits[a].txid;
            let y = s.deposits[c].txid;
            if c == s.deposits.len() {
                assert(!has_key_at(s.deposits, a, p.txid, p.vout));
            }
            if a == s.deposits.len() {
                assert(!has_key_at(s.deposits, c, p.txid, p.vout));
            }
        }
        assert forall|i: int| 0 <= i < ds.len() implies entry_fits(#[trigger] ds[i]) by {
            if i < s.deposits.len() {
                assert(ds[i] == s.deposits[i]);
            }
        }
    }
}

} // verus!
