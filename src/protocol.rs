use vstd::prelude::*;

use crate::registry::{
    acquire_post, complete_result, has_key, reclaimed, timeouts_countable, LeaseOutcome,
    WorkUnitRegistry,
};
use crate::work_unit::UnitView;
use crate::text::{
    decimal, digits_value, is_u128_numeral, parse_decimal, push_decimal, split_words, words,
};

verus! {

/// `GET_WORK`
pub open spec fn get_work_word() -> Seq<u8> {
    seq![71u8, 69u8, 84u8, 95u8, 87u8, 79u8, 82u8, 75u8]
}

/// `RESULT`
pub open spec fn result_word() -> Seq<u8> {
    seq![82u8, 69u8, 83u8, 85u8, 76u8, 84u8]
}

/// `RESULT_EMPTY`
pub open spec fn result_empty_word() -> Seq<u8> {
    result_word() + seq![95u8, 69u8, 77u8, 80u8, 84u8, 89u8]
}

/// `WAIT`
pub open spec fn wait_word() -> Seq<u8> {
    seq![87u8, 65u8, 73u8, 84u8]
}

/// `NO_WORK`
pub open spec fn no_work_word() -> Seq<u8> {
    seq![78u8, 79u8, 95u8, 87u8, 79u8, 82u8, 75u8]
}

pub open spec fn is_get_work(w: Seq<Seq<u8>>) -> bool {
    w.len() == 1 && w[0] == get_work_word()
}

/// `RESULT <combined> <number> <hash>`
pub open spec fn is_found_report(w: Seq<Seq<u8>>) -> bool {
    w.len() == 4 && w[0] == result_word() && is_u128_numeral(w[2])
}

/// `RESULT_EMPTY <rangeStart> <rangeEnd>`
pub open spec fn is_empty_report(w: Seq<Seq<u8>>) -> bool {
    w.len() == 3 && w[0] == result_empty_word() && is_u128_numeral(w[1]) && is_u128_numeral(w[2])
}

pub open spec fn is_request(w: Seq<Seq<u8>>) -> bool {
    is_get_work(w) || is_found_report(w) || is_empty_report(w)
}

/// The start of the range of width `step` that holds `n`.
pub open spec fn base_range(n: nat, step: nat) -> nat {
    (n / step) * step
}

/// A match reported from inside the range of unit `i` completes that unit:
/// its number's base range is the unit's range start.
pub proof fn lemma_base_range_of_leased_number(i: nat, step: nat, n: nat)
    requires
        step > 0,
        i * step <= n < (i + 1) * step,
    ensures
        base_range(n, step) == i * step,
{
    assert(n / step == i) by (nonlinear_arith)
        requires step > 0, i * step <= n < (i + 1) * step;
}

/// The line that answers `GET_WORK`.
pub open spec fn response_line(o: LeaseOutcome) -> Seq<u8> {
    match o {
        LeaseOutcome::Leased { range_start, .. } => decimal(range_start as nat).push(10u8),
        LeaseOutcome::Busy => wait_word().push(10u8),
        LeaseOutcome::Exhausted => no_work_word().push(10u8),
    }
}

/// A request line from a worker.
#[derive(Debug, PartialEq, Eq)]
pub enum Request {
    GetWork,
    Result { combined: Vec<u8>, number: u128, hash: Vec<u8> },
    ResultEmpty { range_start: u128, range_end: u128 },
}

#[derive(Clone, Copy, Debug, PartialEq, Eq, Structural)]
pub enum ProtocolError {
    /// The line is not a request of the protocol.
    Malformed,
    /// A report names a range start that is no unit's key.
    UnknownLeaseKey(u128),
}

/// What the coordinator does after one request.
#[derive(Debug, PartialEq, Eq)]
pub enum Reply {
    /// Send `line` to the worker; it answers `GET_WORK` with `outcome`.
    Answer { outcome: LeaseOutcome, line: Vec<u8> },
    /// A report was recorded; nothing is sent.
    Recorded,
    /// The request was discarded; nothing is sent.
    Rejected(ProtocolError),
}

impl Reply {
    /// After `NO_WORK` the session is over.
    pub fn ends_session(&self) -> (r: bool)
        ensures
            r == (self matches Reply::Answer { outcome: LeaseOutcome::Exhausted, .. }),
    {
        match self {
            Reply::Answer { outcome: LeaseOutcome::Exhausted, .. } => true,
            _ => false,
        }
    }
}

/// Compares `w` with the bytes `lit`.
pub(crate) fn word_equals(w: &Vec<u8>, lit: &[u8]) -> (r: bool)
    ensures
        r == (w@ == lit@),
{
    if w.len() != lit.len() {
        return false;
    }
    let mut i: usize = 0;
    while i < w.len()
        invariant
            w@.len() == lit@.len(),
            i <= w@.len(),
            forall|k: int| 0 <= k < i ==> w@[k] == lit@[k],
        decreases w@.len() - i,
    {
        if w[i] != lit[i] {
            return false;
        }
        i = i + 1;
    }
    assert(w@ =~= lit@);
    true
}

/// Reads one request line.
pub fn parse_request(line: &[u8]) -> (r: Result<Request, ProtocolError>)
    ensures
        ({
            let w = words(line@);
            &&& r is Ok <==> is_request(w)
            &&& r is Err ==> r == Err::<Request, ProtocolError>(ProtocolError::Malformed)
            &&& (r matches Ok(Request::GetWork)) <==> is_get_work(w)
            &&& (r matches Ok(Request::Result { .. })) <==> is_found_report(w)
            &&& (r matches Ok(Request::ResultEmpty { .. })) <==> is_empty_report(w)
            &&& r matches Ok(Request::Result { combined, number, hash }) ==> {
                &&& combined@ == w[1]
                &&& number == digits_value(w[2])
                &&& hash@ == w[3]
            }
            &&& r matches Ok(Request::ResultEmpty { range_start, range_end }) ==> {
                &&& range_start == digits_value(w[1])
                &&& range_end == digits_value(w[2])
            }
        }),
{
    let ws = split_words(line);
    let ghost w = words(line@);
    if ws.len() == 0 {
        return Err(ProtocolError::Malformed);
    }
    let get_work: [u8; 8] = [71u8, 69u8, 84u8, 95u8, 87u8, 79u8, 82u8, 75u8];
    let result: [u8; 6] = [82u8, 69u8, 83u8, 85u8, 76u8, 84u8];
    let result_empty: [u8; 12] = [
        82u8, 69u8, 83u8, 85u8, 76u8, 84u8, 95u8, 69u8, 77u8, 80u8, 84u8, 89u8,
    ];
    assert(get_work@ =~= get_work_word());
    assert(result@ =~= result_word());
    assert(result_empty@ =~= result_empty_word());
    if ws.len() == 1 && word_equals(&ws[0], &get_work) {
        Ok(Request::GetWork)
    } else if ws.len() == 4 && word_equals(&ws[0], &result) {
        match parse_decimal(ws[2].as_slice()) {
            Some(number) => Ok(
                Request::Result { combined: ws[1].clone(), number, hash: ws[3].clone() },
            ),
            None => Err(ProtocolError::Malformed),
        }
    } else if ws.len() == 3 && word_equals(&ws[0], &result_empty) {
        match (parse_decimal(ws[1].as_slice()), parse_decimal(ws[2].as_slice())) {
            (Some(range_start), Some(range_end)) => Ok(
                Request::ResultEmpty { range_start, range_end },
            ),
            _ => Err(ProtocolError::Malformed),
        }
    } else {
        proof {
            if ws@.len() == 4 {
                assert(ws@[0]@ == w[0]);
            }
            if ws@.len() == 3 {
                assert(ws@[0]@ == w[0]);
                assert(result_empty_word() != result_word());
            }
        }
        Err(ProtocolError::Malformed)
    }
}

/// The line that answers `GET_WORK` with `outcome`.
pub fn encode_outcome(outcome: LeaseOutcome) -> (r: Vec<u8>)
    ensures
        r@ == response_line(outcome),
{
    let mut out: Vec<u8> = Vec::new();
    match outcome {
        LeaseOutcome::Leased { range_start, .. } => {
            push_decimal(range_start, &mut out);
        },
        LeaseOutcome::Busy => {
            out.push(87u8);
            out.push(65u8);
            out.push(73u8);
            out.push(84u8);
        },
        LeaseOutcome::Exhausted => {
            out.push(78u8);
            out.push(79u8);
            out.push(95u8);
            out.push(87u8);
            out.push(79u8);
            out.push(82u8);
            out.push(75u8);
        },
    }
    out.push(10u8);
    assert(out@ =~= response_line(outcome));
    out
}

/// Serves one request line from the worker `peer` at time `now`: `GET_WORK`
/// leases a unit, a report completes the unit it names, anything else is
/// discarded and changes nothing.
pub fn handle_request(
    reg: &mut WorkUnitRegistry,
    line: &[u8],
    peer: String,
    now: u64,
    lease_timeout: u64,
) -> (r: Reply)
    requires
        old(reg).wf(),
        timeouts_countable(old(reg)@),
    ensures
        final(reg).wf(),
        final(reg).spec_step() == old(reg).spec_step(),
        ({
            let w = words(line@);
            let s = old(reg)@;
            let step = old(reg).spec_step();
            &&& !is_request(w) ==> r == Reply::Rejected(ProtocolError::Malformed) && final(reg)@ == s
            &&& is_get_work(w) ==> (r matches Reply::Answer { outcome, line: out } && {
                &&& acquire_post(reclaimed(s, now, lease_timeout), step, now, peer@, outcome, final(reg)@)
                &&& out@ == response_line(outcome)
            })
            &&& is_found_report(w) ==> report_post(s, step, base_range(digits_value(w[2]), step), r, final(reg)@)
            &&& is_empty_report(w) ==> report_post(s, step, digits_value(w[1]), r, final(reg)@)
        }),
{
    match parse_request(line) {
        Err(e) => Reply::Rejected(e),
        Ok(Request::GetWork) => {
            let outcome = reg.acquire(peer, now, lease_timeout);
            let out = encode_outcome(outcome);
            Reply::Answer { outcome, line: out }
        },
        Ok(Request::Result { number, .. }) => {
            let step = reg.step();
            proof {
                let n = number as int;
                let st = step as int;
                assert(0 <= (n / st) * st <= n) by (nonlinear_arith)
                    requires st > 0, n >= 0;
            }
            let key = number / step * step;
            record(reg, key)
        },
        Ok(Request::ResultEmpty { range_start, .. }) => record(reg, range_start),
    }
}

/// A report that names the range start `k` turned the units `s` into `s2`,
/// answering `r`.
pub open spec fn report_post(
    s: Seq<UnitView>,
    step: nat,
    k: nat,
    r: Reply,
    s2: Seq<UnitView>,
) -> bool {
    &&& s2 == complete_result(s, step, k as int)
    &&& has_key(s.len(), step, k as int) ==> r == Reply::Recorded
    &&& !has_key(s.len(), step, k as int) ==> r == Reply::Rejected(ProtocolError::UnknownLeaseKey(k as u128))
}

fn record(reg: &mut WorkUnitRegistry, key: u128) -> (r: Reply)
    requires
        old(reg).wf(),
    ensures
        final(reg).wf(),
        final(reg).spec_step() == old(reg).spec_step(),
        report_post(old(reg)@, old(reg).spec_step(), key as nat, r, final(reg)@),
{
    match reg.complete(key, true) {
        Ok(()) => Reply::Recorded,
        Err(e) => Reply::Rejected(ProtocolError::UnknownLeaseKey(e.range_start)),
    }
}

} // verus!
