use vstd::prelude::*;

use crate::protocol::{no_work_word, result_empty_word, result_word, wait_word, word_equals};
use crate::search::{candidate_hash, combined, hex_of, sha256_of};
use crate::registry::LeaseOutcome;
use crate::protocol::{is_empty_report, is_found_report, response_line};
use crate::text::{
    decimal, digits_value, is_u128_numeral, lemma_decimal_numeral, lemma_words_append_word,
    lemma_words_push_space, no_space, parse_decimal, push_decimal, split_words, words,
};

verus! {

/// What the coordinator answered to `GET_WORK`.
#[derive(Clone, Copy, Debug, PartialEq, Eq, Structural)]
pub enum ServerReply {
    Lease(u128),
    Wait,
    NoWork,
}

/// What the worker does next.
#[derive(Clone, Copy, Debug, PartialEq, Eq, Structural)]
pub enum WorkerAction {
    /// Scan `[range_start, range_end)` and report.
    Search { range_start: u128, range_end: u128 },
    /// Sleep, then ask again.
    Backoff,
    /// End the session.
    Stop,
}

/// The reply that the line `w`'s words spell, if any.
pub open spec fn reply_of(w: Seq<Seq<u8>>) -> Option<ServerReply> {
    if w.len() != 1 {
        None
    } else if w[0] == no_work_word() {
        Some(ServerReply::NoWork)
    } else if w[0] == wait_word() {
        Some(ServerReply::Wait)
    } else if is_u128_numeral(w[0]) {
        Some(ServerReply::Lease(digits_value(w[0]) as u128))
    } else {
        None
    }
}

/// `RESULT_EMPTY <range_start> <range_end>` and a line feed.
pub open spec fn empty_report_line(range_start: u128, range_end: u128) -> Seq<u8> {
    result_empty_word() + seq![32u8] + decimal(range_start as nat) + seq![32u8] + decimal(
        range_end as nat,
    ) + seq![10u8]
}

/// `RESULT <combined> <number> <hash>` and a line feed.
pub open spec fn found_report_line(seed: Seq<u8>, number: u128, hash: Seq<u8>) -> Seq<u8> {
    result_word() + seq![32u8] + combined(seed, number) + seq![32u8] + decimal(number as nat) + seq![
        32u8,
    ] + hash + seq![10u8]
}

fn push_all(out: &mut Vec<u8>, b: &[u8])
    ensures
        final(out)@ == old(out)@ + b@,
{
    let mut i: usize = 0;
    while i < b.len()
        invariant
            i <= b@.len(),
            out@ == old(out)@ + b@.take(i as int),
        decreases b@.len() - i,
    {
        out.push(b[i]);
        assert(out@ =~= old(out)@ + b@.take(i + 1));
        i = i + 1;
    }
    assert(b@.take(b@.len() as int) =~= b@);
}

/// Reads the coordinator's answer line; `None` when it is none of
/// `NO_WORK`, `WAIT` or a range start.
pub fn parse_reply(line: &[u8]) -> (r: Option<ServerReply>)
    ensures
        r == reply_of(words(line@)),
{
    let ws = split_words(line);
    if ws.len() != 1 {
        return None;
    }
    let no_work: [u8; 7] = [78u8, 79u8, 95u8, 87u8, 79u8, 82u8, 75u8];
    let wait: [u8; 4] = [87u8, 65u8, 73u8, 84u8];
    assert(no_work@ =~= no_work_word());
    assert(wait@ =~= wait_word());
    if word_equals(&ws[0], &no_work) {
        Some(ServerReply::NoWork)
    } else if word_equals(&ws[0], &wait) {
        Some(ServerReply::Wait)
    } else {
        match parse_decimal(ws[0].as_slice()) {
            Some(n) => Some(ServerReply::Lease(n)),
            None => None,
        }
    }
}

/// The worker's next step after the answer `reply` (`None`: unreadable or
/// missing), for ranges of width `step`.
pub fn next_action(reply: Option<ServerReply>, step: u128) -> (r: WorkerAction)
    ensures
        r == match reply {
            Some(ServerReply::Lease(s)) => if s + step <= u128::MAX {
                WorkerAction::Search { range_start: s, range_end: (s + step) as u128 }
            } else {
                WorkerAction::Stop
            },
            Some(ServerReply::Wait) => WorkerAction::Backoff,
            _ => WorkerAction::Stop,
        },
{
    match reply {
        Some(ServerReply::Lease(s)) => {
            if s <= u128::MAX - step {
                WorkerAction::Search { range_start: s, range_end: s + step }
            } else {
                WorkerAction::Stop
            }
        },
        Some(ServerReply::Wait) => WorkerAction::Backoff,
        _ => WorkerAction::Stop,
    }
}

/// Whether to try connecting again after `failures` failed attempts out of
/// `max_retries`.
pub fn retry_connect(failures: u32, max_retries: u32) -> (r: bool)
    ensures
        r == (failures < max_retries),
{
    failures < max_retries
}

/// The report of a range scanned without a match.
pub fn empty_report(range_start: u128, range_end: u128) -> (r: Vec<u8>)
    ensures
        r@ == empty_report_line(range_start, range_end),
{
    let word: [u8; 12] = [82u8, 69u8, 83u8, 85u8, 76u8, 84u8, 95u8, 69u8, 77u8, 80u8, 84u8, 89u8];
    assert(word@ =~= result_empty_word());
    let mut out: Vec<u8> = Vec::new();
    push_all(&mut out, &word);
    out.push(32u8);
    push_decimal(range_start, &mut out);
    out.push(32u8);
    push_decimal(range_end, &mut out);
    out.push(10u8);
    assert(out@ =~= empty_report_line(range_start, range_end));
    out
}

/// The report of the match `number` whose digest's hex text is `hash`.
pub fn format_found_report(seed: &[u8], number: u128, hash: &[u8]) -> (r: Vec<u8>)
    ensures
        r@ == found_report_line(seed@, number, hash@),
{
    let word: [u8; 6] = [82u8, 69u8, 83u8, 85u8, 76u8, 84u8];
    assert(word@ =~= result_word());
    let mut out: Vec<u8> = Vec::new();
    push_all(&mut out, &word);
    out.push(32u8);
    push_all(&mut out, seed);
    push_decimal(number, &mut out);
    out.push(32u8);
    push_decimal(number, &mut out);
    out.push(32u8);
    push_all(&mut out, hash);
    out.push(10u8);
    assert(out@ =~= found_report_line(seed@, number, hash@));
    out
}

/// The report of a scan of `[range_start, range_end)` for `seed` that found
/// `found`.
pub fn report(seed: &[u8], range_start: u128, range_end: u128, found: Option<u128>) -> (r: Vec<u8>)
    ensures
        r@ == match found {
            Some(n) => found_report_line(seed@, n, hex_of(sha256_of(combined(seed@, n)))),
            None => empty_report_line(range_start, range_end),
        },
{
    match found {
        Some(n) => {
            let hash = candidate_hash(seed, n);
            format_found_report(seed, n, hash.as_slice())
        },
        None => empty_report(range_start, range_end),
    }
}

proof fn lemma_words_empty()
    ensures
        words(Seq::<u8>::empty()) == Seq::<Seq<u8>>::empty(),
{
}

/// The words of `a`, a space, and `b`, where `a` ends a word and `b` is one.
proof fn lemma_words_then_word(a: Seq<u8>, b: Seq<u8>)
    requires
        b.len() > 0,
        no_space(b),
    ensures
        words(a.push(32u8) + b) == words(a).push(b),
{
    lemma_words_push_space(a, 32u8);
    lemma_words_append_word(a.push(32u8), b);
}

/// The answer to `GET_WORK` reads back on the worker as the same outcome.
pub proof fn lemma_answer_round_trip(o: LeaseOutcome)
    ensures
        reply_of(words(response_line(o))) == Some(
            match o {
                LeaseOutcome::Leased { range_start, .. } => ServerReply::Lease(range_start),
                LeaseOutcome::Busy => ServerReply::Wait,
                LeaseOutcome::Exhausted => ServerReply::NoWork,
            },
        ),
{
    let d = match o {
        LeaseOutcome::Leased { range_start, .. } => decimal(range_start as nat),
        LeaseOutcome::Busy => wait_word(),
        LeaseOutcome::Exhausted => no_work_word(),
    };
    lemma_words_empty();
    if let LeaseOutcome::Leased { range_start, .. } = o {
        lemma_decimal_numeral(range_start as nat);
        assert(crate::text::is_digit(d[0]));
        assert(no_work_word()[0] == 78 && wait_word()[0] == 87);
    } else {
        assert(no_space(d));
    }
    lemma_words_append_word(Seq::<u8>::empty(), d);
    assert(Seq::<u8>::empty() + d =~= d);
    lemma_words_push_space(d, 10u8);
    assert(response_line(o) == d.push(10u8));
    assert(words(response_line(o)) =~= seq![d]);
    assert(no_work_word() != wait_word()) by {
        assert(no_work_word().len() != wait_word().len());
    }
}

/// An empty-range report reads back on the coordinator as `RESULT_EMPTY`
/// with the same two numbers.
pub proof fn lemma_empty_report_round_trip(range_start: u128, range_end: u128)
    ensures
        ({
            let w = words(empty_report_line(range_start, range_end));
            &&& is_empty_report(w)
            &&& digits_value(w[1]) == range_start
            &&& digits_value(w[2]) == range_end
        }),
{
    let word = result_empty_word();
    let d1 = decimal(range_start as nat);
    let d2 = decimal(range_end as nat);
    lemma_decimal_numeral(range_start as nat);
    lemma_decimal_numeral(range_end as nat);
    assert(word =~= seq![82u8, 69u8, 83u8, 85u8, 76u8, 84u8, 95u8, 69u8, 77u8, 80u8, 84u8, 89u8]);
    assert(no_space(word));
    lemma_words_empty();
    lemma_words_append_word(Seq::<u8>::empty(), word);
    assert(Seq::<u8>::empty() + word =~= word);
    lemma_words_then_word(word, d1);
    let q = word.push(32u8) + d1;
    lemma_words_then_word(q, d2);
    let q2 = q.push(32u8) + d2;
    lemma_words_push_space(q2, 10u8);
    assert(q2.push(10u8) =~= empty_report_line(range_start, range_end));
    assert(words(q2.push(10u8)) =~= seq![word, d1, d2]);
}

/// A match report reads back on the coordinator as `RESULT` with the same
/// combined text, number and hash, where the seed and the hash hold no
/// whitespace.
pub proof fn lemma_found_report_round_trip(seed: Seq<u8>, number: u128, hash: Seq<u8>)
    requires
        no_space(seed),
        hash.len() > 0,
        no_space(hash),
    ensures
        ({
            let w = words(found_report_line(seed, number, hash));
            &&& is_found_report(w)
            &&& w[1] == combined(seed, number)
            &&& digits_value(w[2]) == number
            &&& w[3] == hash
        }),
{
    let word = result_word();
    let c = combined(seed, number);
    let d = decimal(number as nat);
    lemma_decimal_numeral(number as nat);
    assert(word =~= seq![82u8, 69u8, 83u8, 85u8, 76u8, 84u8]);
    assert(no_space(word));
    assert forall|i: int| 0 <= i < c.len() implies !crate::text::is_space(#[trigger] c[i]) by {
        if i < seed.len() {
            assert(c[i] == seed[i]);
        } else {
            assert(c[i] == d[i - seed.len()]);
        }
    }
    lemma_words_empty();
    lemma_words_append_word(Seq::<u8>::empty(), word);
    assert(Seq::<u8>::empty() + word =~= word);
    lemma_words_then_word(word, c);
    let q = word.push(32u8) + c;
    lemma_words_then_word(q, d);
    let q2 = q.push(32u8) + d;
    lemma_words_then_word(q2, hash);
    let q3 = q2.push(32u8) + hash;
    lemma_words_push_space(q3, 10u8);
    assert(q3.push(10u8) =~= found_report_line(seed, number, hash));
    assert(words(q3.push(10u8)) =~= seq![word, c, d, hash]);
}

} // verus!
