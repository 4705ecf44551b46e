//! The execution journal's record format and restart classification.
//!
//! A journal is an eight-byte header followed by ten-byte records: an
//! eight-byte big-endian sequence number counting from 1, a marker byte and a
//! checksum byte. It is evidence, not a retry queue: a torn or inconsistent
//! journal is corrupt, and only a single proven result followed by a receipt
//! and a final commit classifies as terminal.

use vstd::prelude::*;
use crate::cbor::{append_bytes, be_bytes, be_value, push_be, read_be};
use crate::cbor_laws::{lemma_be_bytes_value, lemma_byte_powers};

verus! {

/// Length of one journal record.
pub const RECORD_BYTES: usize = 10;

/// Length of the journal header.
pub const HEADER_BYTES: usize = 8;

/// The journal header, `RPJNLv1` and a NUL byte.
pub open spec fn journal_magic() -> Seq<u8> {
    seq![0x52u8, 0x50, 0x4a, 0x4e, 0x4c, 0x76, 0x31, 0x00]
}

/// The journal header's bytes.
pub fn magic() -> (r: Vec<u8>)
    ensures
        r@ == journal_magic(),
{
    let mut r: Vec<u8> = Vec::new();
    r.push(0x52);
    r.push(0x50);
    r.push(0x4a);
    r.push(0x4e);
    r.push(0x4c);
    r.push(0x76);
    r.push(0x31);
    r.push(0x00);
    proof {
        assert(r@ =~= journal_magic());
    }
    r
}

/// Durable points surrounding all privileged side effects.
#[derive(Debug, Clone, Copy, PartialEq, Eq)]
pub enum JournalMarker {
    HelperHandoff,
    SimulationProved,
    ExecutionStarted,
    ArchivesAccepted,
    UnpackStarted,
    ConfigureStarted,
    TriggersStarted,
    ResultSucceeded,
    ResultFailed,
    ReceiptCreated,
    FinalStateCommitted,
}

/// The marker with a record byte, if any.
pub open spec fn marker_from_byte(b: u8) -> Option<JournalMarker> {
    if b == 1 {
        Some(JournalMarker::HelperHandoff)
    } else if b == 2 {
        Some(JournalMarker::SimulationProved)
    } else if b == 3 {
        Some(JournalMarker::ExecutionStarted)
    } else if b == 4 {
        Some(JournalMarker::ArchivesAccepted)
    } else if b == 5 {
        Some(JournalMarker::UnpackStarted)
    } else if b == 6 {
        Some(JournalMarker::ConfigureStarted)
    } else if b == 7 {
        Some(JournalMarker::TriggersStarted)
    } else if b == 8 {
        Some(JournalMarker::ResultSucceeded)
    } else if b == 9 {
        Some(JournalMarker::ResultFailed)
    } else if b == 10 {
        Some(JournalMarker::ReceiptCreated)
    } else if b == 11 {
        Some(JournalMarker::FinalStateCommitted)
    } else {
        None
    }
}

impl JournalMarker {
    /// The marker's record byte.
    pub open spec fn spec_byte(self) -> u8 {
        match self {
            JournalMarker::HelperHandoff => 1,
            JournalMarker::SimulationProved => 2,
            JournalMarker::ExecutionStarted => 3,
            JournalMarker::ArchivesAccepted => 4,
            JournalMarker::UnpackStarted => 5,
            JournalMarker::ConfigureStarted => 6,
            JournalMarker::TriggersStarted => 7,
            JournalMarker::ResultSucceeded => 8,
            JournalMarker::ResultFailed => 9,
            JournalMarker::ReceiptCreated => 10,
            JournalMarker::FinalStateCommitted => 11,
        }
    }

    pub fn byte(self) -> (r: u8)
        ensures
            r == self.spec_byte(),
            marker_from_byte(r) == Some(self),
    {
        match self {
            JournalMarker::HelperHandoff => 1,
            JournalMarker::SimulationProved => 2,
            JournalMarker::ExecutionStarted => 3,
            JournalMarker::ArchivesAccepted => 4,
            JournalMarker::UnpackStarted => 5,
            JournalMarker::ConfigureStarted => 6,
            JournalMarker::TriggersStarted => 7,
            JournalMarker::ResultSucceeded => 8,
            JournalMarker::ResultFailed => 9,
            JournalMarker::ReceiptCreated => 10,
            JournalMarker::FinalStateCommitted => 11,
        }
    }

    pub fn from_byte(value: u8) -> (r: Option<JournalMarker>)
        ensures
            r == marker_from_byte(value),
    {
        match value {
            1 => Some(JournalMarker::HelperHandoff),
            2 => Some(JournalMarker::SimulationProved),
            3 => Some(JournalMarker::ExecutionStarted),
            4 => Some(JournalMarker::ArchivesAccepted),
            5 => Some(JournalMarker::UnpackStarted),
            6 => Some(JournalMarker::ConfigureStarted),
            7 => Some(JournalMarker::TriggersStarted),
            8 => Some(JournalMarker::ResultSucceeded),
            9 => Some(JournalMarker::ResultFailed),
            10 => Some(JournalMarker::ReceiptCreated),
            11 => Some(JournalMarker::FinalStateCommitted),
            _ => None,
        }
    }
}

/// The only restart outcomes permitted before root records reconciliation.
#[derive(Debug, Clone, Copy, PartialEq, Eq)]
pub enum RecoveryClassification {
    Succeeded,
    Failed,
    RecoveryRequired,
}

/// Why journal contents are refused.
#[derive(Debug, Clone, Copy, PartialEq, Eq)]
pub enum JournalError {
    Corrupt,
}

/// The checksum byte of a record: bytes 0, 2, 4 and 6 of the big-endian
/// sequence number, the marker byte and `0xa7`, exclusive-ored.
pub open spec fn spec_checksum(sequence: u64, marker: u8) -> u8 {
    ((sequence >> 56u64) as u8) ^ ((sequence >> 40u64) as u8) ^ ((sequence >> 24u64) as u8)
        ^ ((sequence >> 8u64) as u8) ^ marker ^ 0xa7u8
}

pub fn checksum(sequence: u64, marker: u8) -> (r: u8)
    ensures
        r == spec_checksum(sequence, marker),
{
    ((sequence >> 56u64) as u8) ^ ((sequence >> 40u64) as u8) ^ ((sequence >> 24u64) as u8)
        ^ ((sequence >> 8u64) as u8) ^ marker ^ 0xa7u8
}

/// The bytes of one record.
pub open spec fn spec_record(sequence: u64, marker: JournalMarker) -> Seq<u8> {
    be_bytes(sequence as nat, 8) + seq![marker.spec_byte(), spec_checksum(sequence, marker.spec_byte())]
}

/// The record written for a marker at a sequence number.
pub fn record_bytes(sequence: u64, marker: JournalMarker) -> (r: Vec<u8>)
    ensures
        r@ == spec_record(sequence, marker),
{
    let mut r: Vec<u8> = Vec::new();
    push_be(sequence, 8, &mut r);
    let b = marker.byte();
    r.push(b);
    r.push(checksum(sequence, b));
    proof {
        assert(r@ =~= spec_record(sequence, marker));
    }
    r
}

/// The sequence number after `sequence`, stopping at the largest.
pub fn next_sequence(sequence: u64) -> (r: u64)
    ensures
        r == (if sequence == u64::MAX { u64::MAX } else { (sequence + 1) as u64 }),
{
    sequence.saturating_add(1)
}

/// The `i`-th record of journal contents.
pub open spec fn record_at(c: Seq<u8>, i: int) -> Seq<u8> {
    c.subrange(8 + 10 * i, 18 + 10 * i)
}

/// The number of records after the header.
pub open spec fn record_count(c: Seq<u8>) -> nat {
    ((c.len() - 8) / 10) as nat
}

/// Whether a record holds the expected sequence number, a known marker and
/// the right checksum.
pub open spec fn record_valid(r: Seq<u8>, expected: u64) -> bool {
    &&& be_value(r.subrange(0, 8)) == expected
    &&& marker_from_byte(r[8]) is Some
    &&& r[9] == spec_checksum(expected, r[8])
}

/// Whether contents have the header and a whole number of records.
pub open spec fn well_framed(c: Seq<u8>) -> bool {
    &&& c.len() >= 8
    &&& c.subrange(0, 8) == journal_magic()
    &&& (c.len() - 8) % 10 == 0
}

/// The next sequence number of well-formed journal contents, or `Corrupt`.
pub open spec fn spec_parse_records(c: Seq<u8>) -> Result<u64, JournalError> {
    if !well_framed(c) {
        Err(JournalError::Corrupt)
    } else if forall|i: int| 0 <= i < record_count(c) ==> #[trigger] record_valid(record_at(c, i), (i + 1) as u64) {
        Ok((record_count(c) + 1) as u64)
    } else {
        Err(JournalError::Corrupt)
    }
}

/// The markers of well-formed journal contents, in order.
pub open spec fn spec_markers(c: Seq<u8>) -> Seq<JournalMarker> {
    Seq::new(record_count(c), |i: int| marker_from_byte(record_at(c, i)[8])->Some_0)
}

/// Checks journal contents and gives the next sequence number.
pub fn parse_records(contents: &[u8]) -> (r: Result<u64, JournalError>)
    ensures
        r == spec_parse_records(contents@),
{
    let ghost c = contents@;
    let len = contents.len();
    if len < 8 {
        return Err(JournalError::Corrupt);
    }
    let header = magic();
    let mut k: usize = 0;
    while k < 8
        invariant
            c == contents@,
            len == c.len(),
            8 <= len,
            header@ == journal_magic(),
            k <= 8,
            forall|j: int| 0 <= j < k ==> c[j] == journal_magic()[j],
        decreases 8 - k,
    {
        if contents[k] != header[k] {
            proof {
                assert(c.subrange(0, 8)[k as int] != journal_magic()[k as int]);
            }
            return Err(JournalError::Corrupt);
        }
        k = k + 1;
    }
    proof {
        assert(c.subrange(0, 8) =~= journal_magic());
    }
    if (len - 8) % 10 != 0 {
        return Err(JournalError::Corrupt);
    }
    let count: usize = (len - 8) / 10;
    proof {
        lemma_byte_powers();
    }
    let mut i: usize = 0;
    let mut off: usize = 8;
    let mut expected: u64 = 1;
    while i < count
        invariant
            c == contents@,
            len == c.len(),
            well_framed(c),
            count == record_count(c),
            count * 10 + 8 == len,
            i <= count,
            off == 8 + 10 * i,
            expected == i + 1,
            forall|j: int| 0 <= j < i ==> #[trigger] record_valid(record_at(c, j), (j + 1) as u64),
        decreases count - i,
    {
        let ghost rec = record_at(c, i as int);
        proof {
            assert(rec.subrange(0, 8) =~= c.subrange(off as int, off + 8));
            assert(rec[8] == c[off + 8]);
            assert(rec[9] == c[off + 9]);
        }
        let sequence = read_be(contents, off, 8);
        let marker = contents[off + 8];
        if JournalMarker::from_byte(marker).is_none() || sequence != expected || contents[off + 9] != checksum(expected, marker) {
            proof {
                assert(!record_valid(record_at(c, i as int), (i + 1) as u64));
            }
            return Err(JournalError::Corrupt);
        }
        i = i + 1;
        off = off + 10;
        expected = expected + 1;
    }
    Ok(expected)
}

/// The markers of journal contents that pass [`parse_records`].
pub fn records(contents: &[u8]) -> (r: Result<Vec<JournalMarker>, JournalError>)
    ensures
        match spec_parse_records(contents@) {
            Ok(_) => r matches Ok(v) && v@ == spec_markers(contents@),
            Err(e) => r == Err::<Vec<JournalMarker>, JournalError>(e),
        },
{
    parse_records(contents)?;
    let ghost c = contents@;
    let len = contents.len();
    let count: usize = (len - 8) / 10;
    let mut out: Vec<JournalMarker> = Vec::new();
    let mut i: usize = 0;
    let mut off: usize = 8;
    while i < count
        invariant
            c == contents@,
            len == c.len(),
            spec_parse_records(c) is Ok,
            count == record_count(c),
            count * 10 + 8 == c.len(),
            i <= count,
            off == 8 + 10 * i,
            out@.len() == i,
            forall|j: int| 0 <= j < i ==> #[trigger] out@[j] == spec_markers(c)[j],
        decreases count - i,
    {
        proof {
            assert(off + 10 <= c.len());
            assert(record_valid(record_at(c, i as int), (i + 1) as u64));
            assert(record_at(c, i as int)[8] == c[off + 8]);
        }
        let idx: usize = off + 8;
        match JournalMarker::from_byte(contents[idx]) {
            Some(m) => out.push(m),
            None => {
                return Err(JournalError::Corrupt);
            },
        }
        i = i + 1;
        off = off + 10;
    }
    proof {
        assert(out@ =~= spec_markers(c));
    }
    Ok(out)
}

/// Whether a marker records an execution result.
pub open spec fn is_result(m: JournalMarker) -> bool {
    m == JournalMarker::ResultSucceeded || m == JournalMarker::ResultFailed
}

/// The first position at or after `i` holding a result marker.
pub open spec fn first_result_from(m: Seq<JournalMarker>, i: int) -> Option<int>
    decreases m.len() - i,
{
    if i < 0 || i >= m.len() {
        None
    } else if is_result(m[i]) {
        Some(i)
    } else {
        first_result_from(m, i + 1)
    }
}

/// How many times a marker occurs.
pub open spec fn count_of(m: Seq<JournalMarker>, x: JournalMarker) -> nat
    decreases m.len(),
{
    if m.len() == 0 {
        0
    } else {
        count_of(m.drop_last(), x) + (if m.last() == x { 1nat } else { 0nat })
    }
}

/// The restart outcome that journal contents prove: `Succeeded` or `Failed`
/// only for a journal that starts with the handoff, simulation and execution
/// markers, holds exactly one result marker, a receipt after the first
/// result, and ends with the final commit; anything else needs recovery.
pub open spec fn spec_classify(c: Seq<u8>) -> Result<RecoveryClassification, JournalError> {
    match spec_parse_records(c) {
        Err(e) => Err(e),
        Ok(next) => if next == 1 {
            Ok(RecoveryClassification::RecoveryRequired)
        } else {
            let m = spec_markers(c);
            match first_result_from(m, 0) {
                None => Ok(RecoveryClassification::RecoveryRequired),
                Some(ri) => {
                    let final_state = m.last() == JournalMarker::FinalStateCommitted;
                    let prefix = m.len() >= 3 && m[0] == JournalMarker::HelperHandoff
                        && m[1] == JournalMarker::SimulationProved && m[2] == JournalMarker::ExecutionStarted;
                    let receipt = exists|j: int| ri < j < m.len() && m[j] == JournalMarker::ReceiptCreated;
                    if !final_state || !prefix || !receipt {
                        Ok(RecoveryClassification::RecoveryRequired)
                    } else {
                        let s = count_of(m, JournalMarker::ResultSucceeded);
                        let f = count_of(m, JournalMarker::ResultFailed);
                        if s == 1 && f == 0 {
                            Ok(RecoveryClassification::Succeeded)
                        } else if s == 0 && f == 1 {
                            Ok(RecoveryClassification::Failed)
                        } else {
                            Ok(RecoveryClassification::RecoveryRequired)
                        }
                    }
                },
            }
        },
    }
}

/// Classifies journal contents; ambiguous executions never claim a result.
pub fn classify_contents(contents: &[u8]) -> (r: Result<RecoveryClassification, JournalError>)
    ensures
        r == spec_classify(contents@),
{
    let next = parse_records(contents)?;
    if next == 1 {
        return Ok(RecoveryClassification::RecoveryRequired);
    }
    let markers = records(contents)?;
    let ghost m = markers@;
    let n = markers.len();
    proof {
        assert(n == record_count(contents@));
        assert(n > 0);
    }
    let final_state = matches!(markers[n - 1], JournalMarker::FinalStateCommitted);
    let mut ri: usize = 0;
    while ri < n && !matches!(markers[ri], JournalMarker::ResultSucceeded | JournalMarker::ResultFailed)
        invariant
            n == m.len(),
            m == markers@,
            ri <= n,
            first_result_from(m, 0) == first_result_from(m, ri as int),
        decreases n - ri,
    {
        ri = ri + 1;
    }
    if ri == n {
        return Ok(RecoveryClassification::RecoveryRequired);
    }
    proof {
        assert(first_result_from(m, 0) == Some(ri as int));
    }
    let prefix = n >= 3 && matches!(markers[0], JournalMarker::HelperHandoff)
        && matches!(markers[1], JournalMarker::SimulationProved)
        && matches!(markers[2], JournalMarker::ExecutionStarted);
    let mut receipt = false;
    let mut j: usize = ri + 1;
    while j < n
        invariant
            n == m.len(),
            m == markers@,
            ri < j <= n || (j == ri + 1 && ri < n),
            receipt <==> exists|q: int| ri < q < j && m[q] == JournalMarker::ReceiptCreated,
        decreases n - j,
    {
        if matches!(markers[j], JournalMarker::ReceiptCreated) {
            receipt = true;
        }
        j = j + 1;
    }
    if !final_state || !prefix || !receipt {
        return Ok(RecoveryClassification::RecoveryRequired);
    }
    let mut succeeded: usize = 0;
    let mut failed: usize = 0;
    let mut k: usize = 0;
    while k < n
        invariant
            n == m.len(),
            m == markers@,
            k <= n,
            succeeded == count_of(m.subrange(0, k as int), JournalMarker::ResultSucceeded),
            failed == count_of(m.subrange(0, k as int), JournalMarker::ResultFailed),
            succeeded <= k && failed <= k,
        decreases n - k,
    {
        proof {
            assert(m.subrange(0, k + 1).drop_last() =~= m.subrange(0, k as int));
        }
        if matches!(markers[k], JournalMarker::ResultSucceeded) {
            succeeded = succeeded + 1;
        }
        if matches!(markers[k], JournalMarker::ResultFailed) {
            failed = failed + 1;
        }
        k = k + 1;
    }
    proof {
        assert(m.subrange(0, n as int) =~= m);
    }
    if succeeded == 1 && failed == 0 {
        Ok(RecoveryClassification::Succeeded)
    } else if succeeded == 0 && failed == 1 {
        Ok(RecoveryClassification::Failed)
    } else {
        Ok(RecoveryClassification::RecoveryRequired)
    }
}

/// The next sequence number when a journal is opened: 1 for empty contents
/// (the caller then writes the header), otherwise what the records prove.
pub fn opened_sequence(contents: &[u8]) -> (r: Result<u64, JournalError>)
    ensures
        contents@.len() == 0 ==> r == Ok::<u64, JournalError>(1),
        contents@.len() != 0 ==> r == spec_parse_records(contents@),
{
    if contents.len() == 0 {
        Ok(1)
    } else {
        parse_records(contents)
    }
}

/// Appending the record of the next sequence number to a well-formed journal
/// keeps it well-formed, advances the next sequence number by one, and adds
/// exactly that marker after the earlier ones.
pub proof fn lemma_append_record(c: Seq<u8>, marker: JournalMarker)
    requires
        spec_parse_records(c) is Ok,
        record_count(c) + 1 < u64::MAX,
    ensures
        spec_parse_records(c + spec_record(spec_parse_records(c)->Ok_0, marker))
            == Ok::<u64, JournalError>((spec_parse_records(c)->Ok_0 + 1) as u64),
        spec_markers(c + spec_record(spec_parse_records(c)->Ok_0, marker)) == spec_markers(c).push(marker),
{
    let next = spec_parse_records(c)->Ok_0;
    let rec = spec_record(next, marker);
    let d = c + rec;
    let n = record_count(c);
    lemma_byte_powers();
    lemma_be_bytes_value(next as nat, 8);
    assert(rec.len() == 10);
    assert(d.subrange(0, 8) =~= c.subrange(0, 8));
    assert(well_framed(d));
    assert(record_count(d) == n + 1);
    assert forall|i: int| 0 <= i < record_count(d) implies #[trigger] record_valid(record_at(d, i), (i + 1) as u64) by {
        if i < n {
            assert(record_at(d, i) =~= record_at(c, i));
            assert(record_valid(record_at(c, i), (i + 1) as u64));
        } else {
            assert(record_at(d, i) =~= rec);
            assert(rec.subrange(0, 8) =~= be_bytes(next as nat, 8));
            assert(rec[8] == marker.spec_byte());
        }
    }
    assert(spec_markers(d) =~= spec_markers(c).push(marker)) by {
        assert forall|i: int| 0 <= i < n implies record_at(d, i) == record_at(c, i) by {
            assert(record_at(d, i) =~= record_at(c, i));
        }
        assert(record_at(d, n as int) =~= rec);
        assert(rec[8] == marker.spec_byte());
    }
}

proof fn lemma_first_result_found(m: Seq<JournalMarker>, i: int)
    requires
        0 <= i,
    ensures
        first_result_from(m, i) matches Some(ri) ==> {
            &&& i <= ri < m.len()
            &&& (m[ri] == JournalMarker::ResultSucceeded || m[ri] == JournalMarker::ResultFailed)
            &&& forall|k: int| i <= k < ri ==> m[k] != JournalMarker::ResultSucceeded && m[k] != JournalMarker::ResultFailed
        },
    decreases m.len() - i,
{
    if i < m.len() && !is_result(m[i]) {
        lemma_first_result_found(m, i + 1);
    }
}

proof fn lemma_count_presence(m: Seq<JournalMarker>, x: JournalMarker)
    ensures
        count_of(m, x) == 0 ==> forall|k: int| 0 <= k < m.len() ==> m[k] != x,
        count_of(m, x) > 0 ==> exists|k: int| 0 <= k < m.len() && m[k] == x,
    decreases m.len(),
{
    if m.len() > 0 {
        let d = m.drop_last();
        lemma_count_presence(d, x);
        assert forall|k: int| 0 <= k < d.len() implies d[k] == m[k] by {}
        if count_of(m, x) > 0 && m.last() != x {
            let k = choose|k: int| 0 <= k < d.len() && d[k] == x;
            assert(m[k] == x);
        }
        if count_of(m, x) > 0 && m.last() == x {
            assert(m[m.len() - 1] == x);
        }
    }
}

/// What a terminal classification takes from the journal's markers.
#[verifier::opaque]
pub open spec fn terminal_evidence(m: Seq<JournalMarker>, succeeded: bool) -> bool {
    &&& first_result_from(m, 0) is Some
    &&& m.len() >= 3
    &&& m[0] == JournalMarker::HelperHandoff
    &&& m[1] == JournalMarker::SimulationProved
    &&& m[2] == JournalMarker::ExecutionStarted
    &&& m.last() == JournalMarker::FinalStateCommitted
    &&& exists|j: int| first_result_from(m, 0)->Some_0 < j < m.len() && m[j] == JournalMarker::ReceiptCreated
    &&& if succeeded {
        count_of(m, JournalMarker::ResultSucceeded) == 1 && count_of(m, JournalMarker::ResultFailed) == 0
    } else {
        count_of(m, JournalMarker::ResultSucceeded) == 0 && count_of(m, JournalMarker::ResultFailed) == 1
    }
}

proof fn lemma_classify_terminal(c: Seq<u8>)
    ensures
        spec_classify(c) == Ok::<RecoveryClassification, JournalError>(RecoveryClassification::Succeeded)
            ==> terminal_evidence(spec_markers(c), true),
        spec_classify(c) == Ok::<RecoveryClassification, JournalError>(RecoveryClassification::Failed)
            ==> terminal_evidence(spec_markers(c), false),
{
    reveal(terminal_evidence);
}

/// A receipt marker stands after the first result marker.
pub open spec fn receipt_follows_first_result(m: Seq<JournalMarker>) -> bool {
    exists|ri: int, j: int|
        #![trigger m[ri], m[j]]
        {
            &&& 0 <= ri < j < m.len()
            &&& is_result(m[ri])
            &&& (forall|k: int| 0 <= k < ri ==> !is_result(#[trigger] m[k]))
            &&& m[j] == JournalMarker::ReceiptCreated
        }
}

#[verifier::rlimit(50)]
proof fn lemma_evidence_facts(m: Seq<JournalMarker>, succeeded: bool)
    requires
        terminal_evidence(m, succeeded),
    ensures
        m.len() >= 3,
        m[0] == JournalMarker::HelperHandoff,
        m[1] == JournalMarker::SimulationProved,
        m[2] == JournalMarker::ExecutionStarted,
        m.last() == JournalMarker::FinalStateCommitted,
        receipt_follows_first_result(m),
        succeeded ==> (exists|k: int| 0 <= k < m.len() && m[k] == JournalMarker::ResultSucceeded)
            && (forall|k: int| 0 <= k < m.len() ==> m[k] != JournalMarker::ResultFailed),
        !succeeded ==> (exists|k: int| 0 <= k < m.len() && m[k] == JournalMarker::ResultFailed)
            && (forall|k: int| 0 <= k < m.len() ==> m[k] != JournalMarker::ResultSucceeded),
{
    reveal(terminal_evidence);
    lemma_first_result_found(m, 0);
    lemma_count_presence(m, JournalMarker::ResultSucceeded);
    lemma_count_presence(m, JournalMarker::ResultFailed);
    let ri = first_result_from(m, 0)->Some_0;
    let j = choose|j: int| ri < j < m.len() && m[j] == JournalMarker::ReceiptCreated;
    assert(0 <= ri < j < m.len());
    assert(m[j] == JournalMarker::ReceiptCreated);
    assert(is_result(m[ri]));
    assert(forall|k: int| 0 <= k < ri ==> !is_result(#[trigger] m[k]));
}

/// What the journal's markers must show for each terminal classification.
pub open spec fn shows_terminal_evidence(m: Seq<JournalMarker>, succeeded: bool) -> bool {
    &&& m.len() >= 3
    &&& m[0] == JournalMarker::HelperHandoff
    &&& m[1] == JournalMarker::SimulationProved
    &&& m[2] == JournalMarker::ExecutionStarted
    &&& m.last() == JournalMarker::FinalStateCommitted
    &&& receipt_follows_first_result(m)
    &&& if succeeded {
        &&& exists|k: int| 0 <= k < m.len() && m[k] == JournalMarker::ResultSucceeded
        &&& forall|k: int| 0 <= k < m.len() ==> m[k] != JournalMarker::ResultFailed
    } else {
        &&& exists|k: int| 0 <= k < m.len() && m[k] == JournalMarker::ResultFailed
        &&& forall|k: int| 0 <= k < m.len() ==> m[k] != JournalMarker::ResultSucceeded
    }
}

proof fn lemma_evidence_shown(m: Seq<JournalMarker>)
    ensures
        terminal_evidence(m, true) ==> shows_terminal_evidence(m, true),
        terminal_evidence(m, false) ==> shows_terminal_evidence(m, false),
{
    if terminal_evidence(m, true) {
        lemma_evidence_facts(m, true);
    }
    if terminal_evidence(m, false) {
        lemma_evidence_facts(m, false);
    }
}

/// A journal is classified as a proven success or failure only with full
/// evidence: it starts with the helper handoff, the proved simulation and
/// the execution start; a receipt follows the first result marker; it ends
/// with the final-state commit; and it holds the one result that is
/// claimed and never the other.
#[verifier::spinoff_prover]
pub proof fn lemma_terminal_classification_needs_evidence(c: Seq<u8>)
    ensures
        spec_classify(c) == Ok::<RecoveryClassification, JournalError>(RecoveryClassification::Succeeded)
            ==> shows_terminal_evidence(spec_markers(c), true),
        spec_classify(c) == Ok::<RecoveryClassification, JournalError>(RecoveryClassification::Failed)
            ==> shows_terminal_evidence(spec_markers(c), false),
{
    lemma_classify_terminal(c);
    lemma_evidence_shown(spec_markers(c));
}

} // verus!
