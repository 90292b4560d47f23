//! The persisted record format: one progress event per line, a JSON
//! object with the fields `timestamp`, `document_hash`, `offset`,
//! `total_lines` and `percentage`. [`encode_event`] produces the canonical
//! line for an event; [`parse_event`] accepts exactly those lines and
//! rejects everything else, so a store scan can skip malformed records.

use vstd::prelude::*;
use crate::progress::{ProgressEvent, spec_percent_centi, percent_centi};

verus! {

/// An ASCII decimal digit.
pub open spec fn is_digit(b: u8) -> bool {
    48 <= b <= 57
}

fn is_digit_byte(b: u8) -> (r: bool)
    ensures
        r == is_digit(b),
{
    48 <= b && b <= 57
}

/// The canonical decimal digits of `n` (no sign, no leading zeros).
pub open spec fn spec_dec(n: int) -> Seq<u8>
    decreases n,
{
    if n < 10 {
        seq![(48 + if n >= 0 { n } else { 0 }) as u8]
    } else {
        spec_dec(n / 10).push((48 + n % 10) as u8)
    }
}

/// The number a sequence of digit bytes denotes.
pub open spec fn spec_digits_val(s: Seq<u8>) -> int
    decreases s.len(),
{
    if s.len() == 0 {
        0
    } else {
        spec_digits_val(s.drop_last()) * 10 + (s.last() - 48)
    }
}

proof fn lemma_dec_shape(n: int)
    requires
        n >= 0,
    ensures
        spec_dec(n).len() >= 1,
        forall|i: int| 0 <= i < spec_dec(n).len() ==> is_digit(#[trigger] spec_dec(n)[i]),
        spec_digits_val(spec_dec(n)) == n,
    decreases n,
{
    if n < 10 {
        assert(((48 + n) as u8) == 48 + n);
        assert(spec_dec(n) =~= seq![(48 + n) as u8]);
        assert(spec_dec(n).drop_last() =~= Seq::<u8>::empty());
        assert(spec_dec(n).len() == 1);
        assert(spec_dec(n).last() == 48 + n);
        assert(spec_digits_val(spec_dec(n).drop_last()) == 0);
    } else {
        lemma_dec_shape(n / 10);
        vstd::arithmetic::div_mod::lemma_fundamental_div_mod(n, 10);
        assert(((48 + n % 10) as u8) == 48 + n % 10);
        assert(spec_dec(n).drop_last() =~= spec_dec(n / 10));
        assert(spec_dec(n).last() == 48 + n % 10);
        assert(spec_digits_val(spec_dec(n).drop_last()) == n / 10);
        assert(spec_digits_val(spec_dec(n)) == (n / 10) * 10 + n % 10);
    }
}

/// The canonical digits of `n`, executable form.
fn dec_u64(n: u64) -> (v: Vec<u8>)
    ensures
        v@ == spec_dec(n as int),
    decreases n,
{
    if n < 10 {
        let mut v: Vec<u8> = Vec::new();
        v.push(48 + (n as u8));
        proof {
            assert(v@ =~= spec_dec(n as int));
        }
        v
    } else {
        let mut v = dec_u64(n / 10);
        v.push(48 + ((n % 10) as u8));
        proof {
            assert(v@ =~= spec_dec(n as int));
        }
        v
    }
}

/// Where the run of digit bytes beginning at `pos` ends.
pub open spec fn digit_run_end(s: Seq<u8>, pos: int) -> int
    decreases s.len() - pos,
{
    if pos < s.len() && is_digit(s[pos]) {
        digit_run_end(s, pos + 1)
    } else {
        pos
    }
}

/// What reading an unsigned decimal at `pos` yields: `None` when no digit
/// starts there or the run's value does not fit, else the value and the
/// position right after the run.
pub open spec fn spec_parse_u64(s: Seq<u8>, pos: int) -> Option<(u64, int)> {
    let end = digit_run_end(s, pos);
    if end == pos {
        None
    } else if spec_digits_val(s.subrange(pos, end)) <= u64::MAX {
        Some((spec_digits_val(s.subrange(pos, end)) as u64, end))
    } else {
        None
    }
}

/// Reads an unsigned decimal, executable form of [`spec_parse_u64`].
fn parse_u64_at(line: &Vec<u8>, pos: usize) -> (r: Option<(u64, usize)>)
    requires
        pos <= line@.len(),
    ensures
        r is None ==> spec_parse_u64(line@, pos as int) is None,
        r matches Some((v, q)) ==> spec_parse_u64(line@, pos as int) == Some((v, q as int)) && pos
            <= q <= line@.len(),
{
    let mut q: usize = pos;
    let mut acc: u128 = 0;
    let mut over = false;
    while q < line.len() && is_digit_byte(line[q])
        invariant
            pos <= q <= line@.len(),
            digit_run_end(line@, pos as int) == digit_run_end(line@, q as int),
            !over ==> acc <= u64::MAX && acc == spec_digits_val(line@.subrange(pos as int, q as int)),
            over ==> spec_digits_val(line@.subrange(pos as int, q as int)) > u64::MAX,
        decreases line@.len() - q,
    {
        let d = line[q];
        proof {
            assert(line@.subrange(pos as int, q + 1).drop_last() =~= line@.subrange(
                pos as int,
                q as int,
            ));
            assert(line@.subrange(pos as int, q + 1).last() == line@[q as int]);
        }
        if !over {
            let next: u128 = acc * 10 + ((d - 48) as u128);
            if next > u64::MAX as u128 {
                over = true;
            } else {
                acc = next;
            }
        }
        q += 1;
    }
    if q == pos {
        None
    } else if over {
        None
    } else {
        Some((acc as u64, q))
    }
}

/// A run of digits with a non-digit (or the end) right after it parses to
/// exactly its value.
proof fn lemma_parse_run(s: Seq<u8>, pos: int, v: int)
    requires
        0 <= pos,
        0 <= v <= u64::MAX,
        pos + spec_dec(v).len() <= s.len(),
        s.subrange(pos, pos + spec_dec(v).len()) == spec_dec(v),
        pos + spec_dec(v).len() == s.len() || !is_digit(s[pos + spec_dec(v).len()]),
    ensures
        spec_parse_u64(s, pos) == Some((v as u64, pos + spec_dec(v).len())),
{
    lemma_dec_shape(v);
    let end = pos + spec_dec(v).len();
    assert forall|i: int| pos <= i < end implies is_digit(#[trigger] s[i]) by {
        assert(s[i] == s.subrange(pos, end)[i - pos]);
    }
    lemma_run_end(s, pos, end);
    assert(spec_digits_val(s.subrange(pos, end)) == v);
}

proof fn lemma_run_end(s: Seq<u8>, pos: int, end: int)
    requires
        0 <= pos <= end <= s.len(),
        forall|i: int| pos <= i < end ==> is_digit(#[trigger] s[i]),
        end == s.len() || !is_digit(s[end]),
    ensures
        digit_run_end(s, pos) == end,
    decreases end - pos,
{
    if pos < end {
        lemma_run_end(s, pos + 1, end);
    }
}

/// Splitting a known concatenation off the tail of a sequence.
proof fn lemma_peel(s: Seq<u8>, pos: int, a: Seq<u8>, b: Seq<u8>)
    requires
        0 <= pos <= s.len(),
        s.subrange(pos, s.len() as int) == a + b,
    ensures
        pos + a.len() + b.len() == s.len(),
        s.subrange(pos, pos + a.len()) == a,
        s.subrange(pos + a.len(), s.len() as int) == b,
{
    let t = s.subrange(pos, s.len() as int);
    assert(t.len() == s.len() - pos);
    assert((a + b).len() == a.len() + b.len());
    assert forall|i: int| 0 <= i < a.len() implies s.subrange(pos, pos + a.len())[i] == a[i] by {
        assert((a + b)[i] == a[i]);
        assert(t[i] == (a + b)[i]);
        assert(t[i] == s[pos + i]);
        assert(s.subrange(pos, pos + a.len())[i] == s[pos + i]);
    }
    assert(s.subrange(pos, pos + a.len()) =~= a);
    assert forall|i: int|
        0 <= i < b.len() implies s.subrange(pos + a.len(), s.len() as int)[i] == b[i] by {
        assert((a + b)[a.len() + i] == b[i]);
        assert(t[a.len() + i] == (a + b)[a.len() + i]);
        assert(t[a.len() + i] == s[pos + a.len() + i]);
        assert(s.subrange(pos + a.len(), s.len() as int)[i] == s[pos + a.len() + i]);
    }
    assert(s.subrange(pos + a.len(), s.len() as int) =~= b);
}

/// `{"timestamp":`
pub open spec fn spec_key_timestamp() -> Seq<u8> {
    seq![('{' as u8), ('"' as u8), ('t' as u8), ('i' as u8), ('m' as u8), ('e' as u8), ('s' as u8), ('t' as u8), ('a' as u8), ('m' as u8), ('p' as u8), ('"' as u8), (':' as u8)]
}

/// `,"document_hash":`
pub open spec fn spec_key_hash() -> Seq<u8> {
    seq![
        (',' as u8),
        ('"' as u8),
        ('d' as u8),
        ('o' as u8),
        ('c' as u8),
        ('u' as u8),
        ('m' as u8),
        ('e' as u8),
        ('n' as u8),
        ('t' as u8),
        ('_' as u8),
        ('h' as u8),
        ('a' as u8),
        ('s' as u8),
        ('h' as u8),
        ('"' as u8),
        (':' as u8),
    ]
}

/// `,"offset":`
pub open spec fn spec_key_offset() -> Seq<u8> {
    seq![(',' as u8), ('"' as u8), ('o' as u8), ('f' as u8), ('f' as u8), ('s' as u8), ('e' as u8), ('t' as u8), ('"' as u8), (':' as u8)]
}

/// `,"total_lines":`
pub open spec fn spec_key_total() -> Seq<u8> {
    seq![(',' as u8), ('"' as u8), ('t' as u8), ('o' as u8), ('t' as u8), ('a' as u8), ('l' as u8), ('_' as u8), ('l' as u8), ('i' as u8), ('n' as u8), ('e' as u8), ('s' as u8), ('"' as u8), (':' as u8)]
}

/// `,"percentage":`
pub open spec fn spec_key_percentage() -> Seq<u8> {
    seq![(',' as u8), ('"' as u8), ('p' as u8), ('e' as u8), ('r' as u8), ('c' as u8), ('e' as u8), ('n' as u8), ('t' as u8), ('a' as u8), ('g' as u8), ('e' as u8), ('"' as u8), (':' as u8)]
}

fn key_timestamp() -> (v: Vec<u8>)
    ensures
        v@ == spec_key_timestamp(),
{
    let mut v: Vec<u8> = Vec::new();
    v.push(('{' as u8));
    v.push(('"' as u8));
    v.push(('t' as u8));
    v.push(('i' as u8));
    v.push(('m' as u8));
    v.push(('e' as u8));
    v.push(('s' as u8));
    v.push(('t' as u8));
    v.push(('a' as u8));
    v.push(('m' as u8));
    v.push(('p' as u8));
    v.push(('"' as u8));
    v.push((':' as u8));
    proof {
        assert(v@ =~= spec_key_timestamp());
    }
    v
}

fn key_hash() -> (v: Vec<u8>)
    ensures
        v@ == spec_key_hash(),
{
    let mut v: Vec<u8> = Vec::new();
    v.push((',' as u8));
    v.push(('"' as u8));
    v.push(('d' as u8));
    v.push(('o' as u8));
    v.push(('c' as u8));
    v.push(('u' as u8));
    v.push(('m' as u8));
    v.push(('e' as u8));
    v.push(('n' as u8));
    v.push(('t' as u8));
    v.push(('_' as u8));
    v.push(('h' as u8));
    v.push(('a' as u8));
    v.push(('s' as u8));
    v.push(('h' as u8));
    v.push(('"' as u8));
    v.push((':' as u8));
    proof {
        assert(v@ =~= spec_key_hash());
    }
    v
}

fn key_offset() -> (v: Vec<u8>)
    ensures
        v@ == spec_key_offset(),
{
    let mut v: Vec<u8> = Vec::new();
    v.push((',' as u8));
    v.push(('"' as u8));
    v.push(('o' as u8));
    v.push(('f' as u8));
    v.push(('f' as u8));
    v.push(('s' as u8));
    v.push(('e' as u8));
    v.push(('t' as u8));
    v.push(('"' as u8));
    v.push((':' as u8));
    proof {
        assert(v@ =~= spec_key_offset());
    }
    v
}

fn key_total() -> (v: Vec<u8>)
    ensures
        v@ == spec_key_total(),
{
    let mut v: Vec<u8> = Vec::new();
    v.push((',' as u8));
    v.push(('"' as u8));
    v.push(('t' as u8));
    v.push(('o' as u8));
    v.push(('t' as u8));
    v.push(('a' as u8));
    v.push(('l' as u8));
    v.push(('_' as u8));
    v.push(('l' as u8));
    v.push(('i' as u8));
    v.push(('n' as u8));
    v.push(('e' as u8));
    v.push(('s' as u8));
    v.push(('"' as u8));
    v.push((':' as u8));
    proof {
        assert(v@ =~= spec_key_total());
    }
    v
}

fn key_percentage() -> (v: Vec<u8>)
    ensures
        v@ == spec_key_percentage(),
{
    let mut v: Vec<u8> = Vec::new();
    v.push((',' as u8));
    v.push(('"' as u8));
    v.push(('p' as u8));
    v.push(('e' as u8));
    v.push(('r' as u8));
    v.push(('c' as u8));
    v.push(('e' as u8));
    v.push(('n' as u8));
    v.push(('t' as u8));
    v.push(('a' as u8));
    v.push(('g' as u8));
    v.push(('e' as u8));
    v.push(('"' as u8));
    v.push((':' as u8));
    proof {
        assert(v@ =~= spec_key_percentage());
    }
    v
}

/// The percentage field's text: the percentage in hundredths, written
/// with two decimal places (`40.00` for two fifths).
pub open spec fn spec_pct_digits(offset: int, total: int) -> Seq<u8> {
    let pc = spec_percent_centi(offset, total);
    spec_dec(pc / 100).push(('.' as u8)).push((48 + pc / 10 % 10) as u8).push((48 + pc % 10) as u8)
}

fn pct_digits(offset: u64, total: u64) -> (v: Vec<u8>)
    requires
        offset <= total,
    ensures
        v@ == spec_pct_digits(offset as int, total as int),
{
    let pc = percent_centi(offset, total);
    let mut v = dec_u64(pc / 100);
    v.push(('.' as u8));
    v.push(48 + ((pc / 10 % 10) as u8));
    v.push(48 + ((pc % 10) as u8));
    v
}

/// The positions of the four numbers inside an encoded event, one past
/// each number's last digit.
pub open spec fn enc_p1(e: ProgressEvent) -> int {
    13 + spec_dec(e.timestamp as int).len() as int
}

pub open spec fn enc_p2(e: ProgressEvent) -> int {
    enc_p1(e) + 17 + spec_dec(e.document_hash as int).len() as int
}

pub open spec fn enc_p3(e: ProgressEvent) -> int {
    enc_p2(e) + 10 + spec_dec(e.offset as int).len() as int
}

pub open spec fn enc_p4(e: ProgressEvent) -> int {
    enc_p3(e) + 15 + spec_dec(e.total_lines as int).len() as int
}

/// The canonical encoding of one progress event.
pub open spec fn spec_encode(e: ProgressEvent) -> Seq<u8> {
    spec_key_timestamp() + spec_dec(e.timestamp as int) + spec_key_hash() + spec_dec(
        e.document_hash as int,
    ) + spec_key_offset() + spec_dec(e.offset as int) + spec_key_total() + spec_dec(
        e.total_lines as int,
    ) + spec_key_percentage() + spec_pct_digits(e.offset as int, e.total_lines as int) + seq![('}' as u8)]
}

/// Builds the canonical line for an event.
pub fn encode_event(e: &ProgressEvent) -> (v: Vec<u8>)
    requires
        e.wf(),
    ensures
        v@ == spec_encode(*e),
{
    let mut v = key_timestamp();
    let mut part = dec_u64(e.timestamp);
    v.append(&mut part);
    let mut part = key_hash();
    v.append(&mut part);
    let mut part = dec_u64(e.document_hash);
    v.append(&mut part);
    let mut part = key_offset();
    v.append(&mut part);
    let mut part = dec_u64(e.offset);
    v.append(&mut part);
    let mut part = key_total();
    v.append(&mut part);
    let mut part = dec_u64(e.total_lines);
    v.append(&mut part);
    let mut part = key_percentage();
    v.append(&mut part);
    let mut part = pct_digits(e.offset, e.total_lines);
    v.append(&mut part);
    v.push(('}' as u8));
    proof {
        assert(v@ =~= spec_encode(*e));
    }
    v
}

/// Where each number of an encoding stands, as [`spec_parse_u64`] sees
/// it: parsing at the fixed key offsets recovers exactly the event's
/// fields.
#[verifier::rlimit(100)]
proof fn lemma_encode_parse_points(e: ProgressEvent, line: Seq<u8>)
    requires
        e.wf(),
        line == spec_encode(e),
    ensures
        line.len() >= 14,
        spec_parse_u64(line, 13) == Some((e.timestamp, enc_p1(e))),
        spec_parse_u64(line, enc_p1(e) + 17) == Some((e.document_hash, enc_p2(e))),
        spec_parse_u64(line, enc_p2(e) + 10) == Some((e.offset, enc_p3(e))),
        spec_parse_u64(line, enc_p3(e) + 15) == Some((e.total_lines, enc_p4(e))),
        enc_p4(e) + 14 + spec_pct_digits(e.offset as int, e.total_lines as int).len() + 1
            == line.len(),
{
    lemma_dec_shape(e.timestamp as int);
    lemma_dec_shape(e.document_hash as int);
    lemma_dec_shape(e.offset as int);
    lemma_dec_shape(e.total_lines as int);
    let dt = spec_dec(e.timestamp as int);
    let dh = spec_dec(e.document_hash as int);
    let doff = spec_dec(e.offset as int);
    let dtot = spec_dec(e.total_lines as int);
    let pct = spec_pct_digits(e.offset as int, e.total_lines as int);
    let t9 = seq![('}' as u8)];
    let t8 = pct + t9;
    let t7 = spec_key_percentage() + t8;
    let t6 = dtot + t7;
    let t5 = spec_key_total() + t6;
    let t4 = doff + t5;
    let t3 = spec_key_offset() + t4;
    let t2 = dh + t3;
    let t1 = spec_key_hash() + t2;
    let t0 = dt + t1;
    assert(line =~= spec_key_timestamp() + t0);
    assert(line.subrange(0, line.len() as int) =~= line);
    lemma_peel(line, 0, spec_key_timestamp(), t0);
    lemma_peel(line, 13, dt, t1);
    assert(line[enc_p1(e)] == t1[0]);
    lemma_parse_run(line, 13, e.timestamp as int);
    lemma_peel(line, enc_p1(e), spec_key_hash(), t2);
    lemma_peel(line, enc_p1(e) + 17, dh, t3);
    assert(line[enc_p2(e)] == t3[0]);
    lemma_parse_run(line, enc_p1(e) + 17, e.document_hash as int);
    lemma_peel(line, enc_p2(e), spec_key_offset(), t4);
    lemma_peel(line, enc_p2(e) + 10, doff, t5);
    assert(line[enc_p3(e)] == t5[0]);
    lemma_parse_run(line, enc_p2(e) + 10, e.offset as int);
    lemma_peel(line, enc_p3(e), spec_key_total(), t6);
    lemma_peel(line, enc_p3(e) + 15, dtot, t7);
    assert(line[enc_p4(e)] == t7[0]);
    lemma_parse_run(line, enc_p3(e) + 15, e.total_lines as int);
    lemma_peel(line, enc_p4(e), spec_key_percentage(), t8);
}

/// Bytewise comparison of two records.
fn bytes_eq(a: &Vec<u8>, b: &Vec<u8>) -> (r: bool)
    ensures
        r == (a@ == b@),
{
    if a.len() != b.len() {
        return false;
    }
    let mut i: usize = 0;
    while i < a.len()
        invariant
            i <= a@.len(),
            a@.len() == b@.len(),
            forall|j: int| 0 <= j < i ==> a@[j] == b@[j],
        decreases a@.len() - i,
    {
        if a[i] != b[i] {
            return false;
        }
        i += 1;
    }
    proof {
        assert(a@ =~= b@);
    }
    true
}

/// Reads one line of the store back into an event.
///
/// Exactly the lines [`encode_event`] produces are accepted: the result
/// is `Some(e)` precisely when the line is the canonical encoding of the
/// well-formed event `e`; any other line — a partial write, foreign text,
/// an inconsistent percentage — yields `None` and is skipped by the
/// caller.
pub fn parse_event(line: &Vec<u8>) -> (r: Option<ProgressEvent>)
    ensures
        r matches Some(e) ==> e.wf() && line@ == spec_encode(e),
        forall|e: ProgressEvent| e.wf() && line@ == spec_encode(e) ==> r == Some(e),
{
    let n = line.len();
    if n < 14 {
        proof {
            assert forall|e: ProgressEvent| e.wf() && line@ == spec_encode(e) implies false by {
                lemma_encode_parse_points(e, line@);
            }
        }
        return None;
    }
    let r1 = parse_u64_at(line, 13);
    let (timestamp, p1) = match r1 {
        Some(x) => x,
        None => {
            proof {
                assert forall|e: ProgressEvent| e.wf() && line@ == spec_encode(e) implies false by {
                    lemma_encode_parse_points(e, line@);
                }
            }
            return None;
        },
    };
    if n - p1 < 17 {
        proof {
            assert forall|e: ProgressEvent| e.wf() && line@ == spec_encode(e) implies false by {
                lemma_encode_parse_points(e, line@);
            }
        }
        return None;
    }
    let r2 = parse_u64_at(line, p1 + 17);
    let (document_hash, p2) = match r2 {
        Some(x) => x,
        None => {
            proof {
                assert forall|e: ProgressEvent| e.wf() && line@ == spec_encode(e) implies false by {
                    lemma_encode_parse_points(e, line@);
                }
            }
            return None;
        },
    };
    if n - p2 < 10 {
        proof {
            assert forall|e: ProgressEvent| e.wf() && line@ == spec_encode(e) implies false by {
                lemma_encode_parse_points(e, line@);
            }
        }
        return None;
    }
    let r3 = parse_u64_at(line, p2 + 10);
    let (offset, p3) = match r3 {
        Some(x) => x,
        None => {
            proof {
                assert forall|e: ProgressEvent| e.wf() && line@ == spec_encode(e) implies false by {
                    lemma_encode_parse_points(e, line@);
                }
            }
            return None;
        },
    };
    if n - p3 < 15 {
        proof {
            assert forall|e: ProgressEvent| e.wf() && line@ == spec_encode(e) implies false by {
                lemma_encode_parse_points(e, line@);
            }
        }
        return None;
    }
    let r4 = parse_u64_at(line, p3 + 15);
    let (total_lines, _p4) = match r4 {
        Some(x) => x,
        None => {
            proof {
                assert forall|e: ProgressEvent| e.wf() && line@ == spec_encode(e) implies false by {
                    lemma_encode_parse_points(e, line@);
                }
            }
            return None;
        },
    };
    if offset > total_lines {
        proof {
            assert forall|e: ProgressEvent| e.wf() && line@ == spec_encode(e) implies false by {
                lemma_encode_parse_points(e, line@);
            }
        }
        return None;
    }
    let cand = ProgressEvent { timestamp, document_hash, offset, total_lines };
    let enc = encode_event(&cand);
    if bytes_eq(&enc, line) {
        proof {
            assert forall|e: ProgressEvent| e.wf() && line@ == spec_encode(e) implies Some(cand)
                == Some(e) by {
                lemma_encode_parse_points(e, line@);
            }
        }
        Some(cand)
    } else {
        proof {
            assert forall|e: ProgressEvent| e.wf() && line@ == spec_encode(e) implies false by {
                lemma_encode_parse_points(e, line@);
            }
        }
        None
    }
}

} // verus!
