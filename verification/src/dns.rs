//! The DNS message inside a frame: reading the one question of a query,
//! and turning the query into its answer.
//!
//! Only what a plain address lookup needs is understood. A name is a row
//! of labels, each behind its length byte, closed by a zero byte; a length
//! byte above 63 (a compression pointer among them) is refused. Whatever
//! follows the question in a query is cut off when the answer is made.

use vstd::prelude::*;
use crate::error::ParseError;
use crate::frame::{
    checksums_valid, is_derived_field, lemma_refreshed_keeps, lemma_refreshed_matches,
    lemma_refreshed_valid, lemma_turned_around_fields, refresh, refreshed, turn_around,
    turned_around, Kind, Layout, DNS_HEADER_LEN, ETH_LEN, IP_DST_OFFSET, IP_SRC_OFFSET,
    UDP_HEADER_LEN,
};
use crate::types::{DnsQuery, Question};
use crate::wire::{get_u16, get_u32, put_u16, put_u32, read_u16, write_u16, write_u32};

verus! {

/// Where the DNS header holds its flags, counted from its start.
pub const DNS_FLAGS_OFFSET: usize = 2;

/// Where the DNS header holds the number of questions.
pub const DNS_QUESTIONS_OFFSET: usize = 4;

/// Where the DNS header holds the number of answers.
pub const DNS_ANSWERS_OFFSET: usize = 6;

/// Where the DNS header holds the number of authority records.
pub const DNS_AUTHORITIES_OFFSET: usize = 8;

/// Where the DNS header holds the number of additional records.
pub const DNS_ADDITIONALS_OFFSET: usize = 10;

/// The flag that tells a response from a query.
pub const DNS_RESPONSE_FLAG: u16 = 0x8000;

/// The most bytes that a name has in wire format.
pub const MAX_NAME_LEN: usize = 255;

/// The most bytes that a label has.
pub const MAX_LABEL_LEN: u8 = 63;

/// The least value of a length byte that is a compression pointer.
pub const COMPRESSION_MARK: u8 = 0xC0;

/// The type number of an address record.
pub const TYPE_A: u16 = 1;

/// The class number of the Internet.
pub const CLASS_IN: u16 = 1;

/// Length of the answer record that is appended.
pub const ANSWER_LEN: usize = 16;

/// Where the DNS header of a frame begins.
pub open spec fn dns_start(lay: Layout) -> int {
    lay.l4 + UDP_HEADER_LEN
}

/// Where the question of a frame begins.
pub open spec fn question_start(lay: Layout) -> int {
    lay.l4 + UDP_HEADER_LEN + DNS_HEADER_LEN
}

/// A byte with an ASCII capital letter turned into the small one.
pub open spec fn lower(b: u8) -> u8 {
    if 65 <= b <= 90 {
        (b + 32) as u8
    } else {
        b
    }
}

/// A name with its letters in lower case. Length bytes are at most 63 and
/// so are no letters.
pub open spec fn lowered(name: Seq<u8>) -> Seq<u8> {
    Seq::new(name.len(), |i: int| lower(name[i]))
}

/// Where the name that begins at `start` ends, found by walking the labels
/// from `pos` on: the place behind the closing zero byte, or why the name
/// is refused. The message ends at `end`.
pub open spec fn name_end(s: Seq<u8>, start: int, pos: int, end: int) -> Result<int, ParseError>
    decreases (if pos < end { end - pos } else { 0 }),
{
    if pos >= end {
        Err(ParseError::Truncated)
    } else if s[pos] == 0 {
        Ok(pos + 1)
    } else if s[pos] >= COMPRESSION_MARK {
        Err(ParseError::Compression)
    } else if s[pos] > MAX_LABEL_LEN {
        Err(ParseError::LabelLength)
    } else if pos + 2 + s[pos] - start > MAX_NAME_LEN {
        Err(ParseError::NameLength)
    } else {
        name_end(s, start, pos + 1 + s[pos], end)
    }
}

/// The question that lies behind the DNS header of a frame, and the place
/// behind it; or why its name is refused.
pub open spec fn question_at(s: Seq<u8>, lay: Layout) -> Result<(Question, int), ParseError> {
    match name_end(s, question_start(lay), question_start(lay), lay.end as int) {
        Err(e) => Err(e),
        Ok(behind) => if behind + 4 > lay.end {
            Err(ParseError::Truncated)
        } else {
            Ok(
                (
                    Question {
                        name: lowered(s.subrange(question_start(lay), behind)),
                        record_type: get_u16(s, behind) as u16,
                        class: get_u16(s, behind + 2) as u16,
                    },
                    behind + 4,
                ),
            )
        },
    }
}

/// The question of the DNS query in a frame, and the place behind it; or
/// why the frame is not taken as a query to answer. The tests are made in
/// this order, and the first that fails decides.
pub open spec fn parse_question(s: Seq<u8>, lay: Layout) -> Result<(Question, int), ParseError> {
    let h = dns_start(lay);
    let flags = get_u16(s, h + DNS_FLAGS_OFFSET);
    if lay.kind != Kind::DNS {
        Err(ParseError::NotDns)
    } else if flags >= DNS_RESPONSE_FLAG || (flags / 0x800) % 16 != 0 {
        Err(ParseError::NotQuery)
    } else if get_u16(s, h + DNS_QUESTIONS_OFFSET) != 1 || get_u16(s, h + DNS_ANSWERS_OFFSET) != 0
        || get_u16(s, h + DNS_AUTHORITIES_OFFSET) != 0 {
        Err(ParseError::SectionCount)
    } else {
        question_at(s, lay)
    }
}

/// A name that is accepted ends inside the message, spans at most 255
/// bytes, and the walk does not go backwards.
pub proof fn lemma_name_end_bounds(s: Seq<u8>, start: int, pos: int, end: int)
    requires
        start <= pos,
        pos - start < MAX_NAME_LEN,
        name_end(s, start, pos, end) is Ok,
    ensures
        pos < name_end(s, start, pos, end)->Ok_0 <= end,
        name_end(s, start, pos, end)->Ok_0 - start <= MAX_NAME_LEN,
    decreases (if pos < end { end - pos } else { 0 }),
{
    if pos < end && s[pos] != 0 {
        lemma_name_end_bounds(s, start, pos + 1 + s[pos], end);
    }
}

/// A question that is accepted lies inside the message behind the DNS
/// header, the message is a query, and the question is short enough for
/// an answer to follow it.
pub proof fn lemma_parse_bounds(s: Seq<u8>, lay: Layout)
    requires
        lay.fits(s.len() as int),
        parse_question(s, lay) is Ok,
    ensures
        lay.kind == Kind::DNS,
        get_u16(s, dns_start(lay) + DNS_FLAGS_OFFSET) < DNS_RESPONSE_FLAG,
        question_start(lay) + 5 <= parse_question(s, lay)->Ok_0.1 <= lay.end,
        parse_question(s, lay)->Ok_0.1 <= question_start(lay) + MAX_NAME_LEN + 4,
        parse_question(s, lay)->Ok_0.0.name.len() <= MAX_NAME_LEN,
{
    lemma_name_end_bounds(s, question_start(lay), question_start(lay), lay.end as int);
    let behind = name_end(s, question_start(lay), question_start(lay), lay.end as int)->Ok_0;
    assert(lowered(s.subrange(question_start(lay), behind)).len() == behind - question_start(lay));
}

/// A question read from a frame, and where it ends there.
#[derive(Clone, Debug)]
pub struct ParsedQuestion {
    /// The question, normalized.
    pub query: DnsQuery,
    /// The place behind the question in the frame.
    pub end: usize,
}

/// Read the question of the DNS query in a frame.
pub(crate) fn parse(data: &Vec<u8>, lay: &Layout) -> (r: Result<ParsedQuestion, ParseError>)
    requires
        lay.fits(data.len() as int),
    ensures
        match parse_question(data@, *lay) {
            Ok(found) => r matches Ok(p) && p.query@ == found.0 && p.end == found.1,
            Err(e) => r matches Err(f) && f == e,
        },
{
    if !matches!(lay.kind, Kind::DNS) {
        return Err(ParseError::NotDns);
    }
    let h: usize = lay.l4 + UDP_HEADER_LEN;
    let end: usize = lay.end;
    let flags: u16 = match read_u16(data, h + DNS_FLAGS_OFFSET) {
        Ok(v) => v,
        Err(_) => { return Err(ParseError::Truncated); },
    };
    if flags >= DNS_RESPONSE_FLAG || (flags / 0x800) % 16 != 0 {
        return Err(ParseError::NotQuery);
    }
    let questions: u16 = match read_u16(data, h + DNS_QUESTIONS_OFFSET) {
        Ok(v) => v,
        Err(_) => { return Err(ParseError::Truncated); },
    };
    let answers: u16 = match read_u16(data, h + DNS_ANSWERS_OFFSET) {
        Ok(v) => v,
        Err(_) => { return Err(ParseError::Truncated); },
    };
    let authorities: u16 = match read_u16(data, h + DNS_AUTHORITIES_OFFSET) {
        Ok(v) => v,
        Err(_) => { return Err(ParseError::Truncated); },
    };
    if questions != 1 || answers != 0 || authorities != 0 {
        return Err(ParseError::SectionCount);
    }
    let start: usize = h + DNS_HEADER_LEN;
    let mut pos: usize = start;
    let mut name: Vec<u8> = Vec::new();
    let mut behind: usize = 0;
    let mut done: bool = false;
    assert(name@ =~= lowered(data@.subrange(start as int, pos as int)));
    while !done
        invariant
            start <= pos <= end,
            !done ==> pos - start < MAX_NAME_LEN,
            end <= data.len(),
            end <= ETH_LEN + 0xFFFF,
            parse_question(data@, *lay) == question_at(data@, *lay),
            start == question_start(*lay),
            end == lay.end,
            name_end(data@, start as int, start as int, end as int) == name_end(
                data@,
                start as int,
                pos as int,
                end as int,
            ),
            !done ==> name@ == lowered(data@.subrange(start as int, pos as int)),
            done ==> name_end(data@, start as int, start as int, end as int) == Ok::<
                int,
                ParseError,
            >(behind as int),
            done ==> name@ == lowered(data@.subrange(start as int, behind as int)),
            done ==> start < behind <= end && behind - start <= MAX_NAME_LEN,
        decreases (if done { 0int } else { 1int }), end + 1 - pos,
    {
        if pos >= end {
            return Err(ParseError::Truncated);
        }
        let label: u8 = data[pos];
        if label == 0 {
            name.push(0);
            behind = pos + 1;
            done = true;
            assert(name@ =~= lowered(data@.subrange(start as int, behind as int)));
        } else if label >= COMPRESSION_MARK {
            return Err(ParseError::Compression);
        } else if label > MAX_LABEL_LEN {
            return Err(ParseError::LabelLength);
        } else if pos - start + 2 + label as usize > MAX_NAME_LEN {
            return Err(ParseError::NameLength);
        } else {
            let next: usize = pos + 1 + label as usize;
            if next > end {
                assert(name_end(data@, start as int, next as int, end as int) == Err::<
                    int,
                    ParseError,
                >(ParseError::Truncated));
                return Err(ParseError::Truncated);
            }
            let mut k: usize = pos;
            while k < next
                invariant
                    start <= pos <= k <= next <= end <= data.len(),
                    name@ == lowered(data@.subrange(start as int, k as int)),
                decreases next - k,
            {
                let b: u8 = data[k];
                let small: u8 = if 65 <= b && b <= 90 {
                    b + 32
                } else {
                    b
                };
                name.push(small);
                assert(name@ =~= lowered(data@.subrange(start as int, k + 1)));
                k = k + 1;
            }
            pos = next;
        }
    }
    if behind + 4 > end {
        return Err(ParseError::Truncated);
    }
    let record_type: u16 = match read_u16(data, behind) {
        Ok(v) => v,
        Err(_) => { return Err(ParseError::Truncated); },
    };
    let class: u16 = match read_u16(data, behind + 2) {
        Ok(v) => v,
        Err(_) => { return Err(ParseError::Truncated); },
    };
    Ok(ParsedQuestion { query: DnsQuery { name, record_type, class }, end: behind + 4 })
}

/// The answer record that is appended: a pointer to the name of the
/// question, type A, class IN, the time to live, and the four bytes of the
/// address.
#[verifier::opaque]
pub open spec fn answer_record(address: u32, ttl: u32) -> Seq<u8> {
    put_u32(
        put_u32(
            seq![0xC0u8, 0x0Cu8, 0u8, 1u8, 0u8, 1u8, 0u8, 0u8, 0u8, 0u8, 0u8, 4u8, 0u8, 0u8, 0u8, 0u8],
            6,
            ttl as int,
        ),
        12,
        address as int,
    )
}

/// The layout of the answer to a query whose question ends at
/// `question_end`.
pub open spec fn response_layout(lay: Layout, question_end: int) -> Layout {
    lay.ending_at(question_end + ANSWER_LEN)
}

/// The frame cut off behind the question, with the answer record appended.
pub open spec fn with_answer(s: Seq<u8>, question_end: int, address: u32, ttl: u32) -> Seq<u8> {
    s.subrange(0, question_end) + answer_record(address, ttl)
}

/// The frame with the DNS header of a response to a query whose flags were
/// `flags`: the response flag set, one answer, no authority and no
/// additional records.
#[verifier::opaque]
pub open spec fn with_response_header(s: Seq<u8>, lay: Layout, flags: int) -> Seq<u8> {
    let h = dns_start(lay);
    put_u16(
        put_u16(
            put_u16(
                put_u16(s, h + DNS_FLAGS_OFFSET, flags + DNS_RESPONSE_FLAG),
                h + DNS_ANSWERS_OFFSET,
                1,
            ),
            h + DNS_AUTHORITIES_OFFSET,
            0,
        ),
        h + DNS_ADDITIONALS_OFFSET,
        0,
    )
}

/// The answer to the query in `s`: the frame cut off behind the question,
/// one answer record appended, the addresses of all three layers and the
/// ports exchanged, the response flag set, the answer count one, the
/// authority and additional counts zero, and lengths and checksums brought
/// in line.
pub open spec fn response(
    s: Seq<u8>,
    lay: Layout,
    question_end: int,
    address: u32,
    ttl: u32,
) -> Seq<u8> {
    let out = response_layout(lay, question_end);
    refreshed(
        with_response_header(
            turned_around(with_answer(s, question_end, address, ttl), out),
            out,
            get_u16(s, dns_start(lay) + DNS_FLAGS_OFFSET),
        ),
        out,
    )
}

/// Whether the frame is a DNS query whose question can end at
/// `question_end`, so that the answer can be made: the place lies behind a
/// name of at least one byte with type and class, inside the datagram, and
/// no further from the start of the question than the longest name allows.
pub open spec fn answerable(s: Seq<u8>, lay: Layout, question_end: int) -> bool {
    &&& lay.fits(s.len() as int)
    &&& lay.matches_protocols(s)
    &&& lay.kind == Kind::DNS
    &&& get_u16(s, dns_start(lay) + DNS_FLAGS_OFFSET) < DNS_RESPONSE_FLAG
    &&& question_start(lay) + 5 <= question_end <= lay.end
    &&& question_end <= question_start(lay) + MAX_NAME_LEN + 4
}

/// The answer to a query is a frame that its layout describes.
pub proof fn lemma_response_wf(s: Seq<u8>, lay: Layout, question_end: int, address: u32, ttl: u32)
    requires
        answerable(s, lay, question_end),
    ensures
        response(s, lay, question_end, address, ttl).len() == question_end + ANSWER_LEN,
        response_layout(lay, question_end).fits(question_end + ANSWER_LEN),
        response_layout(lay, question_end).matches_headers(
            response(s, lay, question_end, address, ttl),
        ),
        checksums_valid(
            response(s, lay, question_end, address, ttl),
            response_layout(lay, question_end),
        ),
{
    let out = response_layout(lay, question_end);
    let grown = with_answer(s, question_end, address, ttl);
    let turned = turned_around(grown, out);
    let headed = with_response_header(turned, out, get_u16(s, dns_start(lay) + DNS_FLAGS_OFFSET));
    lemma_answer_record_fields(address, ttl);
    lemma_turned_around_fields(grown, out);
    lemma_response_header_fields(turned, out, get_u16(s, dns_start(lay) + DNS_FLAGS_OFFSET));
    assert(grown.len() == question_end + ANSWER_LEN);
    assert(turned.len() == grown.len());
    assert(headed.len() == grown.len());
    assert(out.matches_protocols(grown));
    assert(out.matches_protocols(turned));
    assert(out.matches_protocols(headed));
    lemma_refreshed_matches(headed, out);
    lemma_refreshed_valid(headed, out);
}

/// What the answer record holds: a pointer to the name at the start of
/// the question, type A, class IN, the time to live, and an address of
/// four bytes.
pub proof fn lemma_answer_record_fields(address: u32, ttl: u32)
    ensures
        answer_record(address, ttl).len() == ANSWER_LEN,
        get_u16(answer_record(address, ttl), 0) == 0xC00C,
        get_u16(answer_record(address, ttl), 2) == TYPE_A,
        get_u16(answer_record(address, ttl), 4) == CLASS_IN,
        get_u32(answer_record(address, ttl), 6) == ttl,
        get_u16(answer_record(address, ttl), 10) == 4,
        get_u32(answer_record(address, ttl), 12) == address,
{
    reveal(answer_record);
}

/// The DNS message of the answer to a query: the record behind the
/// question carries the address and the time to live; the response flag is
/// set; there is one answer, and the question count is the query's; the
/// identifier and the question are the query's.
pub proof fn lemma_response_message(
    s: Seq<u8>,
    lay: Layout,
    question_end: int,
    address: u32,
    ttl: u32,
)
    requires
        answerable(s, lay, question_end),
    ensures
        ({
            let r = response(s, lay, question_end, address, ttl);
            let h = dns_start(lay);
            &&& r.len() == question_end + ANSWER_LEN
            &&& get_u16(r, question_end) == 0xC00C
            &&& get_u16(r, question_end + 2) == TYPE_A
            &&& get_u16(r, question_end + 4) == CLASS_IN
            &&& get_u32(r, question_end + 6) == ttl
            &&& get_u16(r, question_end + 10) == 4
            &&& get_u32(r, question_end + 12) == address
            &&& get_u16(r, h + DNS_FLAGS_OFFSET) == get_u16(s, h + DNS_FLAGS_OFFSET)
                + DNS_RESPONSE_FLAG
            &&& get_u16(r, h + DNS_QUESTIONS_OFFSET) == get_u16(s, h + DNS_QUESTIONS_OFFSET)
            &&& get_u16(r, h + DNS_ANSWERS_OFFSET) == 1
            &&& get_u16(r, h + DNS_AUTHORITIES_OFFSET) == 0
            &&& get_u16(r, h + DNS_ADDITIONALS_OFFSET) == 0
            &&& get_u16(r, h) == get_u16(s, h)
            &&& r.subrange(question_start(lay), question_end) == s.subrange(
                question_start(lay),
                question_end,
            )
        }),
{
    let out = response_layout(lay, question_end);
    let h = dns_start(lay);
    let flags = get_u16(s, h + DNS_FLAGS_OFFSET);
    let record = answer_record(address, ttl);
    let grown = with_answer(s, question_end, address, ttl);
    let turned = turned_around(grown, out);
    let headed = with_response_header(turned, out, flags);
    let r = refreshed(headed, out);
    lemma_answer_record_fields(address, ttl);
    assert forall|i: int| h <= i < question_end + ANSWER_LEN implies #[trigger] r[i]
        == headed[i] && turned[i] == (if i < question_end {
        s[i]
    } else {
        record[i - question_end]
    }) by {
        lemma_turned_around_fields(grown, out);
        lemma_response_header_fields(turned, out, flags);
        lemma_refreshed_keeps(headed, out);
        assert(!is_derived_field(out, i));
        assert(turned[i] == grown[i]);
    }
    assert(r.len() == question_end + ANSWER_LEN) by {
        lemma_response_wf(s, lay, question_end, address, ttl);
    }
    assert forall|i: int|
        h <= i < question_end + ANSWER_LEN && !(h + DNS_FLAGS_OFFSET <= i < h
            + DNS_QUESTIONS_OFFSET) && !(h + DNS_ANSWERS_OFFSET <= i < h
            + DNS_HEADER_LEN) implies #[trigger] r[i] == (if i < question_end {
        s[i]
    } else {
        record[i - question_end]
    }) by {
        lemma_turned_around_fields(grown, out);
        lemma_response_header_fields(turned, out, flags);
        assert(r[i] == headed[i]);
        assert(headed[i] == turned[i]);
    }
    assert(get_u16(r, h + DNS_FLAGS_OFFSET) == flags + DNS_RESPONSE_FLAG && get_u16(
        r,
        h + DNS_ANSWERS_OFFSET,
    ) == 1 && get_u16(r, h + DNS_AUTHORITIES_OFFSET) == 0 && get_u16(
        r,
        h + DNS_ADDITIONALS_OFFSET,
    ) == 0) by {
        lemma_turned_around_fields(grown, out);
        lemma_response_header_fields(turned, out, flags);
        assert(r[h + 2] == headed[h + 2] && r[h + 3] == headed[h + 3]);
        assert(r[h + 6] == headed[h + 6] && r[h + 7] == headed[h + 7]);
        assert(r[h + 8] == headed[h + 8] && r[h + 9] == headed[h + 9]);
        assert(r[h + 10] == headed[h + 10] && r[h + 11] == headed[h + 11]);
    }
    lemma_same_bytes_same_numbers(r, question_end, record, 0);
    assert(get_u16(r, h + DNS_QUESTIONS_OFFSET) == get_u16(s, h + DNS_QUESTIONS_OFFSET)) by {
        assert(r[h + 4] == s[h + 4] && r[h + 5] == s[h + 5]);
    }
    assert(get_u16(r, h) == get_u16(s, h)) by {
        assert(r[h] == s[h] && r[h + 1] == s[h + 1]);
    }
    assert(r.subrange(question_start(lay), question_end) =~= s.subrange(
        question_start(lay),
        question_end,
    )) by {
        assert forall|i: int| question_start(lay) <= i < question_end implies r[i] == s[i] by {
            assert(r[i] == (if i < question_end {
                s[i]
            } else {
                record[i - question_end]
            }));
        }
    }
}

/// Sixteen bytes that are the same in two buffers hold the same numbers.
proof fn lemma_same_bytes_same_numbers(a: Seq<u8>, at: int, b: Seq<u8>, bt: int)
    requires
        forall|j: int| 0 <= j < 16 ==> #[trigger] a[at + j] == b[bt + j],
    ensures
        get_u16(a, at) == get_u16(b, bt),
        get_u16(a, at + 2) == get_u16(b, bt + 2),
        get_u16(a, at + 4) == get_u16(b, bt + 4),
        get_u32(a, at + 6) == get_u32(b, bt + 6),
        get_u16(a, at + 10) == get_u16(b, bt + 10),
        get_u32(a, at + 12) == get_u32(b, bt + 12),
{
    assert(a[at + 0] == b[bt + 0]);
    assert(a[at + 1] == b[bt + 1]);
    assert(a[at + 2] == b[bt + 2]);
    assert(a[at + 3] == b[bt + 3]);
    assert(a[at + 4] == b[bt + 4]);
    assert(a[at + 5] == b[bt + 5]);
    assert(a[at + 6] == b[bt + 6]);
    assert(a[at + 7] == b[bt + 7]);
    assert(a[at + 8] == b[bt + 8]);
    assert(a[at + 9] == b[bt + 9]);
    assert(a[at + 10] == b[bt + 10]);
    assert(a[at + 11] == b[bt + 11]);
    assert(a[at + 12] == b[bt + 12]);
    assert(a[at + 13] == b[bt + 13]);
    assert(a[at + 14] == b[bt + 14]);
    assert(a[at + 15] == b[bt + 15]);
}

/// Where the answer to a query goes: source and destination of the query
/// are exchanged in all three layers.
pub proof fn lemma_response_addresses(
    s: Seq<u8>,
    lay: Layout,
    question_end: int,
    address: u32,
    ttl: u32,
)
    requires
        answerable(s, lay, question_end),
    ensures
        ({
            let r = response(s, lay, question_end, address, ttl);
            &&& get_u32(r, IP_SRC_OFFSET as int) == get_u32(s, IP_DST_OFFSET as int)
            &&& get_u32(r, IP_DST_OFFSET as int) == get_u32(s, IP_SRC_OFFSET as int)
            &&& get_u16(r, lay.l4 as int) == get_u16(s, lay.l4 + 2)
            &&& get_u16(r, lay.l4 + 2) == get_u16(s, lay.l4 as int)
            &&& r.subrange(0, 6) == s.subrange(6, 12)
            &&& r.subrange(6, 12) == s.subrange(0, 6)
        }),
{
    let out = response_layout(lay, question_end);
    let h = dns_start(lay);
    let flags = get_u16(s, h + DNS_FLAGS_OFFSET);
    let grown = with_answer(s, question_end, address, ttl);
    let turned = turned_around(grown, out);
    let headed = with_response_header(turned, out, flags);
    let r = refreshed(headed, out);
    lemma_answer_record_fields(address, ttl);
    lemma_turned_around_fields(grown, out);
    assert forall|i: int|
        0 <= i < 12 || (IP_SRC_OFFSET <= i < IP_DST_OFFSET + 4) || (lay.l4 <= i < lay.l4
            + 4) implies #[trigger] r[i] == turned[i] by {
        lemma_response_header_fields(turned, out, flags);
        lemma_refreshed_keeps(headed, out);
        assert(!is_derived_field(out, i));
        assert(r[i] == headed[i]);
        assert(headed[i] == turned[i]);
    }
    assert(get_u32(r, IP_SRC_OFFSET as int) == get_u32(turned, IP_SRC_OFFSET as int)) by {
        assert(r[26] == turned[26] && r[27] == turned[27] && r[28] == turned[28] && r[29]
            == turned[29]);
    }
    assert(get_u32(r, IP_DST_OFFSET as int) == get_u32(turned, IP_DST_OFFSET as int)) by {
        assert(r[30] == turned[30] && r[31] == turned[31] && r[32] == turned[32] && r[33]
            == turned[33]);
    }
    assert(get_u16(r, lay.l4 as int) == get_u16(turned, lay.l4 as int)) by {
        assert(r[lay.l4 as int] == turned[lay.l4 as int] && r[lay.l4 + 1] == turned[lay.l4 + 1]);
    }
    assert(get_u16(r, lay.l4 + 2) == get_u16(turned, lay.l4 + 2)) by {
        assert(r[lay.l4 + 2] == turned[lay.l4 + 2] && r[lay.l4 + 3] == turned[lay.l4 + 3]);
    }
    assert(get_u32(grown, IP_SRC_OFFSET as int) == get_u32(s, IP_SRC_OFFSET as int));
    assert(get_u32(grown, IP_DST_OFFSET as int) == get_u32(s, IP_DST_OFFSET as int));
    assert(get_u16(grown, lay.l4 as int) == get_u16(s, lay.l4 as int));
    assert(get_u16(grown, lay.l4 + 2) == get_u16(s, lay.l4 + 2));
    assert(r.len() == question_end + ANSWER_LEN) by {
        lemma_response_wf(s, lay, question_end, address, ttl);
    }
    assert(r.subrange(0, 6) =~= s.subrange(6, 12)) by {
        assert forall|i: int| 0 <= i < 6 implies r[i] == s[i + 6] by {
            assert(r[i] == turned[i]);
            assert(turned[i] == grown[i + 6]);
        }
    }
    assert(r.subrange(6, 12) =~= s.subrange(0, 6)) by {
        assert forall|i: int| 6 <= i < 12 implies r[i] == s[i - 6] by {
            assert(r[i] == turned[i]);
            assert(turned[i] == grown[i - 6]);
        }
    }
}

/// Writing the DNS header of a response sets the flags and the three
/// counts behind the question count, and changes nothing else.
pub proof fn lemma_response_header_fields(s: Seq<u8>, lay: Layout, flags: int)
    requires
        lay.fits(s.len() as int),
        lay.kind == Kind::DNS,
        0 <= flags < DNS_RESPONSE_FLAG,
    ensures
        with_response_header(s, lay, flags).len() == s.len(),
        get_u16(with_response_header(s, lay, flags), dns_start(lay) + DNS_FLAGS_OFFSET) == flags
            + DNS_RESPONSE_FLAG,
        get_u16(with_response_header(s, lay, flags), dns_start(lay) + DNS_ANSWERS_OFFSET) == 1,
        get_u16(with_response_header(s, lay, flags), dns_start(lay) + DNS_AUTHORITIES_OFFSET)
            == 0,
        get_u16(with_response_header(s, lay, flags), dns_start(lay) + DNS_ADDITIONALS_OFFSET)
            == 0,
        forall|i: int|
            0 <= i < s.len() && !(dns_start(lay) + DNS_FLAGS_OFFSET <= i < dns_start(lay)
                + DNS_QUESTIONS_OFFSET) && !(dns_start(lay) + DNS_ANSWERS_OFFSET <= i
                < dns_start(lay) + DNS_HEADER_LEN) ==> #[trigger] with_response_header(
                s,
                lay,
                flags,
            )[i] == s[i],
{
    reveal(with_response_header);
}

/// The bytes of the answer record.
fn answer_bytes(address: u32, ttl: u32) -> (record: Vec<u8>)
    ensures
        record@ == answer_record(address, ttl),
{
    proof {
        reveal(answer_record);
    }
    let mut record: Vec<u8> = Vec::new();
    record.push(0xC0);
    record.push(0x0C);
    record.push(0);
    record.push(1);
    record.push(0);
    record.push(1);
    record.push(0);
    record.push(0);
    record.push(0);
    record.push(0);
    record.push(0);
    record.push(4);
    record.push(0);
    record.push(0);
    record.push(0);
    record.push(0);
    assert(record@ =~= seq![
        0xC0u8,
        0x0Cu8,
        0u8,
        1u8,
        0u8,
        1u8,
        0u8,
        0u8,
        0u8,
        0u8,
        0u8,
        4u8,
        0u8,
        0u8,
        0u8,
        0u8,
    ]);
    let _ = write_u32(&mut record, 6, ttl);
    let _ = write_u32(&mut record, 12, address);
    record
}

/// Cut the frame off behind the question and append the answer record.
fn append_answer(data: &mut Vec<u8>, question_end: usize, address: u32, ttl: u32)
    requires
        question_end <= old(data).len(),
    ensures
        final(data)@ == with_answer(old(data)@, question_end as int, address, ttl),
        final(data)@.len() == question_end + ANSWER_LEN,
{
    proof {
        lemma_answer_record_fields(address, ttl);
    }
    let mut record = answer_bytes(address, ttl);
    data.truncate(question_end);
    data.append(&mut record);
}

/// Write the DNS header of a response to a query whose flags were `flags`.
fn put_response_header(data: &mut Vec<u8>, lay: &Layout, flags: u16)
    requires
        lay.fits(old(data).len() as int),
        lay.kind == Kind::DNS,
        flags < DNS_RESPONSE_FLAG,
    ensures
        final(data)@ == with_response_header(old(data)@, *lay, flags as int),
        final(data)@.len() == old(data)@.len(),
{
    proof {
        reveal(with_response_header);
    }
    let h: usize = lay.l4 + UDP_HEADER_LEN;
    let _ = write_u16(data, h + DNS_FLAGS_OFFSET, flags + DNS_RESPONSE_FLAG);
    let _ = write_u16(data, h + DNS_ANSWERS_OFFSET, 1);
    let _ = write_u16(data, h + DNS_AUTHORITIES_OFFSET, 0);
    let _ = write_u16(data, h + DNS_ADDITIONALS_OFFSET, 0);
}

/// Turn the query in `data` into its answer.
pub(crate) fn respond(data: &mut Vec<u8>, lay: &Layout, question_end: usize, address: u32, ttl: u32) -> (out:
    Layout)
    requires
        answerable(old(data)@, *lay, question_end as int),
    ensures
        final(data)@ == response(old(data)@, *lay, question_end as int, address, ttl),
        out == response_layout(*lay, question_end as int),
{
    let out = Layout { kind: lay.kind, l4: lay.l4, end: question_end + ANSWER_LEN };
    let flags: u16 = match read_u16(data, lay.l4 + UDP_HEADER_LEN + DNS_FLAGS_OFFSET) {
        Ok(v) => v,
        Err(_) => 0,
    };
    append_answer(data, question_end, address, ttl);
    turn_around(data, &out);
    put_response_header(data, &out, flags);
    refresh(data, &out);
    out
}

} // verus!
