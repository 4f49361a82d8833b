//! What holds of the dataplane as a whole, stated over the frames and
//! tables that the three hooks take and leave.

use vstd::prelude::*;
use crate::dns::{
    dns_start, lemma_parse_bounds, lemma_response_addresses, lemma_response_message,
    lemma_response_wf, parse_question, question_start, response, response_layout, CLASS_IN,
    DNS_ANSWERS_OFFSET, DNS_FLAGS_OFFSET, DNS_QUESTIONS_OFFSET, DNS_RESPONSE_FLAG, TYPE_A,
};
use crate::error::{Disposition, ParseError};
use crate::forwarder::{
    forward_key, lemma_sent_to_fields, lemma_shown_from_fields, reverse_key, sent_to, shown_from,
};
use crate::frame::{
    checksums_valid, classify, lemma_classify_fits, lemma_refreshed_idempotent,
    lemma_refreshed_valid, lemma_with_dst_again, lemma_with_src_again, refreshed, Kind, Layout,
    IP_DST_OFFSET, IP_SRC_OFFSET,
};
use crate::hooks::{egress_frame, ingress_frame, resolution, resolved_frame, resolved_table};
use crate::resolver::{has_room, provisioned, DnsResolver, Provision};
use crate::table::{inserted, CAPACITY};
use crate::types::{DnsRecordA, NatKey, NatOrigin, Question};
use crate::checksum::fold;
use crate::wire::{get_u16, get_u32, in_bounds, put_u16, put_u32};

verus! {

/// A query for a question that the registry holds becomes its answer.
///
/// The frame that the resolving hook leaves is redirected. It carries one
/// answer record, of type A and class IN, with the address that the
/// registry holds and the resolver's time to live. The response flag is
/// set, the answer count is one, and the question count, the identifier
/// and the question are those of the query. The frame goes back to where
/// the query came from, and both of its checksums validate.
pub proof fn law_registered_query_is_answered(
    query: Seq<u8>,
    config: DnsResolver,
    registry: Map<Question, DnsRecordA>,
)
    requires
        classify(query) is Ok,
        parse_question(query, classify(query)->Ok_0) is Ok,
        registry.contains_key(parse_question(query, classify(query)->Ok_0)->Ok_0.0),
    ensures
        ({
            let layout = classify(query)->Ok_0;
            let found = parse_question(query, layout)->Ok_0;
            let record = registry[found.0];
            let answer = resolved_frame(query, config, registry);
            let h = dns_start(layout);
            &&& resolution(query, config, registry) == Ok::<Disposition, ParseError>(
                Disposition::Redirect,
            )
            &&& answer == response(query, layout, found.1, record.ip, config.ttl)
            &&& get_u16(answer, found.1 + 2) == TYPE_A
            &&& get_u16(answer, found.1 + 4) == CLASS_IN
            &&& get_u32(answer, found.1 + 6) == config.ttl
            &&& get_u32(answer, found.1 + 12) == record.ip
            &&& get_u16(answer, h + DNS_FLAGS_OFFSET) >= DNS_RESPONSE_FLAG
            &&& get_u16(answer, h + DNS_ANSWERS_OFFSET) == 1
            &&& get_u16(answer, h + DNS_QUESTIONS_OFFSET) == get_u16(
                query,
                h + DNS_QUESTIONS_OFFSET,
            )
            &&& get_u16(answer, h) == get_u16(query, h)
            &&& answer.subrange(question_start(layout), found.1) == query.subrange(
                question_start(layout),
                found.1,
            )
            &&& get_u32(answer, IP_SRC_OFFSET as int) == get_u32(query, IP_DST_OFFSET as int)
            &&& get_u32(answer, IP_DST_OFFSET as int) == get_u32(query, IP_SRC_OFFSET as int)
            &&& get_u16(answer, layout.l4 as int) == get_u16(query, layout.l4 + 2)
            &&& get_u16(answer, layout.l4 + 2) == get_u16(query, layout.l4 as int)
            &&& checksums_valid(answer, response_layout(layout, found.1))
        }),
{
    let layout = classify(query)->Ok_0;
    let found = parse_question(query, layout)->Ok_0;
    let record = registry[found.0];
    lemma_classify_fits(query);
    lemma_parse_bounds(query, layout);
    lemma_response_wf(query, layout, found.1, record.ip, config.ttl);
    lemma_response_message(query, layout, found.1, record.ip, config.ttl);
    lemma_response_addresses(query, layout, found.1, record.ip, config.ttl);
}

/// A frame that is not answered is not touched: whenever the resolving
/// hook does not redirect, it leaves the frame byte for byte and the
/// translation table entry for entry. This is so for a query whose
/// question the registry does not hold, for a message that is refused, and
/// for a frame that is not DNS or not classified at all.
pub proof fn law_unanswered_frame_is_unchanged(
    frame: Seq<u8>,
    config: DnsResolver,
    registry: Map<Question, DnsRecordA>,
    table: Map<NatKey, NatOrigin>,
)
    requires
        resolution(frame, config, registry) != Ok::<Disposition, ParseError>(
            Disposition::Redirect,
        ),
    ensures
        resolved_frame(frame, config, registry) == frame,
        resolved_table(frame, config, registry, table) == table,
{
}

/// A query for a question that the registry does not hold passes, byte for
/// byte, and the translation table stays as it is.
pub proof fn law_unregistered_query_passes(
    query: Seq<u8>,
    config: DnsResolver,
    registry: Map<Question, DnsRecordA>,
    table: Map<NatKey, NatOrigin>,
)
    requires
        classify(query) is Ok,
        parse_question(query, classify(query)->Ok_0) is Ok,
        !registry.contains_key(parse_question(query, classify(query)->Ok_0)->Ok_0.0),
    ensures
        resolution(query, config, registry) == Ok::<Disposition, ParseError>(Disposition::Pass),
        resolved_frame(query, config, registry) == query,
        resolved_table(query, config, registry, table) == table,
{
}

/// The requester's connection is translated there and back.
///
/// Let a query from a requester be answered with an address, and let the
/// table have had room for the two entries of that resolution. Then a TCP
/// frame from the requester to that address on the service port leaves
/// with the backend endpoint as its destination and its source as it was;
/// and a TCP frame from the backend endpoint to the requester comes in
/// with the resolved address and the service port as its source and its
/// destination as it was. Both frames have checksums that validate.
///
/// The two keys of the resolution have to differ, which they do unless
/// requester, resolved address and backend are one address and all ports
/// zero.
pub proof fn law_round_trip(
    query: Seq<u8>,
    config: DnsResolver,
    registry: Map<Question, DnsRecordA>,
    table: Map<NatKey, NatOrigin>,
    outbound: Seq<u8>,
    inbound: Seq<u8>,
)
    requires
        classify(query) is Ok,
        parse_question(query, classify(query)->Ok_0) is Ok,
        registry.contains_key(parse_question(query, classify(query)->Ok_0)->Ok_0.0),
        ({
            let requester = get_u32(query, IP_SRC_OFFSET as int) as u32;
            let address = registry[parse_question(query, classify(query)->Ok_0)->Ok_0.0].ip;
            let entries = config.provision_for(requester, address);
            &&& has_room(table, entries)
            &&& entries.forward_key != entries.reverse_key
            &&& classify(outbound) is Ok
            &&& classify(outbound)->Ok_0.kind == Kind::TCP
            &&& get_u32(outbound, IP_SRC_OFFSET as int) == requester
            &&& get_u32(outbound, IP_DST_OFFSET as int) == address
            &&& get_u16(outbound, classify(outbound)->Ok_0.l4 + 2) == config.service_port
            &&& classify(inbound) is Ok
            &&& classify(inbound)->Ok_0.kind == Kind::TCP
            &&& get_u32(inbound, IP_SRC_OFFSET as int) == config.backend.ip
            &&& get_u16(inbound, classify(inbound)->Ok_0.l4 as int) == config.backend.port
            &&& get_u32(inbound, IP_DST_OFFSET as int) == requester
        }),
    ensures
        ({
            let address = registry[parse_question(query, classify(query)->Ok_0)->Ok_0.0].ip;
            let after = resolved_table(query, config, registry, table);
            let out_layout = classify(outbound)->Ok_0;
            let in_layout = classify(inbound)->Ok_0;
            let sent = egress_frame(outbound, after);
            let shown = ingress_frame(inbound, after);
            &&& get_u32(sent, IP_DST_OFFSET as int) == config.backend.ip
            &&& get_u16(sent, out_layout.l4 + 2) == config.backend.port
            &&& get_u32(sent, IP_SRC_OFFSET as int) == get_u32(outbound, IP_SRC_OFFSET as int)
            &&& get_u16(sent, out_layout.l4 as int) == get_u16(outbound, out_layout.l4 as int)
            &&& checksums_valid(sent, out_layout)
            &&& get_u32(shown, IP_SRC_OFFSET as int) == address
            &&& get_u16(shown, in_layout.l4 as int) == config.service_port
            &&& get_u32(shown, IP_DST_OFFSET as int) == get_u32(inbound, IP_DST_OFFSET as int)
            &&& get_u16(shown, in_layout.l4 + 2) == get_u16(inbound, in_layout.l4 + 2)
            &&& checksums_valid(shown, in_layout)
        }),
{
    let requester = get_u32(query, IP_SRC_OFFSET as int) as u32;
    let address = registry[parse_question(query, classify(query)->Ok_0)->Ok_0.0].ip;
    let entries = config.provision_for(requester, address);
    let after = resolved_table(query, config, registry, table);
    let out_layout = classify(outbound)->Ok_0;
    let in_layout = classify(inbound)->Ok_0;
    assert(after == provisioned(table, entries));
    assert(after.contains_key(entries.forward_key) && after[entries.forward_key]
        == config.backend);
    assert(after.contains_key(entries.reverse_key) && after[entries.reverse_key]
        == entries.reverse_origin);
    lemma_classify_fits(query);
    lemma_classify_fits(outbound);
    lemma_classify_fits(inbound);
    assert(forward_key(outbound, out_layout) == entries.forward_key);
    assert(reverse_key(inbound, in_layout) == entries.reverse_key);
    lemma_sent_to_fields(outbound, out_layout, config.backend);
    lemma_shown_from_fields(inbound, in_layout, entries.reverse_origin);
}

/// The connection is translated there and back on the backend's side as
/// well, where it comes in and its replies leave.
///
/// Let a query from a requester be answered with an address, and let the
/// table have had room for the two entries of that resolution. Then a TCP
/// frame from the requester to that address on the service port comes in
/// with the backend endpoint as its destination, unless the table holds
/// the frame's reverse key as well; and a TCP frame from the backend
/// endpoint to the requester leaves with the resolved address and the
/// service port as its source, unless the table holds the frame's forward
/// key as well.
pub proof fn law_round_trip_on_the_backend_side(
    query: Seq<u8>,
    config: DnsResolver,
    registry: Map<Question, DnsRecordA>,
    table: Map<NatKey, NatOrigin>,
    inbound: Seq<u8>,
    outbound: Seq<u8>,
)
    requires
        classify(query) is Ok,
        parse_question(query, classify(query)->Ok_0) is Ok,
        registry.contains_key(parse_question(query, classify(query)->Ok_0)->Ok_0.0),
        ({
            let requester = get_u32(query, IP_SRC_OFFSET as int) as u32;
            let address = registry[parse_question(query, classify(query)->Ok_0)->Ok_0.0].ip;
            let entries = config.provision_for(requester, address);
            let after = resolved_table(query, config, registry, table);
            &&& has_room(table, entries)
            &&& entries.forward_key != entries.reverse_key
            &&& classify(inbound) is Ok
            &&& classify(inbound)->Ok_0.kind == Kind::TCP
            &&& get_u32(inbound, IP_SRC_OFFSET as int) == requester
            &&& get_u32(inbound, IP_DST_OFFSET as int) == address
            &&& get_u16(inbound, classify(inbound)->Ok_0.l4 + 2) == config.service_port
            &&& !after.contains_key(reverse_key(inbound, classify(inbound)->Ok_0))
            &&& classify(outbound) is Ok
            &&& classify(outbound)->Ok_0.kind == Kind::TCP
            &&& get_u32(outbound, IP_SRC_OFFSET as int) == config.backend.ip
            &&& get_u16(outbound, classify(outbound)->Ok_0.l4 as int) == config.backend.port
            &&& get_u32(outbound, IP_DST_OFFSET as int) == requester
            &&& !after.contains_key(forward_key(outbound, classify(outbound)->Ok_0))
        }),
    ensures
        ({
            let address = registry[parse_question(query, classify(query)->Ok_0)->Ok_0.0].ip;
            let after = resolved_table(query, config, registry, table);
            let in_layout = classify(inbound)->Ok_0;
            let out_layout = classify(outbound)->Ok_0;
            let sent = ingress_frame(inbound, after);
            let shown = egress_frame(outbound, after);
            &&& get_u32(sent, IP_DST_OFFSET as int) == config.backend.ip
            &&& get_u16(sent, in_layout.l4 + 2) == config.backend.port
            &&& get_u32(sent, IP_SRC_OFFSET as int) == get_u32(inbound, IP_SRC_OFFSET as int)
            &&& get_u16(sent, in_layout.l4 as int) == get_u16(inbound, in_layout.l4 as int)
            &&& checksums_valid(sent, in_layout)
            &&& get_u32(shown, IP_SRC_OFFSET as int) == address
            &&& get_u16(shown, out_layout.l4 as int) == config.service_port
            &&& get_u32(shown, IP_DST_OFFSET as int) == get_u32(outbound, IP_DST_OFFSET as int)
            &&& get_u16(shown, out_layout.l4 + 2) == get_u16(outbound, out_layout.l4 + 2)
            &&& checksums_valid(shown, out_layout)
        }),
{
    let requester = get_u32(query, IP_SRC_OFFSET as int) as u32;
    let address = registry[parse_question(query, classify(query)->Ok_0)->Ok_0.0].ip;
    let entries = config.provision_for(requester, address);
    let after = resolved_table(query, config, registry, table);
    let in_layout = classify(inbound)->Ok_0;
    let out_layout = classify(outbound)->Ok_0;
    assert(after == provisioned(table, entries));
    assert(after.contains_key(entries.forward_key) && after[entries.forward_key]
        == config.backend);
    assert(after.contains_key(entries.reverse_key) && after[entries.reverse_key]
        == entries.reverse_origin);
    lemma_classify_fits(query);
    lemma_classify_fits(outbound);
    lemma_classify_fits(inbound);
    assert(forward_key(inbound, in_layout) == entries.forward_key);
    assert(reverse_key(outbound, out_layout) == entries.reverse_key);
    lemma_sent_to_fields(inbound, in_layout, config.backend);
    lemma_shown_from_fields(outbound, out_layout, entries.reverse_origin);
}

/// A TCP frame whose flow the table does not hold, neither as a
/// connection nor as a reply, passes both forwarding hooks byte for byte,
/// and so does every frame that is not TCP or not classified.
pub proof fn law_unmatched_frame_passes(frame: Seq<u8>, table: Map<NatKey, NatOrigin>)
    requires
        classify(frame) is Ok && classify(frame)->Ok_0.kind == Kind::TCP ==> !table.contains_key(
            forward_key(frame, classify(frame)->Ok_0),
        ) && !table.contains_key(reverse_key(frame, classify(frame)->Ok_0)),
    ensures
        egress_frame(frame, table) == frame,
        ingress_frame(frame, table) == frame,
{
}

/// After a rewrite the checksums validate: a frame that a hook has changed
/// has an IPv4 header checksum and a TCP or UDP checksum that pass the
/// receiver's test against the bytes that the hook leaves.
pub proof fn law_rewritten_frames_validate(
    frame: Seq<u8>,
    config: DnsResolver,
    registry: Map<Question, DnsRecordA>,
    table: Map<NatKey, NatOrigin>,
)
    requires
        classify(frame) is Ok,
    ensures
        ({
            let layout = classify(frame)->Ok_0;
            &&& egress_frame(frame, table) != frame ==> checksums_valid(
                egress_frame(frame, table),
                layout,
            )
            &&& ingress_frame(frame, table) != frame ==> checksums_valid(
                ingress_frame(frame, table),
                layout,
            )
            &&& resolved_frame(frame, config, registry) != frame ==> checksums_valid(
                resolved_frame(frame, config, registry),
                config.layout_after(frame, layout, registry),
            )
        }),
{
    let layout = classify(frame)->Ok_0;
    lemma_classify_fits(frame);
    if egress_frame(frame, table) != frame || ingress_frame(frame, table) != frame {
        lemma_sent_to_fields(frame, layout, table[forward_key(frame, layout)]);
        lemma_shown_from_fields(frame, layout, table[reverse_key(frame, layout)]);
    }
    if resolved_frame(frame, config, registry) != frame {
        let found = parse_question(frame, layout)->Ok_0;
        lemma_parse_bounds(frame, layout);
        lemma_response_wf(frame, layout, found.1, registry[found.0].ip, config.ttl);
    }
}

/// Bringing any frame in line with its bytes leaves it with checksums
/// that validate.
pub proof fn law_refreshed_frame_validates(frame: Seq<u8>, layout: Layout)
    requires
        layout.fits(frame.len() as int),
    ensures
        checksums_valid(refreshed(frame, layout), layout),
{
    lemma_refreshed_valid(frame, layout);
}

/// A full table refuses a new key and stays as it is.
pub proof fn law_full_table_refuses<K, V>(table: Map<K, V>, key: K, value: V)
    requires
        table.dom().len() >= CAPACITY,
        !table.contains_key(key),
    ensures
        inserted(table, key, value) == table,
{
}

/// Putting a pair into a table touches no other entry: every other key is
/// in the table afterwards exactly if it was before, with the value that
/// it had. This holds whether the pair was taken or refused.
pub proof fn law_insert_keeps_other_entries<K, V>(table: Map<K, V>, key: K, value: V, other: K)
    requires
        other != key,
    ensures
        inserted(table, key, value).contains_key(other) == table.contains_key(other),
        inserted(table, key, value)[other] == table[other],
{
}

/// A table never holds more than it may: putting a pair into a table of at
/// most [`CAPACITY`] entries leaves at most [`CAPACITY`] entries.
pub proof fn law_insert_stays_bounded<K, V>(table: Map<K, V>, key: K, value: V)
    requires
        table.dom().finite(),
        table.dom().len() <= CAPACITY,
    ensures
        inserted(table, key, value).dom().finite(),
        inserted(table, key, value).dom().len() <= CAPACITY,
{
}

/// A resolution touches no entry but its own two: every other key is in
/// the table afterwards exactly if it was before, with the value that it
/// had. This holds whether the two entries were taken or refused.
pub proof fn law_provision_keeps_other_entries(
    table: Map<NatKey, NatOrigin>,
    entries: Provision,
    other: NatKey,
)
    requires
        other != entries.forward_key,
        other != entries.reverse_key,
    ensures
        provisioned(table, entries).contains_key(other) == table.contains_key(other),
        provisioned(table, entries)[other] == table[other],
{
}

/// An answer is not taken for a query again: the frame that the resolving
/// hook made passes every hook byte for byte, whatever the registry and
/// the table hold.
pub proof fn law_answer_is_left_alone(
    query: Seq<u8>,
    config: DnsResolver,
    registry: Map<Question, DnsRecordA>,
    later_registry: Map<Question, DnsRecordA>,
    table: Map<NatKey, NatOrigin>,
)
    requires
        classify(query) is Ok,
        parse_question(query, classify(query)->Ok_0) is Ok,
        registry.contains_key(parse_question(query, classify(query)->Ok_0)->Ok_0.0),
    ensures
        ({
            let answer = resolved_frame(query, config, registry);
            &&& resolution(answer, config, later_registry) != Ok::<Disposition, ParseError>(
                Disposition::Redirect,
            )
            &&& resolved_frame(answer, config, later_registry) == answer
            &&& resolved_table(answer, config, later_registry, table) == table
            &&& egress_frame(answer, table) == answer
            &&& ingress_frame(answer, table) == answer
        }),
{
    let layout = classify(query)->Ok_0;
    let found = parse_question(query, layout)->Ok_0;
    let record = registry[found.0];
    let answer = resolved_frame(query, config, registry);
    lemma_classify_fits(query);
    lemma_parse_bounds(query, layout);
    lemma_response_wf(query, layout, found.1, record.ip, config.ttl);
    lemma_response_message(query, layout, found.1, record.ip, config.ttl);
    if classify(answer) is Ok {
        let again = classify(answer)->Ok_0;
        assert(again.l4 == layout.l4);
        assert(again.kind != Kind::TCP);
    }
}

/// A translation does not add up: a frame that was sent on to an endpoint
/// and is sent on to the same endpoint again is the frame that was sent on
/// once, and likewise a frame that was shown as coming from an endpoint.
pub proof fn law_translation_is_idempotent(frame: Seq<u8>, layout: Layout, origin: NatOrigin)
    requires
        layout.fits(frame.len() as int),
        layout.matches_protocols(frame),
    ensures
        sent_to(sent_to(frame, layout, origin), layout, origin) == sent_to(frame, layout, origin),
        shown_from(shown_from(frame, layout, origin), layout, origin) == shown_from(
            frame,
            layout,
            origin,
        ),
{
    let sent = sent_to(frame, layout, origin);
    lemma_sent_to_fields(frame, layout, origin);
    lemma_with_dst_again(sent, layout, origin.ip, origin.port);
    lemma_refreshed_idempotent(
        crate::frame::with_dst(frame, layout, origin.ip, origin.port),
        layout,
    );
    let shown = shown_from(frame, layout, origin);
    lemma_shown_from_fields(frame, layout, origin);
    lemma_with_src_again(shown, layout, origin.ip, origin.port);
    lemma_refreshed_idempotent(
        crate::frame::with_src(frame, layout, origin.ip, origin.port),
        layout,
    );
}

/// Folding is adding the carries back in: the part of a sum above 16 bits
/// may be added to the part below, and the folded sum stays what it is.
/// Doing so until nothing is left above yields the folded sum itself.
pub proof fn law_fold_absorbs_carries(sum: nat)
    ensures
        fold(sum) == fold((sum % 0x10000 + sum / 0x10000) as nat),
{
    let h = sum as int / 0x10000;
    let l = sum as int % 0x10000;
    if sum > 0 {
        let t = h + l;
        assert(sum == 0x10000 * h + l);
        assert(t >= 1);
        // sum - 1 and t - 1 differ by 0xFFFF * h
        assert(sum - 1 == (t - 1) + 0xFFFF * h);
        vstd::arithmetic::div_mod::lemma_mod_multiples_vanish(h, t - 1, 0xFFFF);
        assert((0xFFFF * h + (t - 1)) % 0xFFFF == (t - 1) % 0xFFFF);
    }
}

/// A number written is the number read back, and the buffer keeps its
/// length.
pub proof fn law_written_u16_is_read_back(s: Seq<u8>, i: int, v: int)
    requires
        in_bounds(s.len() as int, i, 2),
        0 <= v <= 0xFFFF,
    ensures
        get_u16(put_u16(s, i, v), i) == v,
        put_u16(s, i, v).len() == s.len(),
{
}

/// A number written is the number read back, and the buffer keeps its
/// length.
pub proof fn law_written_u32_is_read_back(s: Seq<u8>, i: int, v: int)
    requires
        in_bounds(s.len() as int, i, 4),
        0 <= v <= 0xFFFF_FFFF,
    ensures
        get_u32(put_u32(s, i, v), i) == v,
        put_u32(s, i, v).len() == s.len(),
{
}

} // verus!
