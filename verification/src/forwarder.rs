//! The traffic forwarder: rewrites TCP frames from the translation table.
//!
//! A frame is looked up in two ways. As a frame of the requester it has the
//! forward key, from its source address to its destination address and
//! port, and a match sends it on: the destination is rewritten. As a frame
//! of the backend it has the reverse key, from its source address and port
//! to its destination address, and a match shows where it comes from: the
//! source is rewritten. The requester's port is zero in every key, as in
//! the entries that a resolution puts in.
//!
//! On the way out a frame is first taken as the requester's and only then
//! as the backend's; on the way in the other way round. So the two hooks
//! serve the requester's side, where connections leave and replies come
//! in, as well as the backend's side, where connections come in and
//! replies leave. A frame is rewritten at most once by a hook. The
//! forwarder only reads the table.

use vstd::prelude::*;
use crate::context::Context;
use crate::error::{BoundsError, Disposition};
use crate::frame::{
    checksums_valid, is_derived_field, lemma_refreshed_keeps, lemma_refreshed_matches,
    lemma_refreshed_valid, lemma_with_dst_fields, lemma_with_src_fields, refreshed, with_dst,
    with_src, Kind, Layout, IP_DST_OFFSET, IP_SRC_OFFSET, PROTOCOL_TCP,
};
use crate::table::NatTable;
use crate::types::{NatKey, NatOrigin};
use crate::wire::{get_u16, get_u32};

verus! {

/// The key of a frame taken as the requester's: from its source address,
/// port left zero, to its destination address and port.
pub open spec fn forward_key(s: Seq<u8>, lay: Layout) -> NatKey {
    NatKey {
        protocol: PROTOCOL_TCP,
        src_ip: get_u32(s, IP_SRC_OFFSET as int) as u32,
        src_port: 0,
        dst_ip: get_u32(s, IP_DST_OFFSET as int) as u32,
        dst_port: get_u16(s, lay.l4 + 2) as u16,
    }
}

/// The key of a frame taken as the backend's: from its source address and
/// port to its destination address, port left zero.
pub open spec fn reverse_key(s: Seq<u8>, lay: Layout) -> NatKey {
    NatKey {
        protocol: PROTOCOL_TCP,
        src_ip: get_u32(s, IP_SRC_OFFSET as int) as u32,
        src_port: get_u16(s, lay.l4 as int) as u16,
        dst_ip: get_u32(s, IP_DST_OFFSET as int) as u32,
        dst_port: 0,
    }
}

/// A frame sent on to `origin`: the destination replaced, lengths and
/// checksums brought in line.
pub open spec fn sent_to(s: Seq<u8>, lay: Layout, origin: NatOrigin) -> Seq<u8> {
    refreshed(with_dst(s, lay, origin.ip, origin.port), lay)
}

/// A frame shown as coming from `origin`: the source replaced, lengths and
/// checksums brought in line.
pub open spec fn shown_from(s: Seq<u8>, lay: Layout, origin: NatOrigin) -> Seq<u8> {
    refreshed(with_src(s, lay, origin.ip, origin.port), lay)
}

/// What the forwarder makes of a frame on its way out: a TCP frame whose
/// forward key the table holds is sent on to the endpoint stored there;
/// failing that, one whose reverse key the table holds is shown as coming
/// from the endpoint stored there; and any other frame stays as it is.
pub open spec fn after_egress(s: Seq<u8>, lay: Layout, table: Map<NatKey, NatOrigin>) -> Seq<u8> {
    if lay.kind != Kind::TCP {
        s
    } else if table.contains_key(forward_key(s, lay)) {
        sent_to(s, lay, table[forward_key(s, lay)])
    } else if table.contains_key(reverse_key(s, lay)) {
        shown_from(s, lay, table[reverse_key(s, lay)])
    } else {
        s
    }
}

/// What the forwarder makes of a frame on its way in: a TCP frame whose
/// reverse key the table holds is shown as coming from the endpoint stored
/// there; failing that, one whose forward key the table holds is sent on
/// to the endpoint stored there; and any other frame stays as it is.
pub open spec fn after_ingress(s: Seq<u8>, lay: Layout, table: Map<NatKey, NatOrigin>) -> Seq<
    u8,
> {
    if lay.kind != Kind::TCP {
        s
    } else if table.contains_key(reverse_key(s, lay)) {
        shown_from(s, lay, table[reverse_key(s, lay)])
    } else if table.contains_key(forward_key(s, lay)) {
        sent_to(s, lay, table[forward_key(s, lay)])
    } else {
        s
    }
}

/// A frame sent on to an endpoint has that endpoint as its destination
/// and keeps its source; its layout describes it, and its checksums
/// validate.
pub proof fn lemma_sent_to_fields(s: Seq<u8>, lay: Layout, origin: NatOrigin)
    requires
        lay.fits(s.len() as int),
        lay.matches_protocols(s),
    ensures
        sent_to(s, lay, origin).len() == s.len(),
        get_u32(sent_to(s, lay, origin), IP_DST_OFFSET as int) == origin.ip,
        get_u16(sent_to(s, lay, origin), lay.l4 + 2) == origin.port,
        get_u32(sent_to(s, lay, origin), IP_SRC_OFFSET as int) == get_u32(s, IP_SRC_OFFSET as int),
        get_u16(sent_to(s, lay, origin), lay.l4 as int) == get_u16(s, lay.l4 as int),
        lay.matches_headers(sent_to(s, lay, origin)),
        checksums_valid(sent_to(s, lay, origin), lay),
{
    let d = with_dst(s, lay, origin.ip, origin.port);
    let r = sent_to(s, lay, origin);
    lemma_with_dst_fields(s, lay, origin.ip, origin.port);
    lemma_refreshed_keeps(d, lay);
    lemma_refreshed_valid(d, lay);
    lemma_refreshed_matches(d, lay);
    assert forall|i: int|
        (IP_SRC_OFFSET <= i < IP_DST_OFFSET + 4) || (lay.l4 <= i < lay.l4 + 4) implies r[i]
        == d[i] by {
        assert(!is_derived_field(lay, i));
    }
    assert(r[26] == d[26] && r[27] == d[27] && r[28] == d[28] && r[29] == d[29]);
    assert(r[30] == d[30] && r[31] == d[31] && r[32] == d[32] && r[33] == d[33]);
    assert(r[lay.l4 as int] == d[lay.l4 as int] && r[lay.l4 + 1] == d[lay.l4 + 1]);
    assert(r[lay.l4 + 2] == d[lay.l4 + 2] && r[lay.l4 + 3] == d[lay.l4 + 3]);
    assert(d[26] == s[26] && d[27] == s[27] && d[28] == s[28] && d[29] == s[29]);
    assert(d[lay.l4 as int] == s[lay.l4 as int] && d[lay.l4 + 1] == s[lay.l4 + 1]);
}

/// A frame shown as coming from an endpoint has that endpoint as its
/// source and keeps its destination; its layout describes it, and its
/// checksums validate.
pub proof fn lemma_shown_from_fields(s: Seq<u8>, lay: Layout, origin: NatOrigin)
    requires
        lay.fits(s.len() as int),
        lay.matches_protocols(s),
    ensures
        shown_from(s, lay, origin).len() == s.len(),
        get_u32(shown_from(s, lay, origin), IP_SRC_OFFSET as int) == origin.ip,
        get_u16(shown_from(s, lay, origin), lay.l4 as int) == origin.port,
        get_u32(shown_from(s, lay, origin), IP_DST_OFFSET as int) == get_u32(
            s,
            IP_DST_OFFSET as int,
        ),
        get_u16(shown_from(s, lay, origin), lay.l4 + 2) == get_u16(s, lay.l4 + 2),
        lay.matches_headers(shown_from(s, lay, origin)),
        checksums_valid(shown_from(s, lay, origin), lay),
{
    let d = with_src(s, lay, origin.ip, origin.port);
    let r = shown_from(s, lay, origin);
    lemma_with_src_fields(s, lay, origin.ip, origin.port);
    lemma_refreshed_keeps(d, lay);
    lemma_refreshed_valid(d, lay);
    lemma_refreshed_matches(d, lay);
    assert forall|i: int|
        (IP_SRC_OFFSET <= i < IP_DST_OFFSET + 4) || (lay.l4 <= i < lay.l4 + 4) implies r[i]
        == d[i] by {
        assert(!is_derived_field(lay, i));
    }
    assert(r[26] == d[26] && r[27] == d[27] && r[28] == d[28] && r[29] == d[29]);
    assert(r[30] == d[30] && r[31] == d[31] && r[32] == d[32] && r[33] == d[33]);
    assert(r[lay.l4 as int] == d[lay.l4 as int] && r[lay.l4 + 1] == d[lay.l4 + 1]);
    assert(r[lay.l4 + 2] == d[lay.l4 + 2] && r[lay.l4 + 3] == d[lay.l4 + 3]);
    assert(d[30] == s[30] && d[31] == s[31] && d[32] == s[32] && d[33] == s[33]);
    assert(d[lay.l4 + 2] == s[lay.l4 + 2] && d[lay.l4 + 3] == s[lay.l4 + 3]);
}

/// The forwarder. It keeps nothing from one frame to the next.
#[derive(Clone, Copy, Debug)]
pub struct TrafficForwarder {}

impl TrafficForwarder {
    /// The key of a frame taken as the requester's.
    pub fn forward_key(ctx: &Context) -> (key: NatKey)
        requires
            ctx.wf(),
        ensures
            key == forward_key(ctx@, ctx.spec_layout()),
    {
        let src_ip: u32 = match ctx.src_ip() {
            Ok(v) => v,
            Err(_) => 0,
        };
        let dst_ip: u32 = match ctx.dst_ip() {
            Ok(v) => v,
            Err(_) => 0,
        };
        let dst_port: u16 = match ctx.dst_port() {
            Ok(v) => v,
            Err(_) => 0,
        };
        NatKey { protocol: PROTOCOL_TCP, src_ip, src_port: 0, dst_ip, dst_port }
    }

    /// The key of a frame taken as the backend's.
    pub fn reverse_key(ctx: &Context) -> (key: NatKey)
        requires
            ctx.wf(),
        ensures
            key == reverse_key(ctx@, ctx.spec_layout()),
    {
        let src_ip: u32 = match ctx.src_ip() {
            Ok(v) => v,
            Err(_) => 0,
        };
        let dst_ip: u32 = match ctx.dst_ip() {
            Ok(v) => v,
            Err(_) => 0,
        };
        let src_port: u16 = match ctx.src_port() {
            Ok(v) => v,
            Err(_) => 0,
        };
        NatKey { protocol: PROTOCOL_TCP, src_ip, src_port, dst_ip, dst_port: 0 }
    }

    /// Send a frame on to `origin`: rewrite its destination.
    pub fn translate_forward(ctx: &mut Context, origin: NatOrigin)
        requires
            old(ctx).wf(),
        ensures
            final(ctx).wf(),
            final(ctx).checksums_valid(),
            final(ctx).spec_layout() == old(ctx).spec_layout(),
            final(ctx)@ == sent_to(old(ctx)@, old(ctx).spec_layout(), origin),
    {
        ctx.set_dst(origin.ip, origin.port);
    }

    /// Show a frame as coming from `origin`: rewrite its source.
    pub fn translate_reverse(ctx: &mut Context, origin: NatOrigin)
        requires
            old(ctx).wf(),
        ensures
            final(ctx).wf(),
            final(ctx).checksums_valid(),
            final(ctx).spec_layout() == old(ctx).spec_layout(),
            final(ctx)@ == shown_from(old(ctx)@, old(ctx).spec_layout(), origin),
    {
        ctx.set_src(origin.ip, origin.port);
    }

    /// Handle a frame on its way out: a TCP frame whose forward key the
    /// table holds is sent on to the endpoint stored there; failing that,
    /// one whose reverse key the table holds is shown as coming from the
    /// endpoint stored there; any other frame stays as it is. The frame
    /// passes in every case.
    pub fn handle_egress(ctx: &mut Context, table: &NatTable) -> (r: Result<
        Disposition,
        BoundsError,
    >)
        requires
            old(ctx).wf(),
            table.wf(),
        ensures
            final(ctx).wf(),
            r == Ok::<Disposition, BoundsError>(Disposition::Pass),
            final(ctx).spec_layout() == old(ctx).spec_layout(),
            final(ctx)@ == after_egress(old(ctx)@, old(ctx).spec_layout(), table@),
    {
        if !matches!(ctx.kind(), Kind::TCP) {
            return Ok(Disposition::Pass);
        }
        let forward = Self::forward_key(ctx);
        match table.get(&forward) {
            Some(origin) => {
                Self::translate_forward(ctx, origin);
            },
            None => {
                let reverse = Self::reverse_key(ctx);
                match table.get(&reverse) {
                    Some(origin) => {
                        Self::translate_reverse(ctx, origin);
                    },
                    None => {},
                }
            },
        }
        Ok(Disposition::Pass)
    }

    /// Handle a frame on its way in: a TCP frame whose reverse key the
    /// table holds is shown as coming from the endpoint stored there;
    /// failing that, one whose forward key the table holds is sent on to
    /// the endpoint stored there; any other frame stays as it is. The frame
    /// passes in every case.
    pub fn handle_ingress(ctx: &mut Context, table: &NatTable) -> (r: Result<
        Disposition,
        BoundsError,
    >)
        requires
            old(ctx).wf(),
            table.wf(),
        ensures
            final(ctx).wf(),
            r == Ok::<Disposition, BoundsError>(Disposition::Pass),
            final(ctx).spec_layout() == old(ctx).spec_layout(),
            final(ctx)@ == after_ingress(old(ctx)@, old(ctx).spec_layout(), table@),
    {
        if !matches!(ctx.kind(), Kind::TCP) {
            return Ok(Disposition::Pass);
        }
        let reverse = Self::reverse_key(ctx);
        match table.get(&reverse) {
            Some(origin) => {
                Self::translate_reverse(ctx, origin);
            },
            None => {
                let forward = Self::forward_key(ctx);
                match table.get(&forward) {
                    Some(origin) => {
                        Self::translate_forward(ctx, origin);
                    },
                    None => {},
                }
            },
        }
        Ok(Disposition::Pass)
    }
}

} // verus!
