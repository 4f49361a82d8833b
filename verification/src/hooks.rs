//! The three hooks, one per attachment point. Each takes one frame, has it
//! classified, and hands it to the component that it belongs to. A frame
//! that cannot be classified, or that belongs to no component, passes
//! unchanged.

use vstd::prelude::*;
use crate::context::Context;
use crate::error::{BoundsError, Disposition, ParseError};
use crate::forwarder::{after_egress, after_ingress, TrafficForwarder};
use crate::frame::{classify, Kind};
use crate::resolver::DnsResolver;
use crate::table::{NatTable, ServiceRegistry};
use crate::types::{DnsRecordA, NatKey, NatOrigin, Question};

verus! {

/// What the resolving hook returns for a frame, failures told apart: a
/// frame that is not DNS passes, and a DNS frame gets what the resolver
/// says of it.
pub open spec fn resolution(
    s: Seq<u8>,
    config: DnsResolver,
    registry: Map<Question, DnsRecordA>,
) -> Result<Disposition, ParseError> {
    match classify(s) {
        Ok(layout) => if layout.kind == Kind::DNS {
            config.outcome(s, layout, registry)
        } else {
            Ok(Disposition::Pass)
        },
        Err(_) => Ok(Disposition::Pass),
    }
}

/// What the resolving hook makes of a frame.
pub open spec fn resolved_frame(
    s: Seq<u8>,
    config: DnsResolver,
    registry: Map<Question, DnsRecordA>,
) -> Seq<u8> {
    match classify(s) {
        Ok(layout) => config.frame_after(s, layout, registry),
        Err(_) => s,
    }
}

/// What the resolving hook makes of the translation table.
pub open spec fn resolved_table(
    s: Seq<u8>,
    config: DnsResolver,
    registry: Map<Question, DnsRecordA>,
    table: Map<NatKey, NatOrigin>,
) -> Map<NatKey, NatOrigin> {
    match classify(s) {
        Ok(layout) => config.table_after(s, layout, registry, table),
        Err(_) => table,
    }
}

/// What the hook on the way out makes of a frame.
pub open spec fn egress_frame(s: Seq<u8>, table: Map<NatKey, NatOrigin>) -> Seq<u8> {
    match classify(s) {
        Ok(layout) => after_egress(s, layout, table),
        Err(_) => s,
    }
}

/// What the hook on the way in makes of a frame.
pub open spec fn ingress_frame(s: Seq<u8>, table: Map<NatKey, NatOrigin>) -> Seq<u8> {
    match classify(s) {
        Ok(layout) => after_ingress(s, layout, table),
        Err(_) => s,
    }
}

/// The resolving hook with its failures told apart: answer the frame if it
/// is a DNS query for a registered name, and say why not if it is DNS and
/// no query to answer.
pub fn try_resolve_dns(
    packet: &mut Vec<u8>,
    config: &DnsResolver,
    registry: &ServiceRegistry,
    table: &mut NatTable,
) -> (r: Result<Disposition, ParseError>)
    requires
        registry.wf(),
        old(table).wf(),
    ensures
        final(table).wf(),
        r == resolution(old(packet)@, *config, registry@),
        final(packet)@ == resolved_frame(old(packet)@, *config, registry@),
        final(table)@ == resolved_table(old(packet)@, *config, registry@, old(table)@),
{
    let mut ctx = match Context::load(packet.as_slice()) {
        Ok(ctx) => ctx,
        Err(_) => { return Ok(Disposition::Pass); },
    };
    match ctx.kind() {
        Kind::DNS => {
            let r = config.handle(&mut ctx, registry, table);
            if let Ok(Disposition::Redirect) = r {
                *packet = ctx.into_bytes();
            }
            r
        },
        _ => Ok(Disposition::Pass),
    }
}

/// The resolving hook: a DNS query for a registered name becomes its
/// answer and is redirected; any other frame passes unchanged.
pub fn resolver(
    packet: &mut Vec<u8>,
    config: &DnsResolver,
    registry: &ServiceRegistry,
    table: &mut NatTable,
) -> (disposition: Disposition)
    requires
        registry.wf(),
        old(table).wf(),
    ensures
        final(table).wf(),
        disposition == (match resolution(old(packet)@, *config, registry@) {
            Ok(d) => d,
            Err(_) => Disposition::Pass,
        }),
        final(packet)@ == resolved_frame(old(packet)@, *config, registry@),
        final(table)@ == resolved_table(old(packet)@, *config, registry@, old(table)@),
{
    match try_resolve_dns(packet, config, registry, table) {
        Ok(disposition) => disposition,
        Err(_) => Disposition::Pass,
    }
}

/// The hook on the way in, with its failures told apart.
pub fn try_forward_ingress(packet: &mut Vec<u8>, table: &NatTable) -> (r: Result<
    Disposition,
    BoundsError,
>)
    requires
        table.wf(),
    ensures
        r == Ok::<Disposition, BoundsError>(Disposition::Pass),
        final(packet)@ == ingress_frame(old(packet)@, table@),
{
    let mut ctx = match Context::load(packet.as_slice()) {
        Ok(ctx) => ctx,
        Err(_) => { return Ok(Disposition::Pass); },
    };
    match ctx.kind() {
        Kind::TCP => {
            let r = TrafficForwarder::handle_ingress(&mut ctx, table);
            *packet = ctx.into_bytes();
            r
        },
        _ => Ok(Disposition::Pass),
    }
}

/// The hook on the way in: a TCP frame whose flow the table holds is
/// rewritten, as a reply first and as a connection otherwise; every frame
/// passes.
pub fn ingress_forwarder(packet: &mut Vec<u8>, table: &NatTable) -> (disposition: Disposition)
    requires
        table.wf(),
    ensures
        disposition == Disposition::Pass,
        final(packet)@ == ingress_frame(old(packet)@, table@),
{
    match try_forward_ingress(packet, table) {
        Ok(disposition) => disposition,
        Err(_) => Disposition::Pass,
    }
}

/// The hook on the way out, with its failures told apart.
pub fn try_forward_egress(packet: &mut Vec<u8>, table: &NatTable) -> (r: Result<
    Disposition,
    BoundsError,
>)
    requires
        table.wf(),
    ensures
        r == Ok::<Disposition, BoundsError>(Disposition::Pass),
        final(packet)@ == egress_frame(old(packet)@, table@),
{
    let mut ctx = match Context::load(packet.as_slice()) {
        Ok(ctx) => ctx,
        Err(_) => { return Ok(Disposition::Pass); },
    };
    match ctx.kind() {
        Kind::TCP => {
            let r = TrafficForwarder::handle_egress(&mut ctx, table);
            *packet = ctx.into_bytes();
            r
        },
        _ => Ok(Disposition::Pass),
    }
}

/// The hook on the way out: a TCP frame whose flow the table holds is
/// rewritten, as a connection first and as a reply otherwise; every frame
/// passes.
pub fn egress_forwarder(packet: &mut Vec<u8>, table: &NatTable) -> (disposition: Disposition)
    requires
        table.wf(),
    ensures
        disposition == Disposition::Pass,
        final(packet)@ == egress_frame(old(packet)@, table@),
{
    match try_forward_egress(packet, table) {
        Ok(disposition) => disposition,
        Err(_) => Disposition::Pass,
    }
}

} // verus!
