//! The DNS resolver: answers the queries whose question the service
//! registry holds, and provisions the translation of the connection that
//! the requester will open to the resolved address.
//!
//! A resolution puts two entries into the translation table, one for each
//! direction, and puts either both or none. The requester's port is not
//! known when the name is resolved, so both keys leave it zero:
//!
//! * forward: TCP from the requester (port zero) to the resolved address on
//!   the service port, rewritten to the backend endpoint;
//! * reverse: TCP from the backend endpoint to the requester (port zero),
//!   rewritten to the resolved address on the service port.
//!
//! The answer and the provisioning are independent: an answer goes out also
//! where the table had no room.

use vstd::prelude::*;
use crate::context::Context;
use crate::dns::{
    answerable, lemma_parse_bounds, parse_question, response, response_layout, ParsedQuestion,
};
use crate::error::{BoundsError, Disposition, MapError, ParseError};
use crate::frame::{IP_SRC_OFFSET, PROTOCOL_TCP};
use crate::table::{NatTable, ServiceRegistry, CAPACITY};
use crate::types::{DnsRecordA, NatKey, NatOrigin, Question};
use crate::wire::{get_u32, out_of_bounds};

verus! {

/// The resolver's configuration.
#[derive(Clone, Copy, Debug, PartialEq, Eq, Structural)]
pub struct DnsResolver {
    /// The time to live of the answers, in seconds.
    pub ttl: u32,
    /// The port on which a requester reaches a service at its resolved
    /// address.
    pub service_port: u16,
    /// The endpoint that serves the connections to resolved addresses.
    pub backend: NatOrigin,
}

/// The two entries of one resolution.
#[derive(Clone, Copy, Debug, PartialEq, Eq, Structural)]
pub struct Provision {
    /// The key of the requester's packets to the resolved address.
    pub forward_key: NatKey,
    /// Where those packets go instead.
    pub forward_origin: NatOrigin,
    /// The key of the backend's packets to the requester.
    pub reverse_key: NatKey,
    /// Where those packets are said to come from instead.
    pub reverse_origin: NatOrigin,
}

/// What a resolution makes of the translation table `m`: both entries put
/// in where the table has room for those of the two keys that it does not
/// hold yet, and `m` itself where it has not.
pub open spec fn provisioned(m: Map<NatKey, NatOrigin>, p: Provision) -> Map<NatKey, NatOrigin> {
    if has_room(m, p) {
        m.insert(p.forward_key, p.forward_origin).insert(p.reverse_key, p.reverse_origin)
    } else {
        m
    }
}

/// Whether the table has room for those keys of a resolution that it does
/// not hold yet.
pub open spec fn has_room(m: Map<NatKey, NatOrigin>, p: Provision) -> bool {
    m.dom().len() + (if m.contains_key(p.forward_key) {
        0int
    } else {
        1int
    }) + (if m.contains_key(p.reverse_key) {
        0int
    } else {
        1int
    }) <= CAPACITY
}

impl DnsResolver {
    /// The two entries for a requester and the address that its name
    /// resolved to.
    pub open spec fn provision_for(self, requester: u32, address: u32) -> Provision {
        Provision {
            forward_key: NatKey {
                protocol: PROTOCOL_TCP,
                src_ip: requester,
                src_port: 0,
                dst_ip: address,
                dst_port: self.service_port,
            },
            forward_origin: self.backend,
            reverse_key: NatKey {
                protocol: PROTOCOL_TCP,
                src_ip: self.backend.ip,
                src_port: self.backend.port,
                dst_ip: requester,
                dst_port: 0,
            },
            reverse_origin: NatOrigin { ip: address, port: self.service_port },
        }
    }

    /// A resolver with this configuration.
    pub fn new(ttl: u32, service_port: u16, backend: NatOrigin) -> (resolver: DnsResolver)
        ensures
            resolver == (DnsResolver { ttl, service_port, backend }),
    {
        DnsResolver { ttl, service_port, backend }
    }

    /// The two entries for a requester and the record that its name
    /// resolved to.
    pub fn entries(&self, requester: u32, record: DnsRecordA) -> (p: Provision)
        ensures
            p == self.provision_for(requester, record.ip),
    {
        Provision {
            forward_key: NatKey {
                protocol: PROTOCOL_TCP,
                src_ip: requester,
                src_port: 0,
                dst_ip: record.ip,
                dst_port: self.service_port,
            },
            forward_origin: self.backend,
            reverse_key: NatKey {
                protocol: PROTOCOL_TCP,
                src_ip: self.backend.ip,
                src_port: self.backend.port,
                dst_ip: requester,
                dst_port: 0,
            },
            reverse_origin: NatOrigin { ip: record.ip, port: self.service_port },
        }
    }

    /// Put the two entries of a resolution into the table, or neither where
    /// the table has no room for both.
    pub fn provision(&self, table: &mut NatTable, requester: u32, record: DnsRecordA) -> (r: Result<
        (),
        MapError,
    >)
        requires
            old(table).wf(),
        ensures
            final(table).wf(),
            final(table)@ == provisioned(old(table)@, self.provision_for(requester, record.ip)),
            r == (if has_room(old(table)@, self.provision_for(requester, record.ip)) {
                Ok::<(), MapError>(())
            } else {
                Err::<(), MapError>(MapError::Full)
            }),
    {
        let p = self.entries(requester, record);
        let held: usize = table.len();
        let forward_new: usize = if table.get(&p.forward_key).is_none() {
            1
        } else {
            0
        };
        let reverse_new: usize = if table.get(&p.reverse_key).is_none() {
            1
        } else {
            0
        };
        if held + forward_new + reverse_new > CAPACITY {
            return Err(MapError::Full);
        }
        proof {
            table.lemma_bounded();
        }
        let _ = table.insert(p.forward_key, p.forward_origin);
        let _ = table.insert(p.reverse_key, p.reverse_origin);
        Ok(())
    }

    /// Turn the query in `ctx` into the answer that carries `record`.
    /// `question_end` is where the question ends, as reading it said. Where
    /// the frame is no DNS query, or `question_end` is no place where its
    /// question can end, nothing changes and the refusal is returned.
    pub fn synthesize(&self, ctx: &mut Context, question_end: usize, record: DnsRecordA) -> (r:
        Result<(), BoundsError>)
        requires
            old(ctx).wf(),
        ensures
            final(ctx).wf(),
            answerable(old(ctx)@, old(ctx).spec_layout(), question_end as int) ==> r is Ok
                && final(ctx).spec_layout() == response_layout(
                old(ctx).spec_layout(),
                question_end as int,
            ) && final(ctx)@ == response(
                old(ctx)@,
                old(ctx).spec_layout(),
                question_end as int,
                record.ip,
                self.ttl,
            ),
            !answerable(old(ctx)@, old(ctx).spec_layout(), question_end as int) ==> r == Err::<
                (),
                BoundsError,
            >(
                out_of_bounds(
                    old(ctx).spec_layout().end as int,
                    question_end as int,
                    crate::dns::ANSWER_LEN as int,
                ),
            ) && final(ctx)@ == old(ctx)@ && final(ctx).spec_layout() == old(ctx).spec_layout(),
            r is Ok ==> final(ctx).checksums_valid(),
    {
        ctx.answer(question_end, record.ip, self.ttl)
    }

    /// Handle one frame: read its question, look it up, and where the
    /// registry holds it, turn the frame into the answer and provision the
    /// translation.
    ///
    /// A frame that is no query to answer gives the reason, and a question
    /// that the registry does not hold gives `Pass`; in both cases frame
    /// and table stay as they were. A question that the registry holds
    /// gives `Redirect`, also where the table had no room for the two
    /// entries.
    pub fn handle(&self, ctx: &mut Context, registry: &ServiceRegistry, table: &mut NatTable) -> (r:
        Result<Disposition, ParseError>)
        requires
            old(ctx).wf(),
            registry.wf(),
            old(table).wf(),
        ensures
            final(ctx).wf(),
            final(table).wf(),
            r == self.outcome(old(ctx)@, old(ctx).spec_layout(), registry@),
            final(ctx)@ == self.frame_after(old(ctx)@, old(ctx).spec_layout(), registry@),
            final(ctx).spec_layout() == self.layout_after(
                old(ctx)@,
                old(ctx).spec_layout(),
                registry@,
            ),
            final(table)@ == self.table_after(
                old(ctx)@,
                old(ctx).spec_layout(),
                registry@,
                old(table)@,
            ),
    {
        let parsed: ParsedQuestion = match ctx.question() {
            Ok(p) => p,
            Err(e) => { return Err(e); },
        };
        let record: DnsRecordA = match registry.get(&parsed.query) {
            Some(record) => record,
            None => { return Ok(Disposition::Pass); },
        };
        proof {
            lemma_parse_bounds(ctx@, ctx.spec_layout());
        }
        let requester: u32 = match ctx.src_ip() {
            Ok(ip) => ip,
            Err(_) => 0,
        };
        let _ = self.synthesize(ctx, parsed.end, record);
        let _ = self.provision(table, requester, record);
        Ok(Disposition::Redirect)
    }
}

/// The record that the registry holds for the question of the query in a
/// frame, if the frame is a query to answer and the registry holds its
/// question.
pub open spec fn resolved(
    s: Seq<u8>,
    lay: crate::frame::Layout,
    registry: Map<Question, DnsRecordA>,
) -> Option<DnsRecordA> {
    match parse_question(s, lay) {
        Ok(found) => if registry.contains_key(found.0) {
            Some(registry[found.0])
        } else {
            None
        },
        Err(_) => None,
    }
}

impl DnsResolver {
    /// What handling a frame returns.
    pub open spec fn outcome(
        self,
        s: Seq<u8>,
        lay: crate::frame::Layout,
        registry: Map<Question, DnsRecordA>,
    ) -> Result<Disposition, ParseError> {
        match parse_question(s, lay) {
            Err(e) => Err(e),
            Ok(found) => if registry.contains_key(found.0) {
                Ok(Disposition::Redirect)
            } else {
                Ok(Disposition::Pass)
            },
        }
    }

    /// What handling a frame makes of it: the answer where the registry
    /// holds the question, and the frame itself otherwise.
    pub open spec fn frame_after(
        self,
        s: Seq<u8>,
        lay: crate::frame::Layout,
        registry: Map<Question, DnsRecordA>,
    ) -> Seq<u8> {
        match resolved(s, lay, registry) {
            Some(record) => response(s, lay, parse_question(s, lay)->Ok_0.1, record.ip, self.ttl),
            None => s,
        }
    }

    /// The layout of what handling a frame makes of it.
    pub open spec fn layout_after(
        self,
        s: Seq<u8>,
        lay: crate::frame::Layout,
        registry: Map<Question, DnsRecordA>,
    ) -> crate::frame::Layout {
        match resolved(s, lay, registry) {
            Some(record) => response_layout(lay, parse_question(s, lay)->Ok_0.1),
            None => lay,
        }
    }

    /// What handling a frame makes of the translation table: the two
    /// entries for the frame's sender and the resolved address put in
    /// where the registry holds the question and the table has room, and
    /// the table itself otherwise.
    pub open spec fn table_after(
        self,
        s: Seq<u8>,
        lay: crate::frame::Layout,
        registry: Map<Question, DnsRecordA>,
        table: Map<NatKey, NatOrigin>,
    ) -> Map<NatKey, NatOrigin> {
        match resolved(s, lay, registry) {
            Some(record) => provisioned(
                table,
                self.provision_for(get_u32(s, IP_SRC_OFFSET as int) as u32, record.ip),
            ),
            None => table,
        }
    }
}

} // verus!
