//! The packet context: one classified frame, its headers read under a
//! bounds check and rewritten with lengths and checksums kept in line.

use vstd::prelude::*;
use vstd::slice::slice_to_vec;
use crate::dns::{
    answerable, parse, parse_question, respond, response, response_layout, ParsedQuestion,
    DNS_ANSWERS_OFFSET, DNS_FLAGS_OFFSET, DNS_QUESTIONS_OFFSET,
};
use crate::error::{BoundsError, LoadError, ParseError};
use crate::frame::{
    classify, classify_frame, lemma_classify_fits, lemma_refreshed_matches, put_dst, put_src,
    refresh, refreshed, turn_around, turned_around, with_dst, with_src, Kind, Layout, ETH_LEN,
    IP_DST_OFFSET, IP_SRC_OFFSET, UDP_HEADER_LEN,
};
use crate::wire::{
    checked_u16, checked_u32, checked_u8, out_of_bounds, read_u16, read_u32, read_u8,
};

verus! {

/// One frame with its classification. The bytes are the context's own: the
/// frame that it was loaded from stays as it was.
#[derive(Debug)]
pub struct Context {
    buffer: Vec<u8>,
    layout: Layout,
}

impl View for Context {
    type V = Seq<u8>;

    closed spec fn view(&self) -> Seq<u8> {
        self.buffer@
    }
}

impl Context {
    /// Where the parts of the frame lie.
    pub closed spec fn spec_layout(&self) -> Layout {
        self.layout
    }

    /// Whether the context is in order: the buffer has room for the layout,
    /// and the headers say what the layout says.
    pub open spec fn wf(&self) -> bool {
        &&& self.spec_layout().fits(self@.len() as int)
        &&& self.spec_layout().matches_headers(self@)
    }

    /// Whether both checksums of the frame pass the receiver's test.
    pub open spec fn checksums_valid(&self) -> bool {
        crate::frame::checksums_valid(self@, self.spec_layout())
    }

    /// Classify a frame and take a copy of it. A frame that cannot be
    /// classified gives the reason and no context.
    pub fn load(buffer: &[u8]) -> (r: Result<Context, LoadError>)
        ensures
            match classify(buffer@) {
                Ok(layout) => r matches Ok(ctx) && ctx@ == buffer@ && ctx.spec_layout() == layout
                    && ctx.wf(),
                Err(e) => r matches Err(f) && f == e,
            },
    {
        let data = slice_to_vec(buffer);
        proof {
            if classify(data@) is Ok {
                lemma_classify_fits(data@);
            }
        }
        match classify_frame(&data) {
            Ok(layout) => Ok(Context { buffer: data, layout }),
            Err(e) => Err(e),
        }
    }

    /// What the frame is.
    pub fn kind(&self) -> (kind: Kind)
        ensures
            kind == self.spec_layout().kind,
    {
        self.layout.kind
    }

    /// Where the parts of the frame lie.
    #[verifier::when_used_as_spec(spec_layout)]
    pub fn layout(&self) -> (layout: Layout)
        ensures
            layout == self.spec_layout(),
    {
        self.layout
    }

    /// How many bytes the frame has, link padding included.
    pub fn len(&self) -> (n: usize)
        ensures
            n == self@.len(),
    {
        self.buffer.len()
    }

    /// The bytes of the frame.
    pub fn bytes(&self) -> (bytes: &Vec<u8>)
        ensures
            bytes@ == self@,
    {
        &self.buffer
    }

    /// The bytes of the frame, the context given up.
    pub fn into_bytes(self) -> (bytes: Vec<u8>)
        ensures
            bytes@ == self@,
    {
        self.buffer
    }

    /// The byte at `offset`, if it lies inside the datagram.
    pub fn read_u8(&self, offset: usize) -> (r: Result<u8, BoundsError>)
        requires
            self.wf(),
        ensures
            r == checked_u8(self@, self.spec_layout().end as int, offset as int),
    {
        let end = self.layout.end;
        if offset >= end {
            return Err(BoundsError { offset, width: 1, len: end });
        }
        read_u8(&self.buffer, offset)
    }

    /// The 16-bit number at `offset`, if it lies inside the datagram.
    pub fn read_u16(&self, offset: usize) -> (r: Result<u16, BoundsError>)
        requires
            self.wf(),
        ensures
            r == checked_u16(self@, self.spec_layout().end as int, offset as int),
    {
        let end = self.layout.end;
        if offset > end || end - offset < 2 {
            return Err(BoundsError { offset, width: 2, len: end });
        }
        read_u16(&self.buffer, offset)
    }

    /// The 32-bit number at `offset`, if it lies inside the datagram.
    pub fn read_u32(&self, offset: usize) -> (r: Result<u32, BoundsError>)
        requires
            self.wf(),
        ensures
            r == checked_u32(self@, self.spec_layout().end as int, offset as int),
    {
        let end = self.layout.end;
        if offset > end || end - offset < 4 {
            return Err(BoundsError { offset, width: 4, len: end });
        }
        read_u32(&self.buffer, offset)
    }

    /// The source address.
    pub fn src_ip(&self) -> (r: Result<u32, BoundsError>)
        requires
            self.wf(),
        ensures
            r == Ok::<u32, BoundsError>(crate::wire::get_u32(self@, IP_SRC_OFFSET as int) as u32),
    {
        self.read_u32(IP_SRC_OFFSET)
    }

    /// The destination address.
    pub fn dst_ip(&self) -> (r: Result<u32, BoundsError>)
        requires
            self.wf(),
        ensures
            r == Ok::<u32, BoundsError>(crate::wire::get_u32(self@, IP_DST_OFFSET as int) as u32),
    {
        self.read_u32(IP_DST_OFFSET)
    }

    /// The source port.
    pub fn src_port(&self) -> (r: Result<u16, BoundsError>)
        requires
            self.wf(),
        ensures
            r == Ok::<u16, BoundsError>(
                crate::wire::get_u16(self@, self.spec_layout().l4 as int) as u16,
            ),
    {
        self.read_u16(self.layout.l4)
    }

    /// The destination port.
    pub fn dst_port(&self) -> (r: Result<u16, BoundsError>)
        requires
            self.wf(),
        ensures
            r == Ok::<u16, BoundsError>(
                crate::wire::get_u16(self@, self.spec_layout().l4 + 2) as u16,
            ),
    {
        self.read_u16(self.layout.l4 + 2)
    }

    /// The flags of the DNS header. A frame that is too short to hold them
    /// where a DNS header would lie gives the refusal.
    pub fn dns_flags(&self) -> (r: Result<u16, BoundsError>)
        requires
            self.wf(),
        ensures
            r == checked_u16(
                self@,
                self.spec_layout().end as int,
                self.spec_layout().l4 + UDP_HEADER_LEN + DNS_FLAGS_OFFSET,
            ),
            self.spec_layout().kind == Kind::DNS ==> r is Ok,
    {
        self.read_u16(self.layout.l4 + UDP_HEADER_LEN + DNS_FLAGS_OFFSET)
    }

    /// The question count of the DNS header.
    pub fn dns_question_count(&self) -> (r: Result<u16, BoundsError>)
        requires
            self.wf(),
        ensures
            r == checked_u16(
                self@,
                self.spec_layout().end as int,
                self.spec_layout().l4 + UDP_HEADER_LEN + DNS_QUESTIONS_OFFSET,
            ),
            self.spec_layout().kind == Kind::DNS ==> r is Ok,
    {
        self.read_u16(self.layout.l4 + UDP_HEADER_LEN + DNS_QUESTIONS_OFFSET)
    }

    /// The answer count of the DNS header.
    pub fn dns_answer_count(&self) -> (r: Result<u16, BoundsError>)
        requires
            self.wf(),
        ensures
            r == checked_u16(
                self@,
                self.spec_layout().end as int,
                self.spec_layout().l4 + UDP_HEADER_LEN + DNS_ANSWERS_OFFSET,
            ),
            self.spec_layout().kind == Kind::DNS ==> r is Ok,
    {
        self.read_u16(self.layout.l4 + UDP_HEADER_LEN + DNS_ANSWERS_OFFSET)
    }

    /// The question of the DNS query in the frame, normalized, and where it
    /// ends; or why the frame is not taken as a query to answer.
    pub fn question(&self) -> (r: Result<ParsedQuestion, ParseError>)
        requires
            self.wf(),
        ensures
            match parse_question(self@, self.spec_layout()) {
                Ok(found) => r matches Ok(p) && p.query@ == found.0 && p.end == found.1,
                Err(e) => r matches Err(f) && f == e,
            },
    {
        parse(&self.buffer, &self.layout)
    }

    /// Replace the source address and port, and bring lengths and checksums
    /// in line.
    pub fn set_src(&mut self, ip: u32, port: u16)
        requires
            old(self).wf(),
        ensures
            final(self).wf(),
            final(self).spec_layout() == old(self).spec_layout(),
            final(self)@ == refreshed(
                with_src(old(self)@, old(self).spec_layout(), ip, port),
                old(self).spec_layout(),
            ),
            final(self).checksums_valid(),
    {
        proof {
            lemma_refreshed_matches(
                with_src(self@, self.spec_layout(), ip, port),
                self.spec_layout(),
            );
            crate::frame::lemma_refreshed_valid(
                with_src(self@, self.spec_layout(), ip, port),
                self.spec_layout(),
            );
        }
        put_src(&mut self.buffer, &self.layout, ip, port);
        refresh(&mut self.buffer, &self.layout);
    }

    /// Replace the destination address and port, and bring lengths and
    /// checksums in line.
    pub fn set_dst(&mut self, ip: u32, port: u16)
        requires
            old(self).wf(),
        ensures
            final(self).wf(),
            final(self).spec_layout() == old(self).spec_layout(),
            final(self)@ == refreshed(
                with_dst(old(self)@, old(self).spec_layout(), ip, port),
                old(self).spec_layout(),
            ),
            final(self).checksums_valid(),
    {
        proof {
            lemma_refreshed_matches(
                with_dst(self@, self.spec_layout(), ip, port),
                self.spec_layout(),
            );
            crate::frame::lemma_refreshed_valid(
                with_dst(self@, self.spec_layout(), ip, port),
                self.spec_layout(),
            );
        }
        put_dst(&mut self.buffer, &self.layout, ip, port);
        refresh(&mut self.buffer, &self.layout);
    }

    /// Exchange source and destination: the Ethernet addresses, the IPv4
    /// addresses and the ports; and bring lengths and checksums in line.
    pub fn swap_endpoints(&mut self)
        requires
            old(self).wf(),
        ensures
            final(self).wf(),
            final(self).spec_layout() == old(self).spec_layout(),
            final(self)@ == refreshed(
                turned_around(old(self)@, old(self).spec_layout()),
                old(self).spec_layout(),
            ),
            final(self).checksums_valid(),
    {
        proof {
            crate::frame::lemma_turned_around_fields(self@, self.spec_layout());
            lemma_refreshed_matches(
                turned_around(self@, self.spec_layout()),
                self.spec_layout(),
            );
            crate::frame::lemma_refreshed_valid(
                turned_around(self@, self.spec_layout()),
                self.spec_layout(),
            );
        }
        turn_around(&mut self.buffer, &self.layout);
        refresh(&mut self.buffer, &self.layout);
    }
    /// Cut the datagram off at `end` and drop what lies behind, link
    /// padding included; then bring lengths and checksums in line. An `end`
    /// that is behind the datagram's end, or that would cut into the
    /// headers, is refused and nothing changes.
    pub fn truncate(&mut self, end: usize) -> (r: Result<(), BoundsError>)
        requires
            old(self).wf(),
        ensures
            final(self).wf(),
            r is Ok ==> final(self).checksums_valid(),
            old(self).can_end_at(end as int) ==> r is Ok && final(self).spec_layout() == old(
                self,
            ).spec_layout().ending_at(end as int) && final(self)@ == refreshed(
                old(self)@.subrange(0, end as int),
                old(self).spec_layout().ending_at(end as int),
            ),
            !old(self).can_end_at(end as int) ==> r == Err::<(), BoundsError>(
                out_of_bounds(old(self).spec_layout().end as int, end as int, 0),
            ) && final(self)@ == old(self)@ && final(self).spec_layout() == old(
                self,
            ).spec_layout(),
    {
        let lay = self.layout;
        let least: usize = match lay.kind {
            Kind::TCP => crate::frame::TCP_HEADER_LEN,
            Kind::DNS => UDP_HEADER_LEN + crate::frame::DNS_HEADER_LEN,
            _ => UDP_HEADER_LEN,
        };
        if end > lay.end || end < lay.l4 + least {
            return Err(BoundsError { offset: end, width: 0, len: lay.end });
        }
        let out = Layout { kind: lay.kind, l4: lay.l4, end };
        proof {
            lemma_refreshed_matches(self@.subrange(0, end as int), out);
            crate::frame::lemma_refreshed_valid(self@.subrange(0, end as int), out);
        }
        self.buffer.truncate(end);
        refresh(&mut self.buffer, &out);
        self.layout = out;
        Ok(())
    }

    /// Append `extra` to the datagram, dropping link padding first; then
    /// bring lengths and checksums in line. Bytes that would make the
    /// datagram longer than its length field can say are refused and
    /// nothing changes.
    pub fn append(&mut self, extra: &[u8]) -> (r: Result<(), BoundsError>)
        requires
            old(self).wf(),
        ensures
            final(self).wf(),
            r is Ok ==> final(self).checksums_valid(),
            old(self).can_grow_by(extra@.len() as int) ==> r is Ok && final(self).spec_layout()
                == old(self).spec_layout().ending_at(old(self).spec_layout().end + extra@.len())
                && final(self)@ == refreshed(
                old(self)@.subrange(0, old(self).spec_layout().end as int) + extra@,
                old(self).spec_layout().ending_at(old(self).spec_layout().end + extra@.len()),
            ),
            !old(self).can_grow_by(extra@.len() as int) ==> r == Err::<(), BoundsError>(
                out_of_bounds(
                    ETH_LEN + 0xFFFF,
                    old(self).spec_layout().end as int,
                    extra@.len() as int,
                ),
            ) && final(self)@ == old(self)@ && final(self).spec_layout() == old(
                self,
            ).spec_layout(),
    {
        let lay = self.layout;
        let n: usize = extra.len();
        if n > ETH_LEN + 0xFFFF - lay.end {
            return Err(BoundsError { offset: lay.end, width: n, len: ETH_LEN + 0xFFFF });
        }
        let out = Layout { kind: lay.kind, l4: lay.l4, end: lay.end + n };
        let ghost kept = self@.subrange(0, lay.end as int);
        proof {
            lemma_refreshed_matches(kept + extra@, out);
            crate::frame::lemma_refreshed_valid(kept + extra@, out);
        }
        self.buffer.truncate(lay.end);
        let mut i: usize = 0;
        while i < n
            invariant
                i <= n,
                n == extra@.len(),
                self.buffer@ == kept + extra@.subrange(0, i as int),
            decreases n - i,
        {
            self.buffer.push(extra[i]);
            i = i + 1;
            assert(self.buffer@ =~= kept + extra@.subrange(0, i as int));
        }
        assert(extra@.subrange(0, n as int) =~= extra@);
        refresh(&mut self.buffer, &out);
        self.layout = out;
        Ok(())
    }

    /// Turn the DNS query in the frame into its answer: cut the frame off
    /// at `question_end`, append one address record with `address` and
    /// `ttl`, send it back where it came from, and bring lengths and
    /// checksums in line. Where the frame is no DNS query, or
    /// `question_end` is no place where its question can end, nothing
    /// changes and the refusal is returned.
    pub fn answer(&mut self, question_end: usize, address: u32, ttl: u32) -> (r: Result<
        (),
        BoundsError,
    >)
        requires
            old(self).wf(),
        ensures
            final(self).wf(),
            r is Ok ==> final(self).checksums_valid(),
            answerable(old(self)@, old(self).spec_layout(), question_end as int) ==> r is Ok
                && final(self).spec_layout() == response_layout(
                old(self).spec_layout(),
                question_end as int,
            ) && final(self)@ == response(
                old(self)@,
                old(self).spec_layout(),
                question_end as int,
                address,
                ttl,
            ),
            !answerable(old(self)@, old(self).spec_layout(), question_end as int) ==> r == Err::<
                (),
                BoundsError,
            >(
                out_of_bounds(
                    old(self).spec_layout().end as int,
                    question_end as int,
                    crate::dns::ANSWER_LEN as int,
                ),
            ) && final(self)@ == old(self)@ && final(self).spec_layout() == old(
                self,
            ).spec_layout(),
    {
        let lay = self.layout;
        let refusal = BoundsError {
            offset: question_end,
            width: crate::dns::ANSWER_LEN,
            len: lay.end,
        };
        if !matches!(lay.kind, Kind::DNS) {
            return Err(refusal);
        }
        let start: usize = lay.l4 + UDP_HEADER_LEN + crate::frame::DNS_HEADER_LEN;
        let flags: u16 = match read_u16(&self.buffer, lay.l4 + UDP_HEADER_LEN + DNS_FLAGS_OFFSET) {
            Ok(v) => v,
            Err(_) => { return Err(refusal); },
        };
        if flags >= crate::dns::DNS_RESPONSE_FLAG || question_end < start + 5 || question_end
            > lay.end || question_end > start + crate::dns::MAX_NAME_LEN + 4 {
            return Err(refusal);
        }
        proof {
            crate::dns::lemma_response_wf(self@, lay, question_end as int, address, ttl);
        }
        let out = respond(&mut self.buffer, &lay, question_end, address, ttl);
        self.layout = out;
        Ok(())
    }
}

impl Context {
    /// Whether the datagram can be cut off at `end`: not behind its end,
    /// and not inside its headers.
    pub open spec fn can_end_at(&self, end: int) -> bool {
        self.spec_layout().l4 + self.spec_layout().min_l4_len() <= end <= self.spec_layout().end
    }

    /// Whether the datagram can grow by `n` bytes without its length
    /// leaving the 16 bits of the length field.
    pub open spec fn can_grow_by(&self, n: int) -> bool {
        self.spec_layout().end + n <= ETH_LEN + 0xFFFF
    }
}

} // verus!
