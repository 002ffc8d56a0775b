use vstd::prelude::*;

use crate::error::Error;
use crate::socks5::target::{spec_encode, target_wf, Socks5Target, TargetView};

verus! {

/// Where the handshake stands: greeting, then the request, then
/// either a full command or a terminal protocol fault.
#[derive(Copy, Clone, Debug, PartialEq, Eq, Structural)]
pub enum AcceptorStage {
    Greeting,
    Request,
    Done,
    Failed,
}

/// The acceptor's mathematical shape: its stage, the input octets
/// not yet consumed, and the peer it serves.
#[verifier::ext_equal]
pub struct AcceptorView {
    pub stage: AcceptorStage,
    pub pending: Seq<u8>,
    pub peer: TargetView,
}

/// The SOCKS5 server handshake as a streaming parser: input arrives
/// in arbitrary chunks, and each feeding yields what the server must
/// do next. The surrounding connection performs the reads and writes.
pub struct Socks5Acceptor {
    stage: AcceptorStage,
    buf: Vec<u8>,
    peer: Socks5Target,
}

impl View for Socks5Acceptor {
    type V = AcceptorView;

    closed spec fn view(&self) -> AcceptorView {
        AcceptorView { stage: self.stage, pending: self.buf@, peer: self.peer@ }
    }
}

/// What one feeding tells the connection to do.
pub enum Socks5Event {
    /// Keep reading: no full record has arrived yet.
    NeedMore,
    /// The greeting was accepted: write these octets and read on.
    Reply(Vec<u8>),
    /// A full request arrived: its command and its target record.
    Command { command: u8, target: Vec<u8> },
    /// The peer broke the protocol: write these octets, which may be
    /// none, and close.
    Refused { reply: Vec<u8>, error: Error },
}

/// The event at the specification level.
pub enum EventView {
    NeedMore,
    Reply(Seq<u8>),
    Command { command: u8, target: Seq<u8> },
    Refused { reply: Seq<u8>, error: Error },
}

/// One step's outcome: the next stage, what stays pending, and the
/// event handed out.
#[verifier::ext_equal]
pub struct StepView {
    pub stage: AcceptorStage,
    pub pending: Seq<u8>,
    pub event: EventView,
}

/// The event value realises the specified event.
pub open spec fn event_matches(ev: Socks5Event, v: EventView) -> bool {
    match v {
        EventView::NeedMore => ev is NeedMore,
        EventView::Reply(d) => ev matches Socks5Event::Reply(dd) && dd@ == d,
        EventView::Command { command, target } => ev matches Socks5Event::Command {
            command: c,
            target: t,
        } && c == command && t@ == target,
        EventView::Refused { reply, error } => ev matches Socks5Event::Refused {
            reply: r,
            error: e,
        } && r@ == reply && e == error,
    }
}

/// The greeting's record size, once its two leading octets are in:
/// version, method count, then that many methods.
pub open spec fn greeting_size(b: Seq<u8>) -> int
    recommends
        b.len() >= 2,
{
    2 + b[1]
}

/// The greeting offers the no-authentication method.
pub open spec fn has_noauth(g: Seq<u8>) -> bool {
    exists|i: int| 2 <= i < g.len() && g[i] == 0u8
}

/// The target record's size announced by the address-type octet and,
/// for a domain, the length octet; negative for an unknown type.
pub open spec fn record_len_of(atyp: u8, len_byte: u8) -> int {
    if atyp == 1 {
        7
    } else if atyp == 4 {
        19
    } else if atyp == 3 {
        4 + len_byte
    } else {
        -1
    }
}

/// What feeding does while the greeting is awaited. A short buffer
/// waits; a wrong version closes without a reply; a greeting without
/// the no-authentication method is answered 05 FF and closed; an
/// acceptable greeting is answered 05 00, and the octets beyond it
/// stay pending for the request.
pub open spec fn spec_greet_step(all: Seq<u8>) -> StepView {
    if all.len() < 2 || all.len() < greeting_size(all) {
        StepView { stage: AcceptorStage::Greeting, pending: all, event: EventView::NeedMore }
    } else {
        let g = all.take(greeting_size(all));
        let rest = all.skip(greeting_size(all));
        if g[0] != 5 {
            StepView {
                stage: AcceptorStage::Failed,
                pending: all,
                event: EventView::Refused {
                    reply: Seq::empty(),
                    error: Error::ProtocolError,
                },
            }
        } else if !has_noauth(g) {
            StepView {
                stage: AcceptorStage::Failed,
                pending: all,
                event: EventView::Refused {
                    reply: seq![5u8, 0xffu8],
                    error: Error::UnsupportedAuthMethod,
                },
            }
        } else {
            StepView {
                stage: AcceptorStage::Request,
                pending: rest,
                event: EventView::Reply(seq![5u8, 0u8]),
            }
        }
    }
}

/// What feeding does while the request is awaited. A short buffer
/// waits; a wrong version or reserved octet closes without a reply;
/// an unknown address type is answered 05 08; a command other than
/// CONNECT or UDP ASSOCIATE is answered 05 07, both closing; a full
/// valid request hands out the command and the target record.
pub open spec fn spec_request_step(all: Seq<u8>) -> StepView {
    if all.len() < 5 {
        StepView { stage: AcceptorStage::Request, pending: all, event: EventView::NeedMore }
    } else if all[0] != 5 || all[2] != 0 {
        StepView {
            stage: AcceptorStage::Failed,
            pending: all,
            event: EventView::Refused { reply: Seq::empty(), error: Error::ProtocolError },
        }
    } else if record_len_of(all[3], all[4]) < 0 {
        StepView {
            stage: AcceptorStage::Failed,
            pending: all,
            event: EventView::Refused {
                reply: seq![5u8, 8u8],
                error: Error::UnsupportedAddressType,
            },
        }
    } else {
        let total = 3 + record_len_of(all[3], all[4]);
        if all.len() < total {
            StepView { stage: AcceptorStage::Request, pending: all, event: EventView::NeedMore }
        } else if all[1] != 1 && all[1] != 3 {
            StepView {
                stage: AcceptorStage::Failed,
                pending: all,
                event: EventView::Refused {
                    reply: seq![5u8, 7u8],
                    error: Error::UnsupportedCommand,
                },
            }
        } else {
            StepView {
                stage: AcceptorStage::Done,
                pending: all.skip(total),
                event: EventView::Command { command: all[1], target: all.subrange(3, total) },
            }
        }
    }
}

/// The step the machine takes on its pending input at each stage.
pub open spec fn spec_step(stage: AcceptorStage, all: Seq<u8>) -> StepView {
    if stage == AcceptorStage::Greeting {
        spec_greet_step(all)
    } else {
        spec_request_step(all)
    }
}

/// Copies the tail of a vector from `n` on.
fn vec_skip(v: &Vec<u8>, n: usize) -> (r: Vec<u8>)
    requires
        n <= v@.len(),
    ensures
        r@ == v@.skip(n as int),
{
    let s = vstd::slice::slice_subrange(v.as_slice(), n, v.len());
    proof {
        assert(s@ =~= v@.skip(n as int));
    }
    vstd::slice::slice_to_vec(s)
}

/// Copies `[a, b)` of a vector.
fn vec_slice(v: &Vec<u8>, a: usize, b: usize) -> (r: Vec<u8>)
    requires
        a <= b <= v@.len(),
    ensures
        r@ == v@.subrange(a as int, b as int),
{
    vstd::slice::slice_to_vec(vstd::slice::slice_subrange(v.as_slice(), a, b))
}

impl Socks5Acceptor {
    /// A fresh acceptor for a connection from `peer`.
    pub fn new(peer: Socks5Target) -> (a: Socks5Acceptor)
        ensures
            a@.stage == AcceptorStage::Greeting,
            a@.pending == Seq::<u8>::empty(),
            a@.peer == peer@,
    {
        Socks5Acceptor { stage: AcceptorStage::Greeting, buf: Vec::with_capacity(64), peer }
    }

    /// The peer this acceptor serves, for logging.
    pub fn peer_addr(&self) -> (p: &Socks5Target)
        ensures
            p@ == self@.peer,
    {
        &self.peer
    }

    /// Whether a full request has been accepted.
    pub fn finished(&self) -> (r: bool)
        ensures
            r == (self@.stage == AcceptorStage::Done),
    {
        self.stage == AcceptorStage::Done
    }

    /// Feeds freshly read octets to the machine and takes one step.
    /// The chunk may cut records anywhere; octets past the record
    /// consumed stay pending. Feeding nothing retries the step on
    /// what is already pending.
    pub fn feed(&mut self, chunk: &[u8]) -> (ev: Socks5Event)
        requires
            old(self)@.stage == AcceptorStage::Greeting || old(self)@.stage
                == AcceptorStage::Request,
            old(self)@.pending.len() + chunk@.len() <= usize::MAX,
        ensures
            ({
                let st = spec_step(old(self)@.stage, old(self)@.pending + chunk@);
                &&& final(self)@.stage == st.stage
                &&& final(self)@.pending == st.pending
                &&& final(self)@.peer == old(self)@.peer
                &&& event_matches(ev, st.event)
            }),
    {
        self.buf.extend_from_slice(chunk);
        proof {
            assert(self.buf@ == old(self)@.pending + chunk@);
        }
        if self.stage == AcceptorStage::Greeting {
            self.greet_step()
        } else {
            self.request_step()
        }
    }

    /// Takes the greeting step on the pending octets.
    fn greet_step(&mut self) -> (ev: Socks5Event)
        requires
            old(self)@.stage == AcceptorStage::Greeting,
        ensures
            ({
                let st = spec_greet_step(old(self)@.pending);
                &&& final(self)@.stage == st.stage
                &&& final(self)@.pending == st.pending
                &&& final(self)@.peer == old(self)@.peer
                &&& event_matches(ev, st.event)
            }),
    {
        let ghost all = self.buf@;
        if self.buf.len() < 2 {
            return Socks5Event::NeedMore;
        }
        let glen = 2 + self.buf[1] as usize;
        if self.buf.len() < glen {
            return Socks5Event::NeedMore;
        }
        let ghost g = all.take(glen as int);
        if self.buf[0] != 5 {
            self.stage = AcceptorStage::Failed;
            return Socks5Event::Refused { reply: Vec::new(), error: Error::ProtocolError };
        }
        let mut found = false;
        let mut i: usize = 2;
        while i < glen
            invariant
                2 <= i <= glen <= all.len(),
                self@.pending == all,
                g == all.take(glen as int),
                found == exists|k: int| 2 <= k < i && all[k] == 0u8,
            decreases glen - i,
        {
            if self.buf[i] == 0 {
                proof {
                    assert(all[i as int] == 0u8);
                }
                found = true;
            }
            i = i + 1;
        }
        proof {
            assert forall|k: int| 2 <= k < glen implies g[k] == all[k] by {}
            if has_noauth(g) {
                let w = choose|k: int| 2 <= k < g.len() && g[k] == 0u8;
                assert(all[w] == 0u8);
            }
            if exists|k: int| 2 <= k < glen && all[k] == 0u8 {
                let w = choose|k: int| 2 <= k < glen && all[k] == 0u8;
                assert(g[w] == 0u8);
            }
            assert(found == has_noauth(g));
        }
        if !found {
            self.stage = AcceptorStage::Failed;
            let mut reply: Vec<u8> = Vec::new();
            reply.push(5);
            reply.push(0xff);
            proof {
                assert(reply@ =~= seq![5u8, 0xffu8]);
            }
            return Socks5Event::Refused { reply, error: Error::UnsupportedAuthMethod };
        }
        let rest = vec_skip(&self.buf, glen);
        self.buf = rest;
        self.stage = AcceptorStage::Request;
        let mut reply: Vec<u8> = Vec::new();
        reply.push(5);
        reply.push(0);
        proof {
            assert(reply@ =~= seq![5u8, 0u8]);
        }
        Socks5Event::Reply(reply)
    }

    /// Takes the request step on the pending octets.
    fn request_step(&mut self) -> (ev: Socks5Event)
        requires
            old(self)@.stage == AcceptorStage::Request,
        ensures
            ({
                let st = spec_request_step(old(self)@.pending);
                &&& final(self)@.stage == st.stage
                &&& final(self)@.pending == st.pending
                &&& final(self)@.peer == old(self)@.peer
                &&& event_matches(ev, st.event)
            }),
    {
        let ghost all = self.buf@;
        if self.buf.len() < 5 {
            return Socks5Event::NeedMore;
        }
        if self.buf[0] != 5 || self.buf[2] != 0 {
            self.stage = AcceptorStage::Failed;
            return Socks5Event::Refused { reply: Vec::new(), error: Error::ProtocolError };
        }
        let atyp = self.buf[3];
        if atyp != 1 && atyp != 4 && atyp != 3 {
            self.stage = AcceptorStage::Failed;
            let mut reply: Vec<u8> = Vec::new();
            reply.push(5);
            reply.push(8);
            proof {
                assert(reply@ =~= seq![5u8, 8u8]);
            }
            return Socks5Event::Refused { reply, error: Error::UnsupportedAddressType };
        }
        let rl: usize = if atyp == 1 {
            7
        } else if atyp == 4 {
            19
        } else {
            4 + self.buf[4] as usize
        };
        let total = 3 + rl;
        if self.buf.len() < total {
            return Socks5Event::NeedMore;
        }
        let cmd = self.buf[1];
        if cmd != 1 && cmd != 3 {
            self.stage = AcceptorStage::Failed;
            let mut reply: Vec<u8> = Vec::new();
            reply.push(5);
            reply.push(7);
            proof {
                assert(reply@ =~= seq![5u8, 7u8]);
            }
            return Socks5Event::Refused { reply, error: Error::UnsupportedCommand };
        }
        let target = vec_slice(&self.buf, 3, total);
        let rest = vec_skip(&self.buf, total);
        self.buf = rest;
        self.stage = AcceptorStage::Done;
        Socks5Event::Command { command: cmd, target }
    }
}

/// The CONNECT success reply: code zero and an all-zero bind address,
/// which clients ignore.
pub fn connect_ok_reply() -> (r: Vec<u8>)
    ensures
        r@ == seq![5u8, 0u8, 0u8, 1u8, 0u8, 0u8, 0u8, 0u8, 0u8, 0u8],
{
    let mut v: Vec<u8> = Vec::new();
    v.push(5);
    v.push(0);
    v.push(0);
    v.push(1);
    v.push(0);
    v.push(0);
    v.push(0);
    v.push(0);
    v.push(0);
    v.push(0);
    proof {
        assert(v@ =~= seq![5u8, 0u8, 0u8, 1u8, 0u8, 0u8, 0u8, 0u8, 0u8, 0u8]);
    }
    v
}

/// The reply when the upstream dial failed: general failure, echoing
/// the target record.
pub fn connect_fail_reply(target: &[u8]) -> (r: Vec<u8>)
    ensures
        r@ == seq![5u8, 1u8, 0u8] + target@,
{
    let mut v: Vec<u8> = Vec::new();
    v.push(5);
    v.push(1);
    v.push(0);
    v.extend_from_slice(target);
    proof {
        assert(v@ =~= seq![5u8, 1u8, 0u8] + target@);
    }
    v
}

/// The reply when the router refused the target: connection not
/// allowed by ruleset, echoing the target record.
pub fn reject_reply(target: &[u8]) -> (r: Vec<u8>)
    ensures
        r@ == seq![5u8, 2u8, 0u8] + target@,
{
    let mut v: Vec<u8> = Vec::new();
    v.push(5);
    v.push(2);
    v.push(0);
    v.extend_from_slice(target);
    proof {
        assert(v@ =~= seq![5u8, 2u8, 0u8] + target@);
    }
    v
}

/// The UDP ASSOCIATE success reply, carrying the freshly bound local
/// address for the client to send datagrams to.
pub fn udp_reply(bnd: &Socks5Target) -> (r: Vec<u8>)
    requires
        target_wf(bnd@),
    ensures
        r@ == seq![5u8, 0u8, 0u8] + spec_encode(bnd@),
{
    let mut v: Vec<u8> = Vec::new();
    v.push(5);
    v.push(0);
    v.push(0);
    let enc = bnd.encode();
    v.extend_from_slice(enc.as_slice());
    proof {
        assert(v@ =~= seq![5u8, 0u8, 0u8] + spec_encode(bnd@));
    }
    v
}

} // verus!
