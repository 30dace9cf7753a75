//! Forwarding the peer port on the router, by UPnP.

use vstd::prelude::*;
use vstd::string::*;

verus! {

/// How long the search for a gateway may take.
pub const SEARCH_TIMEOUT_SECS: u64 = 3;

/// How long a port mapping lasts.
pub const LEASE_SECS: u32 = 3600;

/// The transport protocol of a port mapping.
#[derive(Clone, Copy, Debug, PartialEq, Eq, Structural)]
pub enum Protocol {
    Tcp,
}

/// A port mapping to ask the gateway for.
#[derive(Debug)]
pub struct PortMapping {
    pub protocol: Protocol,
    pub external_port: u16,
    pub local_ip: [u8; 4],
    pub local_port: u16,
    pub lease_secs: u32,
    pub description: String,
}

/// What a [`PortMapping`] says.
pub struct MappingView {
    pub protocol: Protocol,
    pub external_port: u16,
    pub local_ip: Seq<u8>,
    pub local_port: u16,
    pub lease_secs: u32,
    pub description: Seq<char>,
}

impl View for PortMapping {
    type V = MappingView;

    open spec fn view(&self) -> MappingView {
        MappingView {
            protocol: self.protocol,
            external_port: self.external_port,
            local_ip: self.local_ip@,
            local_port: self.local_port,
            lease_secs: self.lease_secs,
            description: self.description@,
        }
    }
}

/// The mapping that forwards `port`: TCP, to the same port on any local address.
pub open spec fn seeder_mapping(port: u16) -> MappingView {
    MappingView {
        protocol: Protocol::Tcp,
        external_port: port,
        local_ip: seq![0u8, 0u8, 0u8, 0u8],
        local_port: port,
        lease_secs: LEASE_SECS,
        description: "cdn-seeder"@,
    }
}

/// What came of the last step.
#[derive(Clone, Copy, Debug, PartialEq, Eq, Structural)]
pub enum UpnpReply {
    /// The search found a gateway.
    GatewayFound,
    /// The search failed.
    NoGateway,
    /// The gateway told its external address.
    ExternalIpKnown,
    /// The gateway did not tell its external address.
    ExternalIpUnknown,
    /// The gateway added the mapping.
    PortAdded,
    /// The gateway refused the mapping.
    PortRefused,
}

/// What is to be done next.
#[derive(Debug)]
pub enum UpnpStep {
    /// Search for a gateway.
    SearchGateway { timeout_secs: u64 },
    /// Ask the gateway for its external address.
    GetExternalIp,
    /// Ask the gateway for a port mapping.
    AddPort(PortMapping),
    /// Nothing: the external port is known, or there is none.
    Finish(Option<u16>),
}

/// What an [`UpnpStep`] asks for.
pub enum UpnpStepView {
    SearchGateway { timeout_secs: u64 },
    GetExternalIp,
    AddPort(MappingView),
    Finish(Option<u16>),
}

impl View for UpnpStep {
    type V = UpnpStepView;

    open spec fn view(&self) -> UpnpStepView {
        match self {
            UpnpStep::SearchGateway { timeout_secs } => UpnpStepView::SearchGateway {
                timeout_secs: *timeout_secs,
            },
            UpnpStep::GetExternalIp => UpnpStepView::GetExternalIp,
            UpnpStep::AddPort(mapping) => UpnpStepView::AddPort(mapping@),
            UpnpStep::Finish(port) => UpnpStepView::Finish(*port),
        }
    }
}

/// How far the forwarding has come.
#[derive(Clone, Copy, Debug, PartialEq, Eq, Structural)]
pub enum UpnpStage {
    Searching,
    AskingForIp,
    AddingPort,
    Finished,
}

/// The forwarding of one port.
#[derive(Clone, Copy, Debug, PartialEq, Eq, Structural)]
pub struct UpnpForward {
    pub port: u16,
    pub stage: UpnpStage,
}

impl UpnpForward {
    /// Whether `reply` answers what the forwarding is waiting for.
    pub open spec fn expects(self, reply: UpnpReply) -> bool {
        match self.stage {
            UpnpStage::Searching => reply is GatewayFound || reply is NoGateway,
            UpnpStage::AskingForIp => reply is ExternalIpKnown || reply is ExternalIpUnknown,
            UpnpStage::AddingPort => reply is PortAdded || reply is PortRefused,
            UpnpStage::Finished => false,
        }
    }

    /// The forwarding after `reply`, and what it asks for.
    pub open spec fn next(self, reply: UpnpReply) -> (UpnpForward, UpnpStepView)
        recommends
            self.expects(reply),
    {
        match reply {
            UpnpReply::GatewayFound => (
                UpnpForward { stage: UpnpStage::AskingForIp, ..self },
                UpnpStepView::GetExternalIp,
            ),
            UpnpReply::ExternalIpKnown | UpnpReply::ExternalIpUnknown => (
                UpnpForward { stage: UpnpStage::AddingPort, ..self },
                UpnpStepView::AddPort(seeder_mapping(self.port)),
            ),
            UpnpReply::PortAdded => (
                UpnpForward { stage: UpnpStage::Finished, ..self },
                UpnpStepView::Finish(Some(self.port)),
            ),
            UpnpReply::NoGateway | UpnpReply::PortRefused => (
                UpnpForward { stage: UpnpStage::Finished, ..self },
                UpnpStepView::Finish(None),
            ),
        }
    }

    /// Takes the forwarding one step further.
    pub fn step(&mut self, reply: UpnpReply) -> (step: UpnpStep)
        requires
            old(self).expects(reply),
        ensures
            (*final(self), step@) == old(self).next(reply),
            final(self).port == old(self).port,
            step matches UpnpStep::AddPort(mapping) ==> {
                &&& mapping.protocol == Protocol::Tcp
                &&& mapping.external_port == old(self).port
                &&& mapping.local_ip@ == seq![0u8, 0u8, 0u8, 0u8]
                &&& mapping.local_port == old(self).port
                &&& mapping.lease_secs == 3600
                &&& mapping.description@ == "cdn-seeder"@
            },
            step matches UpnpStep::Finish(external) ==> external == (if reply is PortAdded {
                Some(old(self).port)
            } else {
                None
            }),
    {
        match reply {
            UpnpReply::GatewayFound => {
                self.stage = UpnpStage::AskingForIp;
                UpnpStep::GetExternalIp
            },
            UpnpReply::ExternalIpKnown | UpnpReply::ExternalIpUnknown => {
                self.stage = UpnpStage::AddingPort;
                let mapping = PortMapping {
                    protocol: Protocol::Tcp,
                    external_port: self.port,
                    local_ip: [0u8, 0u8, 0u8, 0u8],
                    local_port: self.port,
                    lease_secs: LEASE_SECS,
                    description: String::from_str("cdn-seeder"),
                };
                assert(mapping.local_ip@ =~= seq![0u8, 0u8, 0u8, 0u8]);
                UpnpStep::AddPort(mapping)
            },
            UpnpReply::PortAdded => {
                self.stage = UpnpStage::Finished;
                UpnpStep::Finish(Some(self.port))
            },
            UpnpReply::NoGateway | UpnpReply::PortRefused => {
                self.stage = UpnpStage::Finished;
                UpnpStep::Finish(None)
            },
        }
    }
}

/// The state in which the forwarding of `port` starts.
pub open spec fn upnp_start(port: u16) -> UpnpForward {
    UpnpForward { port, stage: UpnpStage::Searching }
}

/// Forwards `port` on the router: the forwarding, and its first step.
pub fn upnp_forward(port: u16) -> (started: (UpnpForward, UpnpStep))
    ensures
        started.0 == upnp_start(port),
        started.1@ == (UpnpStepView::SearchGateway { timeout_secs: SEARCH_TIMEOUT_SECS }),
        started.0.port == port,
        started.1 matches UpnpStep::SearchGateway { timeout_secs } && timeout_secs == 3,
{
    (
        UpnpForward { port, stage: UpnpStage::Searching },
        UpnpStep::SearchGateway { timeout_secs: SEARCH_TIMEOUT_SECS },
    )
}

/// Whether each of `replies` answers what the forwarding waits for when it comes.
pub open spec fn upnp_answers(forward: UpnpForward, replies: Seq<UpnpReply>) -> bool
    decreases replies.len(),
{
    replies.len() > 0 ==> {
        &&& forward.expects(replies.first())
        &&& upnp_answers(forward.next(replies.first()).0, replies.drop_first())
    }
}

/// What the forwarding asks for in answer to the last of `replies`.
pub open spec fn upnp_last_step(forward: UpnpForward, replies: Seq<UpnpReply>) -> UpnpStepView
    recommends
        replies.len() > 0,
    decreases replies.len(),
{
    let (next, step) = forward.next(replies.first());
    if replies.len() <= 1 {
        step
    } else {
        upnp_last_step(next, replies.drop_first())
    }
}

/// A forwarding takes at most three replies. It ends with an external port exactly where a
/// gateway was found and added the mapping, whether or not it told its address; that port is
/// the one to be forwarded. It ends without one exactly where the search failed or the gateway
/// refused.
pub proof fn law_upnp_result(port: u16, replies: Seq<UpnpReply>)
    requires
        replies.len() > 0,
        upnp_answers(upnp_start(port), replies),
    ensures
        replies.len() <= 3,
        replies.last() is PortAdded <==> upnp_last_step(upnp_start(port), replies)
            == UpnpStepView::Finish(Some(port)),
        replies.last() is NoGateway || replies.last() is PortRefused <==> upnp_last_step(
            upnp_start(port),
            replies,
        ) == UpnpStepView::Finish(None),
        upnp_last_step(upnp_start(port), replies) matches UpnpStepView::Finish(Some(external))
            ==> external == port && replies.first() is GatewayFound,
        upnp_last_step(upnp_start(port), replies) matches UpnpStepView::AddPort(mapping)
            ==> mapping == seeder_mapping(port),
{
    reveal_with_fuel(upnp_answers, 5);
    reveal_with_fuel(upnp_last_step, 4);
    if replies.len() >= 2 {
        assert(replies.drop_first().first() == replies[1]);
    }
    if replies.len() >= 3 {
        assert(replies.drop_first().drop_first().first() == replies[2]);
    }
    if replies.len() >= 4 {
        assert(replies.drop_first().drop_first().drop_first().len() > 0);
    }
}

/// The one mapping that a forwarding asks the gateway for forwards the very port: TCP, from that
/// port on the outside to that port on any local address, for an hour. Where the forwarding ends
/// with an external port, it is the external port of that mapping, and where the mapping is
/// refused, there is none. Whether or not the gateway tells its address makes no difference.
pub proof fn law_upnp_forwards_the_port(port: u16, address_known: bool)
    ensures
        ({
            let start = upnp_start(port);
            let (found, first) = start.next(UpnpReply::GatewayFound);
            let address = if address_known {
                UpnpReply::ExternalIpKnown
            } else {
                UpnpReply::ExternalIpUnknown
            };
            let (asked, second) = found.next(address);
            &&& start.expects(UpnpReply::GatewayFound) && start.expects(UpnpReply::NoGateway)
            &&& start.next(UpnpReply::NoGateway).1 == UpnpStepView::Finish(None)
            &&& first == UpnpStepView::GetExternalIp
            &&& found.expects(address)
            &&& second matches UpnpStepView::AddPort(mapping)
            &&& mapping.protocol == Protocol::Tcp
            &&& mapping.external_port == port
            &&& mapping.local_ip == seq![0u8, 0u8, 0u8, 0u8]
            &&& mapping.local_port == port
            &&& mapping.lease_secs == 3600
            &&& mapping.description == "cdn-seeder"@
            &&& asked.expects(UpnpReply::PortAdded) && asked.expects(UpnpReply::PortRefused)
            &&& asked.next(UpnpReply::PortAdded).1 == UpnpStepView::Finish(
                Some(mapping.external_port),
            )
            &&& asked.next(UpnpReply::PortRefused).1 == UpnpStepView::Finish(None)
        }),
{
}

/// No step of a forwarding changes the port that is forwarded, and every mapping that any step
/// asks for is one of that port.
pub proof fn law_upnp_keeps_the_port(forward: UpnpForward, reply: UpnpReply)
    ensures
        forward.next(reply).0.port == forward.port,
        forward.next(reply).1 matches UpnpStepView::AddPort(mapping) ==> mapping.external_port
            == forward.port && mapping.local_port == forward.port,
        forward.next(reply).1 matches UpnpStepView::Finish(Some(external)) ==> external
            == forward.port && reply is PortAdded,
{
}

} // verus!
