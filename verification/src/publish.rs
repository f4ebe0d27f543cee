use vstd::prelude::*;

use crate::qos::{min_qos, spec_min_qos, QualityOfService};

verus! {

/// Mathematical value of a [`PublishMessage`].
pub ghost struct SpecPublishMessage {
    pub topic_name: Seq<char>,
    pub payload: Seq<u8>,
    pub qos: QualityOfService,
    pub retain: bool,
    pub dup: bool,
}

/// An application message as the broker carries it: created from an inbound
/// PUBLISH, from a matched retained entry, or from a will. Immutable except
/// for `dup`, which is set when the message is re-sent.
#[derive(Debug, PartialEq)]
pub struct PublishMessage {
    pub topic_name: String,
    pub payload: Vec<u8>,
    pub qos: QualityOfService,
    pub retain: bool,
    pub dup: bool,
}

impl View for PublishMessage {
    type V = SpecPublishMessage;

    open spec fn view(&self) -> SpecPublishMessage {
        SpecPublishMessage {
            topic_name: self.topic_name@,
            payload: self.payload@,
            qos: self.qos,
            retain: self.retain,
            dup: self.dup,
        }
    }
}

impl DeepView for PublishMessage {
    type V = SpecPublishMessage;

    open spec fn deep_view(&self) -> SpecPublishMessage {
        self.view()
    }
}

impl Clone for PublishMessage {
    fn clone(&self) -> (r: Self)
        ensures
            r@ == self@,
    {
        let payload = self.payload.clone();
        proof {
            assert(payload@ =~= self.payload@);
        }
        PublishMessage {
            topic_name: self.topic_name.clone(),
            payload,
            qos: self.qos,
            retain: self.retain,
            dup: self.dup,
        }
    }
}

impl PublishMessage {
    pub fn new(
        topic_name: String,
        payload: Vec<u8>,
        qos: QualityOfService,
        retain: bool,
        dup: bool,
    ) -> (r: PublishMessage)
        ensures
            r.topic_name == topic_name,
            r.payload == payload,
            r.qos == qos,
            r.retain == retain,
            r.dup == dup,
    {
        PublishMessage { topic_name, payload, qos, retain, dup }
    }

    pub fn topic_name(&self) -> (r: &String)
        ensures
            r == &self.topic_name,
    {
        &self.topic_name
    }

    pub fn payload(&self) -> (r: &Vec<u8>)
        ensures
            r == &self.payload,
    {
        &self.payload
    }

    pub fn qos(&self) -> (r: QualityOfService)
        ensures
            r == self.qos,
    {
        self.qos
    }

    pub fn dup(&self) -> (r: bool)
        ensures
            r == self.dup,
    {
        self.dup
    }

    pub fn set_dup(&mut self)
        ensures
            *final(self) == (PublishMessage { dup: true, ..*old(self) }),
    {
        self.dup = true
    }

    pub fn retain(&self) -> (r: bool)
        ensures
            r == self.retain,
    {
        self.retain
    }
}

/// An outgoing publish awaiting its acknowledgement handshake.
/// `pubrec_at` is set on PUBREC receipt (quality of service 2);
/// `pubcomp_at` is set on PUBCOMP receipt, or directly on PUBACK receipt
/// for quality of service 1. The entry may be purged once `pubcomp_at`
/// is set or its time-to-live has elapsed.
#[derive(Debug)]
pub struct OutgoingPublishPacket {
    pub packet_id: u16,
    pub subscribe_qos: QualityOfService,
    pub message: PublishMessage,
    pub added_at: u64,
    pub pubrec_at: Option<u64>,
    pub pubcomp_at: Option<u64>,
}

/// Mathematical value of an [`OutgoingPublishPacket`].
pub ghost struct SpecOutgoingPublishPacket {
    pub packet_id: u16,
    pub subscribe_qos: QualityOfService,
    pub message: SpecPublishMessage,
    pub added_at: u64,
    pub pubrec_at: Option<u64>,
    pub pubcomp_at: Option<u64>,
}

impl View for OutgoingPublishPacket {
    type V = SpecOutgoingPublishPacket;

    open spec fn view(&self) -> SpecOutgoingPublishPacket {
        SpecOutgoingPublishPacket {
            packet_id: self.packet_id,
            subscribe_qos: self.subscribe_qos,
            message: self.message@,
            added_at: self.added_at,
            pubrec_at: self.pubrec_at,
            pubcomp_at: self.pubcomp_at,
        }
    }
}

impl DeepView for OutgoingPublishPacket {
    type V = SpecOutgoingPublishPacket;

    open spec fn deep_view(&self) -> SpecOutgoingPublishPacket {
        self.view()
    }
}

impl Clone for OutgoingPublishPacket {
    fn clone(&self) -> (r: Self)
        ensures
            r@ == self@,
    {
        OutgoingPublishPacket {
            packet_id: self.packet_id,
            subscribe_qos: self.subscribe_qos,
            message: self.message.clone(),
            added_at: self.added_at,
            pubrec_at: self.pubrec_at,
            pubcomp_at: self.pubcomp_at,
        }
    }
}

impl OutgoingPublishPacket {
    pub fn new(
        packet_id: u16,
        subscribe_qos: QualityOfService,
        message: PublishMessage,
        now: u64,
    ) -> (r: OutgoingPublishPacket)
        ensures
            r == (OutgoingPublishPacket {
                packet_id,
                subscribe_qos,
                message,
                added_at: now,
                pubrec_at: None,
                pubcomp_at: None,
            }),
    {
        OutgoingPublishPacket {
            packet_id,
            subscribe_qos,
            message,
            added_at: now,
            pubrec_at: None,
            pubcomp_at: None,
        }
    }

    pub fn packet_id(&self) -> (r: u16)
        ensures
            r == self.packet_id,
    {
        self.packet_id
    }

    pub fn message(&self) -> (r: &PublishMessage)
        ensures
            r == &self.message,
    {
        &self.message
    }

    pub fn get_mut_message(&mut self) -> (r: &mut PublishMessage)
        ensures
            *r == old(self).message,
            *final(self) == (OutgoingPublishPacket { message: *final(r), ..*old(self) }),
    {
        &mut self.message
    }

    pub fn subscribe_qos(&self) -> (r: QualityOfService)
        ensures
            r == self.subscribe_qos,
    {
        self.subscribe_qos
    }

    /// The level the message is actually delivered at: the lower of the
    /// subscription's granted level and the message's own level.
    pub open spec fn spec_final_qos(self) -> QualityOfService {
        spec_min_qos(self.subscribe_qos, self.message.qos)
    }

    pub fn final_qos(&self) -> (r: QualityOfService)
        ensures
            r == self.spec_final_qos(),
    {
        min_qos(self.subscribe_qos, self.message.qos)
    }

    pub fn added_at(&self) -> (r: u64)
        ensures
            r == self.added_at,
    {
        self.added_at
    }

    pub fn pubrec_at(&self) -> (r: Option<u64>)
        ensures
            r == self.pubrec_at,
    {
        self.pubrec_at
    }

    pub fn renew_pubrec_at(&mut self, now: u64)
        ensures
            *final(self) == (OutgoingPublishPacket { pubrec_at: Some(now), ..*old(self) }),
    {
        self.pubrec_at = Some(now)
    }

    pub fn pubcomp_at(&self) -> (r: Option<u64>)
        ensures
            r == self.pubcomp_at,
    {
        self.pubcomp_at
    }

    pub fn renew_pubcomp_at(&mut self, now: u64)
        ensures
            *final(self) == (OutgoingPublishPacket { pubcomp_at: Some(now), ..*old(self) }),
    {
        self.pubcomp_at = Some(now)
    }
}

/// An inbound quality-of-service-2 publish held between PUBLISH and PUBREL
/// for receiver-side deduplication. `deliver_at` is set when the PUBREL
/// arrives and the message is fanned out; a later clean pass purges it.
#[derive(Debug)]
pub struct IncomingPublishPacket {
    pub message: PublishMessage,
    pub packet_id: u16,
    pub receive_at: u64,
    pub deliver_at: Option<u64>,
}

/// Mathematical value of an [`IncomingPublishPacket`].
pub ghost struct SpecIncomingPublishPacket {
    pub message: SpecPublishMessage,
    pub packet_id: u16,
    pub receive_at: u64,
    pub deliver_at: Option<u64>,
}

impl View for IncomingPublishPacket {
    type V = SpecIncomingPublishPacket;

    open spec fn view(&self) -> SpecIncomingPublishPacket {
        SpecIncomingPublishPacket {
            message: self.message@,
            packet_id: self.packet_id,
            receive_at: self.receive_at,
            deliver_at: self.deliver_at,
        }
    }
}

impl DeepView for IncomingPublishPacket {
    type V = SpecIncomingPublishPacket;

    open spec fn deep_view(&self) -> SpecIncomingPublishPacket {
        self.view()
    }
}

impl Clone for IncomingPublishPacket {
    fn clone(&self) -> (r: Self)
        ensures
            r@ == self@,
    {
        IncomingPublishPacket {
            message: self.message.clone(),
            packet_id: self.packet_id,
            receive_at: self.receive_at,
            deliver_at: self.deliver_at,
        }
    }
}

impl IncomingPublishPacket {
    pub fn new(packet_id: u16, message: PublishMessage, now: u64) -> (r: IncomingPublishPacket)
        ensures
            r == (IncomingPublishPacket {
                message,
                packet_id,
                receive_at: now,
                deliver_at: None,
            }),
    {
        IncomingPublishPacket { message, packet_id, receive_at: now, deliver_at: None }
    }

    pub fn message(&self) -> (r: &PublishMessage)
        ensures
            r == &self.message,
    {
        &self.message
    }

    pub fn packet_id(&self) -> (r: u16)
        ensures
            r == self.packet_id,
    {
        self.packet_id
    }

    pub fn receive_at(&self) -> (r: u64)
        ensures
            r == self.receive_at,
    {
        self.receive_at
    }

    pub fn deliver_at(&self) -> (r: Option<u64>)
        ensures
            r == self.deliver_at,
    {
        self.deliver_at
    }

    pub fn renew_deliver_at(&mut self, now: u64)
        ensures
            *final(self) == (IncomingPublishPacket { deliver_at: Some(now), ..*old(self) }),
    {
        self.deliver_at = Some(now)
    }
}

/// Unix timestamp as seconds: what the store and the keep-alive
/// watchdog stamp entries and liveness with.
pub fn get_unix_ts() -> u64 {
    unix_ts_now()
}

/// Relies on std::time::SystemTime::now and duration_since: seconds since
/// the Unix epoch. The result depends on the clock, so nothing is promised
/// of it; a clock set before the epoch yields 0.
#[verifier::external_body]
fn unix_ts_now() -> u64 {
    match std::time::SystemTime::now().duration_since(std::time::SystemTime::UNIX_EPOCH) {
        Ok(n) => n.as_secs(),
        Err(_) => 0,
    }
}

} // verus!
