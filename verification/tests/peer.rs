//! One device against a bare channel: what it makes of each message.
use base64::Engine;
use serde_json::Value;
use voice_keyboard_core::protocol::{Ack, Binding, Mode, Payload, Phase, Wire, VERSION};
use voice_keyboard_core::transport::{Channel, ChannelEvent, Identity};
use voice_keyboard_core::{generate_identity, Core};

const NOW: u64 = 1_000_000;
const WALL: u64 = 1_700_000_000_000;

struct Peer {
    core: Core,
    channel: Channel,
    id: String,
    heard: Vec<Payload>,
    events: Vec<Value>,
}

fn command(core: &mut Core, text: String) -> Result<Value, String> {
    match core.dispatch_at(text, NOW, WALL) {
        Ok(s) => Ok(serde_json::from_str(&s).unwrap()),
        Err(e) => Err(e.code().to_owned()),
    }
}

impl Peer {
    /// A peer with a channel to a device; the device has paired with it before, or not.
    fn new(paired: bool, may_start: bool) -> Peer {
        let me = Identity::generate().unwrap();
        let id = me.id().unwrap();
        let listed = format!("{{\"peer_id\":\"{id}\",\"name\":\"P\",\"allow_remote\":{may_start}}}");
        let config = format!(
            "{{\"identity\":{},\"name\":\"D\",\"journal_path\":\":memory:\",\"peers\":[{}]}}",
            generate_identity().unwrap(),
            if paired { listed } else { String::new() }
        );
        let mut core = Core::new(config).unwrap();
        command(&mut core, "{\"op\":\"open\",\"connection_id\":\"c\",\"initiator\":false}".to_owned()).unwrap();
        let key = me.private_bytes().unwrap();
        let (channel, first) = Channel::new(key.as_slice(), true, Some(core.device_id().unwrap()), NOW).unwrap();
        let mut peer = Peer { core, channel, id, heard: vec![], events: vec![] };
        for event in first {
            peer.pass(event);
        }
        peer
    }

    fn pass(&mut self, event: ChannelEvent) {
        match event {
            ChannelEvent::Write(bytes) => self.bytes(&bytes).unwrap(),
            ChannelEvent::Plain(bytes) => self.heard.push(Wire::decode(&bytes).unwrap().payload),
            ChannelEvent::Authenticated { .. } => {},
        }
    }

    /// Hands bytes to the device, and hears what it has to say.
    fn bytes(&mut self, bytes: &[u8]) -> Result<(), String> {
        let data = base64::engine::general_purpose::STANDARD.encode(bytes);
        let done = command(
            &mut self.core,
            format!("{{\"op\":\"bytes\",\"connection_id\":\"c\",\"data\":\"{data}\"}}"),
        );
        self.listen();
        done.map(|_| ())
    }

    fn listen(&mut self) {
        for event in self.core.poll_events().unwrap() {
            let e: Value = serde_json::from_str(&event).unwrap();
            if e["event"] == "socket_send" {
                let data = base64::engine::general_purpose::STANDARD.decode(e["data"].as_str().unwrap()).unwrap();
                for said in self.channel.receive(&data, NOW).unwrap() {
                    self.pass(said);
                }
            } else {
                self.events.push(e);
            }
        }
    }

    fn say(&mut self, wire: &Wire) -> Result<(), String> {
        let bytes = self.channel.encrypt(&wire.encode()).unwrap();
        self.bytes(&bytes)
    }

    fn tell(&mut self, payload: Payload) -> Result<(), String> {
        self.say(&Wire::new(payload))
    }

    fn any(&self, name: &str) -> bool {
        self.events.iter().any(|e| e["event"] == name)
    }

    /// A session in which the peer dictates into the device.
    fn binding(&self, session_id: u128) -> Binding {
        Binding {
            session_id,
            source_device_id: self.id.clone(),
            target_device_id: self.core.device_id().unwrap(),
            controller_device_id: self.id.clone(),
            input_mode: Mode::AppleLocal,
            context_token: String::new(),
            target_app: String::new(),
            created_ms: WALL,
        }
    }

    fn piece(&self, session_id: u128, sequence: u64, text: &str) -> Payload {
        Payload::TextChunk {
            session_id,
            sequence,
            context_token: uuid::Uuid::from_u128(7).to_string(),
            text: text.to_owned(),
            is_final: true,
        }
    }

    /// Such a session, with a place for the text.
    fn bound(&mut self) -> u128 {
        let id = uuid::Uuid::new_v4().as_u128();
        let binding = self.binding(id);
        self.tell(Payload::BindRequest { binding }).unwrap();
        assert!(self.any("bind_target"));
        let session = uuid::Uuid::from_u128(id);
        let token = uuid::Uuid::from_u128(7);
        command(
            &mut self.core,
            format!(
                "{{\"op\":\"bound\",\"session_id\":\"{session}\",\"context_token\":\"{token}\",\"target_app\":\"T\"}}"
            ),
        )
        .unwrap();
        self.listen();
        assert!(matches!(self.heard.last(), Some(Payload::SessionBound { .. })));
        self.tell(Payload::SessionReady { session_id: id }).unwrap();
        self.tell(Payload::SessionState { session_id: id, phase: Phase::Listening }).unwrap();
        id
    }

    fn injected(&self) -> Vec<(u64, String)> {
        self.events
            .iter()
            .filter(|e| e["event"] == "inject")
            .map(|e| (e["sequence"].as_u64().unwrap(), e["text"].as_str().unwrap().to_owned()))
            .collect()
    }

    fn on_device(&mut self, op: &str, id: u128, more: &str) -> Result<Value, String> {
        let session = uuid::Uuid::from_u128(id);
        let done = command(&mut self.core, format!("{{\"op\":\"{op}\",\"session_id\":\"{session}\"{more}}}"));
        self.listen();
        done
    }
}

#[test]
fn what_is_sent_is_heard() {
    let mut p = Peer::new(true, false);
    assert!(matches!(&p.heard[0], Payload::Hello { name, .. } if name == "D"));
    let id = p.id.clone();
    p.tell(Payload::Hello { device_id: id, name: "é: \"x\"".to_owned() }).unwrap();
    let told = p.events.iter().rev().find(|e| e["event"] == "peer").unwrap();
    assert_eq!(told["name"], "é: \"x\"");
}

#[test]
fn strangers_are_not_heard() {
    let mut p = Peer::new(false, false);
    let id = uuid::Uuid::new_v4().as_u128();
    let binding = p.binding(id);
    assert_eq!(p.tell(Payload::BindRequest { binding }).unwrap_err(), "unpaired_device");
    assert!(p.any("socket_close"));
    assert!(!p.any("bind_target"));
}

#[test]
fn a_stranger_can_ask_to_pair() {
    let mut p = Peer::new(false, false);
    p.tell(Payload::PairConfirm).unwrap();
    assert!(p.any("pair_requested"));
    assert!(!p.any("trust_changed"));
    let id = p.id.clone();
    command(&mut p.core, format!("{{\"op\":\"pair\",\"peer_id\":\"{id}\"}}")).unwrap();
    p.listen();
    let changed = p.events.iter().find(|e| e["event"] == "trust_changed").unwrap();
    assert_eq!(changed["peers"][0]["peer_id"], id.as_str());
    assert_eq!(changed["peers"][0]["allow_remote"], false);
}

#[test]
fn a_request_keeps_its_content() {
    let mut p = Peer::new(true, false);
    let request_id = uuid::Uuid::new_v4().as_u128();
    let wire = |code: &str| Wire {
        protocol_version: VERSION,
        request_id,
        payload: Payload::Error { session_id: None, code: code.to_owned() },
    };
    p.say(&wire("one")).unwrap();
    p.say(&wire("one")).unwrap();
    assert_eq!(p.say(&wire("two")).unwrap_err(), "request_content_conflict");
    assert!(p.any("socket_close"));
}

#[test]
fn a_paired_device_gets_no_microphone() {
    let mut p = Peer::new(true, false);
    let id = uuid::Uuid::new_v4().as_u128();
    let mut binding = p.binding(id);
    binding.source_device_id = p.core.device_id().unwrap();
    binding.target_device_id = p.id.clone();
    binding.context_token = uuid::Uuid::from_u128(7).to_string();
    p.tell(Payload::SessionStart { binding }).unwrap();
    assert!(matches!(p.heard.last(), Some(Payload::Error { session_id: Some(s), code })
        if *s == id && code == "remote_not_authorized"));
    assert!(!p.any("prepare_input"));
    assert!(p.core.engine.sessions.is_empty());
}

#[test]
fn a_device_that_was_allowed_gets_the_microphone_once() {
    let mut p = Peer::new(true, true);
    for i in 0..2 {
        let mut binding = p.binding(uuid::Uuid::new_v4().as_u128());
        binding.source_device_id = p.core.device_id().unwrap();
        binding.target_device_id = p.id.clone();
        binding.context_token = uuid::Uuid::from_u128(7).to_string();
        p.tell(Payload::SessionStart { binding }).unwrap();
        assert!(p.any("prepare_input"));
        assert_eq!(p.core.engine.sessions.len(), 1);
        let busy = matches!(p.heard.last(), Some(Payload::Error { session_id: None, code })
            if code == "busy_or_expired_session");
        assert_eq!(busy, i == 1);
    }
}

#[test]
fn pieces_are_typed_in_order_and_once() {
    let mut p = Peer::new(true, false);
    let id = p.bound();
    let second = p.piece(id, 2, "second");
    p.tell(second).unwrap();
    assert!(p.injected().is_empty());
    let first = p.piece(id, 1, "first");
    p.tell(first).unwrap();
    assert_eq!(p.injected(), vec![(1, "first".to_owned())]);
    let first = p.piece(id, 1, "first");
    p.tell(first).unwrap();
    assert_eq!(p.injected().len(), 1);
    assert_eq!(p.on_device("claim_injection", id, ",\"sequence\":1").unwrap()["allowed"], true);
    p.on_device("injection_result", id, ",\"sequence\":1,\"status\":\"applied\"").unwrap();
    assert_eq!(p.injected().last().unwrap(), &(2, "second".to_owned()));
    p.tell(Payload::ChunkQuery { session_id: id, sequence: 1 }).unwrap();
    assert!(matches!(p.heard.last(), Some(Payload::ChunkAck { sequence: 1, ack_status: Ack::Applied, .. })));
    assert_eq!(p.injected().len(), 2);
}

#[test]
fn a_piece_keeps_its_text() {
    let mut p = Peer::new(true, false);
    let id = p.bound();
    let first = p.piece(id, 1, "first");
    p.tell(first).unwrap();
    let other = p.piece(id, 1, "other");
    assert_eq!(p.tell(other).unwrap_err(), "chunk_content_conflict");
    assert_eq!(p.injected().len(), 1);
}

#[test]
fn a_piece_that_was_not_typed_holds_the_rest() {
    let mut p = Peer::new(true, false);
    let id = p.bound();
    for (n, text) in [(1, "first"), (2, "second")] {
        let piece = p.piece(id, n, text);
        p.tell(piece).unwrap();
    }
    assert_eq!(p.on_device("claim_injection", id, ",\"sequence\":1").unwrap()["allowed"], true);
    p.on_device("injection_result", id, ",\"sequence\":1,\"status\":\"not_applied\"").unwrap();
    assert_eq!(p.injected().len(), 1);
    let token = uuid::Uuid::from_u128(7);
    let same = format!(",\"context_token\":\"{token}\",\"target_app\":\"T\"");
    assert!(p.on_device("resume", id, &same).is_err());
}

#[test]
fn one_keyboard() {
    let mut p = Peer::new(true, false);
    p.bound();
    let binding = p.binding(uuid::Uuid::new_v4().as_u128());
    assert_eq!(p.tell(Payload::BindRequest { binding }).unwrap_err(), "busy");
}

/// A session in which the device dictates into the peer, and has said something.
fn dictating(p: &mut Peer) -> u128 {
    let peer = p.id.clone();
    let begun = command(
        &mut p.core,
        format!("{{\"op\":\"begin\",\"peer_id\":\"{peer}\",\"mode\":\"apple_local\",\"remote\":false}}"),
    )
    .unwrap();
    p.listen();
    let id = uuid::Uuid::parse_str(begun["session_id"].as_str().unwrap()).unwrap().as_u128();
    let mut binding = match p.heard.pop() {
        Some(Payload::BindRequest { binding }) => binding,
        _ => panic!("nothing was asked"),
    };
    assert_eq!(binding.session_id, id);
    binding.context_token = uuid::Uuid::from_u128(7).to_string();
    p.tell(Payload::SessionBound { binding }).unwrap();
    assert!(p.any("prepare_input"));
    p.on_device("ready", id, "").unwrap();
    p.on_device("listening", id, "").unwrap();
    p.on_device("apple_result", id, ",\"start\":0,\"end\":10,\"finalized_until\":10,\"text\":\"first\"").unwrap();
    p.on_device("apple_result", id, ",\"start\":10,\"end\":20,\"finalized_until\":20,\"text\":\"second\"").unwrap();
    id
}

fn status(p: &Peer, n: usize) -> String {
    let told = p.events.iter().rev().find(|e| e["event"] == "session").unwrap();
    told["chunks"][n]["status"].as_str().unwrap().to_owned()
}

#[test]
fn each_number_is_given_once_and_in_order() {
    let mut p = Peer::new(true, false);
    dictating(&mut p);
    let sent: Vec<(u64, &str)> = p
        .heard
        .iter()
        .filter_map(|m| match m {
            Payload::TextChunk { sequence, text, .. } => Some((*sequence, text.as_str())),
            _ => None,
        })
        .collect();
    assert_eq!(sent, vec![(1, "first"), (2, "second")]);
}

#[test]
fn late_acknowledgements_take_nothing_back() {
    let mut p = Peer::new(true, false);
    let session_id = dictating(&mut p);
    let mut ack = |sequence: u64, ack_status: Ack| p.tell(Payload::ChunkAck { session_id, sequence, ack_status });
    ack(1, Ack::Applied).unwrap();
    ack(1, Ack::Received).unwrap();
    ack(1, Ack::Unknown).unwrap();
    ack(2, Ack::Unknown).unwrap();
    ack(2, Ack::Received).unwrap();
    assert_eq!(ack(3, Ack::Applied).unwrap_err(), "unknown_chunk");
    assert_eq!(status(&p, 0), "applied");
    assert_eq!(status(&p, 1), "unknown");
}

#[test]
fn cancelling_twice_is_cancelling_once() {
    let mut p = Peer::new(true, false);
    let id = dictating(&mut p);
    p.on_device("cancel", id, "").unwrap();
    assert!(matches!(p.heard.last(), Some(Payload::SessionCancel { session_id }) if *session_id == id));
    let (heard, told) = (p.heard.len(), p.events.len());
    p.on_device("cancel", id, "").unwrap();
    p.tell(Payload::SessionCancel { session_id: id }).unwrap();
    assert_eq!((p.heard.len(), p.events.len()), (heard, told));
}

#[test]
fn a_session_of_others_is_not_heard_of() {
    let mut p = Peer::new(true, false);
    let id = uuid::Uuid::new_v4().as_u128();
    assert_eq!(p.tell(Payload::SessionStop { session_id: id }).unwrap_err(), "expired_session");
}
