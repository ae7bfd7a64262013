//! The wire format: how requests and events are written as JSON documents.
//!
//! A document is held as a tree, [`Json`]. Every message is an object with one
//! member, whose name says which message it is.

use vstd::prelude::*;
use crate::protocol::{PeerEvent, PeerId, PeerRequest, PeerSignal, SignalEvent};
use crate::state::{is_canonical_uuid, is_lower_hex};
use vstd::string::StringExecFns;

verus! {

/// A JSON document. A number is an unsigned or a negative integer, or the bits
/// of a binary64 value.
#[derive(Debug, PartialEq, Eq)]
pub enum Json {
    Null,
    Bool(bool),
    Unsigned(u64),
    Negative(i64),
    Real(u64),
    Text(String),
    Array(Vec<Json>),
    Object(Vec<(String, Json)>),
}

/// What a [`Json`] document says.
pub ghost enum JsonModel {
    Null,
    Bool(bool),
    Unsigned(u64),
    Negative(i64),
    Real(u64),
    Text(Seq<char>),
    Array(Seq<JsonModel>),
    Object(Seq<(Seq<char>, JsonModel)>),
}

/// What the document `j` says.
pub open spec fn said(j: Json) -> JsonModel
    decreases j,
{
    match j {
        Json::Null => JsonModel::Null,
        Json::Bool(b) => JsonModel::Bool(b),
        Json::Unsigned(n) => JsonModel::Unsigned(n),
        Json::Negative(n) => JsonModel::Negative(n),
        Json::Real(bits) => JsonModel::Real(bits),
        Json::Text(s) => JsonModel::Text(s@),
        Json::Array(items) => JsonModel::Array(
            Seq::new(
                items@.len(),
                |i: int|
                    if 0 <= i < items@.len() {
                        said(items@[i])
                    } else {
                        JsonModel::Null
                    },
            ),
        ),
        Json::Object(members) => JsonModel::Object(
            Seq::new(
                members@.len(),
                |i: int|
                    if 0 <= i < members@.len() {
                        (members@[i].0@, said(members@[i].1))
                    } else {
                        (Seq::empty(), JsonModel::Null)
                    },
            ),
        ),
    }
}

impl View for Json {
    type V = JsonModel;

    open spec fn view(&self) -> JsonModel {
        said(*self)
    }
}

/// What a [`PeerSignal`] says.
pub ghost enum SignalModel {
    IceCandidate(Seq<char>),
    Offer(Seq<char>),
    Answer(Seq<char>),
}

/// What a request says.
pub ghost enum RequestModel {
    Signal { receiver: PeerId, data: SignalModel },
    KeepAlive,
}

/// What an event says.
pub ghost enum EventModel {
    IdAssigned(PeerId),
    NewPeer(PeerId),
    PeerLeft(PeerId),
    Signal { sender: PeerId, data: SignalModel },
    RoomOpened(Seq<char>),
    RoomClosed,
    HostStatus(bool),
    Data(Seq<u8>),
}

impl View for PeerSignal {
    type V = SignalModel;

    open spec fn view(&self) -> SignalModel {
        match self {
            PeerSignal::IceCandidate(t) => SignalModel::IceCandidate(t@),
            PeerSignal::Offer(t) => SignalModel::Offer(t@),
            PeerSignal::Answer(t) => SignalModel::Answer(t@),
        }
    }
}

impl View for PeerRequest<PeerSignal> {
    type V = RequestModel;

    open spec fn view(&self) -> RequestModel {
        match self {
            PeerRequest::Signal { receiver, data } => RequestModel::Signal { receiver: *receiver, data: data@ },
            PeerRequest::KeepAlive => RequestModel::KeepAlive,
        }
    }
}

impl View for SignalEvent<PeerSignal> {
    type V = EventModel;

    open spec fn view(&self) -> EventModel {
        match self {
            SignalEvent::Peer(PeerEvent::IdAssigned(p)) => EventModel::IdAssigned(*p),
            SignalEvent::Peer(PeerEvent::NewPeer(p)) => EventModel::NewPeer(*p),
            SignalEvent::Peer(PeerEvent::PeerLeft(p)) => EventModel::PeerLeft(*p),
            SignalEvent::Peer(PeerEvent::Signal { sender, data }) => EventModel::Signal {
                sender: *sender,
                data: data@,
            },
            SignalEvent::RoomOpened(name) => EventModel::RoomOpened(name@),
            SignalEvent::RoomClosed => EventModel::RoomClosed,
            SignalEvent::HostStatus(b) => EventModel::HostStatus(*b),
            SignalEvent::Data(bytes) => EventModel::Data(bytes@),
        }
    }
}

/// The lower-case hexadecimal digit for a value below 16.
pub open spec fn hex_digit(n: int) -> char {
    if n == 0 {
        '0'
    } else if n == 1 {
        '1'
    } else if n == 2 {
        '2'
    } else if n == 3 {
        '3'
    } else if n == 4 {
        '4'
    } else if n == 5 {
        '5'
    } else if n == 6 {
        '6'
    } else if n == 7 {
        '7'
    } else if n == 8 {
        '8'
    } else if n == 9 {
        '9'
    } else if n == 10 {
        'a'
    } else if n == 11 {
        'b'
    } else if n == 12 {
        'c'
    } else if n == 13 {
        'd'
    } else if n == 14 {
        'e'
    } else {
        'f'
    }
}

/// The `k`-th of the 32 hexadecimal digits of `v`, the most significant first.
pub open spec fn uuid_digit(v: u128, k: int) -> int {
    ((v >> ((124 - 4 * k) as u128)) & 0xf) as int
}

/// Which of the 32 digits stands at place `i` of the 36 characters, where no
/// hyphen stands there.
pub open spec fn digit_place(i: int) -> int {
    if i < 8 {
        i
    } else if i < 13 {
        i - 1
    } else if i < 18 {
        i - 2
    } else if i < 23 {
        i - 3
    } else {
        i - 4
    }
}

/// The canonical text of the 128-bit value `v`: its 32 hexadecimal digits in
/// lower case, the most significant first, in groups of 8, 4, 4, 4 and 12 with
/// hyphens between them.
pub open spec fn uuid_text(v: u128) -> Seq<char> {
    Seq::new(
        36,
        |i: int|
            if i == 8 || i == 13 || i == 18 || i == 23 {
                '-'
            } else {
                hex_digit(uuid_digit(v, digit_place(i)))
            },
    )
}

/// The text of every value has the canonical form.
pub proof fn lemma_uuid_text_canonical(v: u128)
    ensures
        is_canonical_uuid(uuid_text(v)),
{
    assert(forall|x: u128| #[trigger] (x & 0xf) < 16) by (bit_vector);
    assert forall|i: int| 0 <= i < 36 implies if i == 8 || i == 13 || i == 18 || i == 23 {
        uuid_text(v)[i] == '-'
    } else {
        is_lower_hex(#[trigger] uuid_text(v)[i])
    } by {}
}

/// The 128-bit value that the uuid crate reads from `s`, where it reads one.
pub uninterp spec fn uuid_parse(s: Seq<char>) -> Option<u128>;

/// The text of an id: `Uuid::from_u128(id)` of the uuid crate, rendered by its
/// `Display`. Claimed: the text is the hyphenated lower-case form of the
/// value's 32 hexadecimal digits, and `Uuid::parse_str` reads the same value
/// back from it.
#[verifier::external_body]
fn peer_id_text(id: u128) -> (s: String)
    ensures
        s@ == uuid_text(id),
        uuid_parse(s@) == Some(id),
{
    uuid::Uuid::from_u128(id).to_string()
}

/// The id that a text stands for: `Uuid::parse_str` of the uuid crate, and
/// `as_u128` of what it found. Claimed: the answer depends on the text alone.
#[verifier::external_body]
fn peer_id_from_text(s: &str) -> (r: Option<u128>)
    ensures
        r == uuid_parse(s@),
{
    uuid::Uuid::parse_str(s).ok().map(|u| u.as_u128())
}

/// The object with the one member `key`.
pub open spec fn tag(key: Seq<char>, body: JsonModel) -> JsonModel {
    JsonModel::Object(seq![(key, body)])
}

/// The one member of an object that has one.
pub open spec fn untagged(j: JsonModel) -> Option<(Seq<char>, JsonModel)> {
    if j is Object && j->Object_0.len() == 1 {
        Some(j->Object_0[0])
    } else {
        None
    }
}

/// The object with the two members `first` and `second`.
pub open spec fn pair(first: Seq<char>, a: JsonModel, second: Seq<char>, b: JsonModel) -> JsonModel {
    JsonModel::Object(seq![(first, a), (second, b)])
}

/// The members `first` and `second` of an object that has just these two, in
/// either order.
pub open spec fn unpaired(j: JsonModel, first: Seq<char>, second: Seq<char>) -> Option<(JsonModel, JsonModel)> {
    if j is Object && j->Object_0.len() == 2 {
        let m = j->Object_0;
        if m[0].0 == first && m[1].0 == second {
            Some((m[0].1, m[1].1))
        } else if m[0].0 == second && m[1].0 == first {
            Some((m[1].1, m[0].1))
        } else {
            None
        }
    } else {
        None
    }
}

/// An id on the wire: its text.
pub open spec fn peer_json(p: PeerId) -> JsonModel {
    JsonModel::Text(uuid_text(p.0))
}

/// The id that a document stands for.
pub open spec fn peer_of(j: JsonModel) -> Option<PeerId> {
    if j is Text && uuid_parse(j->Text_0) is Some {
        Some(PeerId(uuid_parse(j->Text_0)->0))
    } else {
        None
    }
}

/// Bytes on the wire: an array of their numbers.
pub open spec fn bytes_json(bytes: Seq<u8>) -> JsonModel {
    JsonModel::Array(Seq::new(bytes.len(), |i: int| JsonModel::Unsigned(bytes[i] as u64)))
}

/// Whether `j` is the number of a byte.
pub open spec fn is_byte(j: JsonModel) -> bool {
    j is Unsigned && j->Unsigned_0 <= 255
}

/// The bytes that an array of byte numbers stands for.
pub open spec fn bytes_of(j: JsonModel) -> Option<Seq<u8>> {
    if j is Array && (forall|i: int| 0 <= i < j->Array_0.len() ==> is_byte(#[trigger] j->Array_0[i])) {
        Some(Seq::new(j->Array_0.len(), |i: int| j->Array_0[i]->Unsigned_0 as u8))
    } else {
        None
    }
}

/// A signal on the wire.
pub open spec fn signal_json(s: SignalModel) -> JsonModel {
    match s {
        SignalModel::IceCandidate(t) => tag("IceCandidate"@, JsonModel::Text(t)),
        SignalModel::Offer(t) => tag("Offer"@, JsonModel::Text(t)),
        SignalModel::Answer(t) => tag("Answer"@, JsonModel::Text(t)),
    }
}

/// The signal that a document stands for.
pub open spec fn signal_of(j: JsonModel) -> Option<SignalModel> {
    match untagged(j) {
        Some(m) => if m.1 is Text {
            if m.0 == "IceCandidate"@ {
                Some(SignalModel::IceCandidate(m.1->Text_0))
            } else if m.0 == "Offer"@ {
                Some(SignalModel::Offer(m.1->Text_0))
            } else if m.0 == "Answer"@ {
                Some(SignalModel::Answer(m.1->Text_0))
            } else {
                None
            }
        } else {
            None
        },
        None => None,
    }
}

/// A request on the wire.
pub open spec fn request_json(r: RequestModel) -> JsonModel {
    match r {
        RequestModel::Signal { receiver, data } => tag(
            "Signal"@,
            pair("receiver"@, peer_json(receiver), "data"@, signal_json(data)),
        ),
        RequestModel::KeepAlive => tag("KeepAlive"@, JsonModel::Null),
    }
}

/// The request that a document stands for.
pub open spec fn request_of(j: JsonModel) -> Option<RequestModel> {
    match untagged(j) {
        Some(m) => if m.0 == "Signal"@ {
            match unpaired(m.1, "receiver"@, "data"@) {
                Some(parts) => if peer_of(parts.0) is Some && signal_of(parts.1) is Some {
                    Some(RequestModel::Signal { receiver: peer_of(parts.0)->0, data: signal_of(parts.1)->0 })
                } else {
                    None
                },
                None => None,
            }
        } else if m.0 == "KeepAlive"@ {
            if m.1 is Null {
                Some(RequestModel::KeepAlive)
            } else {
                None
            }
        } else {
            None
        },
        None => None,
    }
}

/// An event on the wire.
pub open spec fn event_json(e: EventModel) -> JsonModel {
    match e {
        EventModel::IdAssigned(p) => tag("Peer"@, tag("IdAssigned"@, peer_json(p))),
        EventModel::NewPeer(p) => tag("Peer"@, tag("NewPeer"@, peer_json(p))),
        EventModel::PeerLeft(p) => tag("Peer"@, tag("PeerLeft"@, peer_json(p))),
        EventModel::Signal { sender, data } => tag(
            "Peer"@,
            tag("Signal"@, pair("sender"@, peer_json(sender), "data"@, signal_json(data))),
        ),
        EventModel::RoomOpened(name) => tag("RoomOpened"@, JsonModel::Text(name)),
        EventModel::RoomClosed => tag("RoomClosed"@, JsonModel::Null),
        EventModel::HostStatus(b) => tag("HostStatus"@, JsonModel::Bool(b)),
        EventModel::Data(bytes) => tag("Data"@, bytes_json(bytes)),
    }
}

/// The event between peers that a document stands for.
pub open spec fn peer_event_of(j: JsonModel) -> Option<EventModel> {
    match untagged(j) {
        Some(m) => if m.0 == "IdAssigned"@ {
            if peer_of(m.1) is Some {
                Some(EventModel::IdAssigned(peer_of(m.1)->0))
            } else {
                None
            }
        } else if m.0 == "NewPeer"@ {
            if peer_of(m.1) is Some {
                Some(EventModel::NewPeer(peer_of(m.1)->0))
            } else {
                None
            }
        } else if m.0 == "PeerLeft"@ {
            if peer_of(m.1) is Some {
                Some(EventModel::PeerLeft(peer_of(m.1)->0))
            } else {
                None
            }
        } else if m.0 == "Signal"@ {
            match unpaired(m.1, "sender"@, "data"@) {
                Some(parts) => if peer_of(parts.0) is Some && signal_of(parts.1) is Some {
                    Some(EventModel::Signal { sender: peer_of(parts.0)->0, data: signal_of(parts.1)->0 })
                } else {
                    None
                },
                None => None,
            }
        } else {
            None
        },
        None => None,
    }
}

/// The event that a document stands for.
pub open spec fn event_of(j: JsonModel) -> Option<EventModel> {
    match untagged(j) {
        Some(m) => if m.0 == "Peer"@ {
            peer_event_of(m.1)
        } else if m.0 == "RoomOpened"@ {
            if m.1 is Text {
                Some(EventModel::RoomOpened(m.1->Text_0))
            } else {
                None
            }
        } else if m.0 == "RoomClosed"@ {
            if m.1 is Null {
                Some(EventModel::RoomClosed)
            } else {
                None
            }
        } else if m.0 == "HostStatus"@ {
            if m.1 is Bool {
                Some(EventModel::HostStatus(m.1->Bool_0))
            } else {
                None
            }
        } else if m.0 == "Data"@ {
            match bytes_of(m.1) {
                Some(bytes) => Some(EventModel::Data(bytes)),
                None => None,
            }
        } else {
            None
        },
        None => None,
    }
}

/// The names of the messages differ from one another.
pub proof fn lemma_names_differ()
    ensures
        "IceCandidate"@ != "Offer"@,
        "IceCandidate"@ != "Answer"@,
        "Offer"@ != "Answer"@,
        "Signal"@ != "KeepAlive"@,
        "receiver"@ != "data"@,
        "sender"@ != "data"@,
        "IdAssigned"@ != "NewPeer"@,
        "IdAssigned"@ != "PeerLeft"@,
        "IdAssigned"@ != "Signal"@,
        "NewPeer"@ != "PeerLeft"@,
        "NewPeer"@ != "Signal"@,
        "PeerLeft"@ != "Signal"@,
        "Peer"@ != "RoomOpened"@,
        "Peer"@ != "RoomClosed"@,
        "Peer"@ != "HostStatus"@,
        "Peer"@ != "Data"@,
        "RoomOpened"@ != "RoomClosed"@,
        "RoomOpened"@ != "HostStatus"@,
        "RoomOpened"@ != "Data"@,
        "RoomClosed"@ != "HostStatus"@,
        "RoomClosed"@ != "Data"@,
        "HostStatus"@ != "Data"@,
{
    reveal_strlit("IceCandidate");
    reveal_strlit("Offer");
    reveal_strlit("Answer");
    reveal_strlit("Signal");
    reveal_strlit("KeepAlive");
    reveal_strlit("receiver");
    reveal_strlit("data");
    reveal_strlit("sender");
    reveal_strlit("IdAssigned");
    reveal_strlit("NewPeer");
    reveal_strlit("PeerLeft");
    reveal_strlit("Peer");
    reveal_strlit("RoomOpened");
    reveal_strlit("RoomClosed");
    reveal_strlit("HostStatus");
    reveal_strlit("Data");
    assert("IceCandidate"@.len() == 12 && "Offer"@.len() == 5 && "Answer"@.len() == 6);
    assert("Signal"@.len() == 6 && "KeepAlive"@.len() == 9);
    assert("receiver"@.len() == 8 && "data"@.len() == 4 && "sender"@.len() == 6);
    assert("IdAssigned"@.len() == 10 && "NewPeer"@.len() == 7 && "PeerLeft"@.len() == 8);
    assert("Peer"@.len() == 4 && "Data"@.len() == 4);
    assert("RoomOpened"@.len() == 10 && "RoomClosed"@.len() == 10 && "HostStatus"@.len() == 10);
    assert("Offer"@[0] != "Answer"@[0]);
    assert("Peer"@[0] != "Data"@[0]);
    assert("RoomOpened"@[4] != "RoomClosed"@[4]);
    assert("RoomOpened"@[0] != "HostStatus"@[0]);
    assert("RoomClosed"@[0] != "HostStatus"@[0]);
}

/// The object with the one member `key`.
fn tagged(key: &str, body: Json) -> (j: Json)
    ensures
        j@ == tag(key@, body@),
{
    let mut members: Vec<(String, Json)> = Vec::new();
    members.push((String::from_str(key), body));
    let j = Json::Object(members);
    assert(j@->Object_0 =~= seq![(key@, body@)]);
    j
}

/// The object with the two members `first` and `second`.
fn paired(first: &str, a: Json, second: &str, b: Json) -> (j: Json)
    ensures
        j@ == pair(first@, a@, second@, b@),
{
    let mut members: Vec<(String, Json)> = Vec::new();
    members.push((String::from_str(first), a));
    members.push((String::from_str(second), b));
    let j = Json::Object(members);
    assert(j@->Object_0 =~= seq![(first@, a@), (second@, b@)]);
    j
}

/// The one member of an object that has one.
fn untag(j: &Json) -> (r: Option<(&String, &Json)>)
    ensures
        match r {
            Some(m) => untagged(j@) == Some((m.0@, m.1@)),
            None => untagged(j@) is None,
        },
{
    match j {
        Json::Object(members) => {
            assert(j@ is Object && j@->Object_0.len() == members@.len());
            if members.len() == 1 {
                assert(j@->Object_0[0] == (members@[0].0@, members@[0].1@));
                Some((&members[0].0, &members[0].1))
            } else {
                None
            }
        },
        _ => None,
    }
}

/// Whether `key` reads `name`.
fn reads(key: &String, name: &str) -> (r: bool)
    ensures
        r == (key@ == name@),
{
    let wanted = String::from_str(name);
    *key == wanted
}

/// The members `first` and `second` of an object that has just these two.
fn unpair<'a>(j: &'a Json, first: &str, second: &str) -> (r: Option<(&'a Json, &'a Json)>)
    ensures
        match r {
            Some(m) => unpaired(j@, first@, second@) == Some((m.0@, m.1@)),
            None => unpaired(j@, first@, second@) is None,
        },
{
    match j {
        Json::Object(members) => {
            assert(j@ is Object && j@->Object_0.len() == members@.len());
            if members.len() == 2 {
                assert(j@->Object_0[0] == (members@[0].0@, members@[0].1@));
                assert(j@->Object_0[1] == (members@[1].0@, members@[1].1@));
                if reads(&members[0].0, first) && reads(&members[1].0, second) {
                    Some((&members[0].1, &members[1].1))
                } else if reads(&members[0].0, second) && reads(&members[1].0, first) {
                    Some((&members[1].1, &members[0].1))
                } else {
                    None
                }
            } else {
                None
            }
        },
        _ => None,
    }
}

impl PeerId {
    /// The id as text: the canonical form of a UUID.
    pub fn to_text(&self) -> (s: String)
        ensures
            s@ == uuid_text(self.0),
            is_canonical_uuid(s@),
    {
        proof {
            lemma_uuid_text_canonical(self.0);
        }
        peer_id_text(self.0)
    }

    /// The id as a document: its canonical text.
    pub fn to_json(&self) -> (j: Json)
        ensures
            j@ == peer_json(*self),
            peer_of(j@) == Some(*self),
            j@ is Text && is_canonical_uuid(j@->Text_0),
    {
        proof {
            lemma_uuid_text_canonical(self.0);
        }
        Json::Text(peer_id_text(self.0))
    }

    /// The id that a document stands for: `None` where it is no text, or no text of an id.
    pub fn from_json(j: &Json) -> (r: Option<PeerId>)
        ensures
            r == peer_of(j@),
    {
        match j {
            Json::Text(t) => {
                match peer_id_from_text(t.as_str()) {
                    Some(v) => Some(PeerId(v)),
                    None => None,
                }
            },
            _ => None,
        }
    }
}

impl PeerSignal {
    /// The signal as a document. Reading the document gives the signal back.
    pub fn to_json(&self) -> (j: Json)
        ensures
            j@ == signal_json(self@),
            signal_of(j@) == Some(self@),
    {
        proof {
            lemma_names_differ();
        }
        match self {
            PeerSignal::IceCandidate(t) => tagged("IceCandidate", Json::Text(t.clone())),
            PeerSignal::Offer(t) => tagged("Offer", Json::Text(t.clone())),
            PeerSignal::Answer(t) => tagged("Answer", Json::Text(t.clone())),
        }
    }

    /// The signal that a document stands for: `None` where it stands for none.
    pub fn from_json(j: &Json) -> (r: Option<PeerSignal>)
        ensures
            r is Some == signal_of(j@) is Some,
            r is Some ==> signal_of(j@) == Some(r->0@),
    {
        match untag(j) {
            Some((key, body)) => {
                match body {
                    Json::Text(t) => {
                        if reads(key, "IceCandidate") {
                            Some(PeerSignal::IceCandidate(t.clone()))
                        } else if reads(key, "Offer") {
                            Some(PeerSignal::Offer(t.clone()))
                        } else if reads(key, "Answer") {
                            Some(PeerSignal::Answer(t.clone()))
                        } else {
                            None
                        }
                    },
                    _ => None,
                }
            },
            None => None,
        }
    }
}

impl PeerRequest<PeerSignal> {
    /// The request as a document. Reading the document gives the request back.
    pub fn to_json(&self) -> (j: Json)
        ensures
            j@ == request_json(self@),
            request_of(j@) == Some(self@),
    {
        proof {
            lemma_names_differ();
        }
        match self {
            PeerRequest::Signal { receiver, data } => tagged(
                "Signal",
                paired("receiver", receiver.to_json(), "data", data.to_json()),
            ),
            PeerRequest::KeepAlive => tagged("KeepAlive", Json::Null),
        }
    }

    /// The request that a document stands for: `None` where it stands for none.
    pub fn from_json(j: &Json) -> (r: Option<PeerRequest<PeerSignal>>)
        ensures
            r is Some == request_of(j@) is Some,
            r is Some ==> request_of(j@) == Some(r->0@),
    {
        match untag(j) {
            Some((key, body)) => {
                if reads(key, "Signal") {
                    match unpair(body, "receiver", "data") {
                        Some((who, what)) => {
                            match (PeerId::from_json(who), PeerSignal::from_json(what)) {
                                (Some(receiver), Some(data)) => Some(PeerRequest::Signal { receiver, data }),
                                _ => None,
                            }
                        },
                        None => None,
                    }
                } else if reads(key, "KeepAlive") {
                    match body {
                        Json::Null => Some(PeerRequest::KeepAlive),
                        _ => None,
                    }
                } else {
                    None
                }
            },
            None => None,
        }
    }
}

/// Bytes as a document: the array of their numbers.
fn bytes_to_json(bytes: &Vec<u8>) -> (j: Json)
    ensures
        j@ == bytes_json(bytes@),
        bytes_of(j@) == Some(bytes@),
{
    let mut items: Vec<Json> = Vec::new();
    let mut i: usize = 0;
    while i < bytes.len()
        invariant
            i <= bytes@.len(),
            items@.len() == i,
            forall|k: int| 0 <= k < i ==> (#[trigger] items@[k])@ == JsonModel::Unsigned(bytes@[k] as u64),
        decreases bytes@.len() - i,
    {
        items.push(Json::Unsigned(bytes[i] as u64));
        i += 1;
    }
    let j = Json::Array(items);
    assert(j@->Array_0 =~= bytes_json(bytes@)->Array_0);
    assert(bytes_of(j@)->0 =~= bytes@);
    j
}

/// What an array says: what each of its items says, in their order.
pub proof fn lemma_array_view(items: Vec<Json>)
    ensures
        Json::Array(items)@ is Array,
        Json::Array(items)@->Array_0.len() == items@.len(),
        forall|k: int| 0 <= k < items@.len() ==> Json::Array(items)@->Array_0[k] == (#[trigger] items@[k])@,
{
}

/// The items of an array.
fn elements(j: &Json) -> (r: Option<&Vec<Json>>)
    ensures
        r is Some == j@ is Array,
        r is Some ==> j@->Array_0.len() == r->0@.len() && forall|k: int|
            0 <= k < r->0@.len() ==> j@->Array_0[k] == (#[trigger] r->0@[k])@,
{
    match j {
        Json::Array(items) => {
            proof {
                lemma_array_view(*items);
            }
            Some(items)
        },
        _ => None,
    }
}

/// The bytes that a document stands for: `None` where it is no array of byte numbers.
fn bytes_from_json(j: &Json) -> (r: Option<Vec<u8>>)
    ensures
        r is Some == bytes_of(j@) is Some,
        r is Some ==> bytes_of(j@) == Some(r->0@),
{
    match elements(j) {
        Some(items) => {
            let mut bytes: Vec<u8> = Vec::new();
            let mut i: usize = 0;
            while i < items.len()
                invariant
                    i <= items@.len(),
                    bytes@.len() == i,
                    j@ is Array,
                    j@->Array_0.len() == items@.len(),
                    forall|k: int| 0 <= k < items@.len() ==> j@->Array_0[k] == (#[trigger] items@[k])@,
                    forall|k: int| 0 <= k < i ==> is_byte(#[trigger] j@->Array_0[k]),
                    forall|k: int| 0 <= k < i ==> (#[trigger] bytes@[k]) == j@->Array_0[k]->Unsigned_0 as u8,
                decreases items@.len() - i,
            {
                match &items[i] {
                    Json::Unsigned(n) => {
                        if *n <= 255 {
                            bytes.push(*n as u8);
                        } else {
                            assert(!is_byte(j@->Array_0[i as int]));
                            return None;
                        }
                    },
                    _ => {
                        assert(!is_byte(j@->Array_0[i as int]));
                        return None;
                    },
                }
                i += 1;
            }
            assert(bytes_of(j@)->0 =~= bytes@);
            Some(bytes)
        },
        None => None,
    }
}

impl SignalEvent<PeerSignal> {
    /// The event as a document. Reading the document gives the event back.
    pub fn to_json(&self) -> (j: Json)
        ensures
            j@ == event_json(self@),
            event_of(j@) == Some(self@),
    {
        proof {
            lemma_names_differ();
        }
        match self {
            SignalEvent::Peer(PeerEvent::IdAssigned(p)) => tagged("Peer", tagged("IdAssigned", p.to_json())),
            SignalEvent::Peer(PeerEvent::NewPeer(p)) => tagged("Peer", tagged("NewPeer", p.to_json())),
            SignalEvent::Peer(PeerEvent::PeerLeft(p)) => tagged("Peer", tagged("PeerLeft", p.to_json())),
            SignalEvent::Peer(PeerEvent::Signal { sender, data }) => tagged(
                "Peer",
                tagged("Signal", paired("sender", sender.to_json(), "data", data.to_json())),
            ),
            SignalEvent::RoomOpened(name) => tagged("RoomOpened", Json::Text(name.clone())),
            SignalEvent::RoomClosed => tagged("RoomClosed", Json::Null),
            SignalEvent::HostStatus(b) => tagged("HostStatus", Json::Bool(*b)),
            SignalEvent::Data(bytes) => tagged("Data", bytes_to_json(bytes)),
        }
    }

    /// The event between peers that a document stands for.
    fn peer_event_from_json(j: &Json) -> (r: Option<SignalEvent<PeerSignal>>)
        ensures
            r is Some == peer_event_of(j@) is Some,
            r is Some ==> peer_event_of(j@) == Some(r->0@),
    {
        match untag(j) {
            Some((key, body)) => {
                if reads(key, "IdAssigned") {
                    match PeerId::from_json(body) {
                        Some(p) => Some(SignalEvent::Peer(PeerEvent::IdAssigned(p))),
                        None => None,
                    }
                } else if reads(key, "NewPeer") {
                    match PeerId::from_json(body) {
                        Some(p) => Some(SignalEvent::Peer(PeerEvent::NewPeer(p))),
                        None => None,
                    }
                } else if reads(key, "PeerLeft") {
                    match PeerId::from_json(body) {
                        Some(p) => Some(SignalEvent::Peer(PeerEvent::PeerLeft(p))),
                        None => None,
                    }
                } else if reads(key, "Signal") {
                    match unpair(body, "sender", "data") {
                        Some((who, what)) => {
                            match (PeerId::from_json(who), PeerSignal::from_json(what)) {
                                (Some(sender), Some(data)) => Some(
                                    SignalEvent::Peer(PeerEvent::Signal { sender, data }),
                                ),
                                _ => None,
                            }
                        },
                        None => None,
                    }
                } else {
                    None
                }
            },
            None => None,
        }
    }

    /// The event that a document stands for: `None` where it stands for none.
    pub fn from_json(j: &Json) -> (r: Option<SignalEvent<PeerSignal>>)
        ensures
            r is Some == event_of(j@) is Some,
            r is Some ==> event_of(j@) == Some(r->0@),
    {
        match untag(j) {
            Some((key, body)) => {
                if reads(key, "Peer") {
                    Self::peer_event_from_json(body)
                } else if reads(key, "RoomOpened") {
                    match body {
                        Json::Text(name) => Some(SignalEvent::RoomOpened(name.clone())),
                        _ => None,
                    }
                } else if reads(key, "RoomClosed") {
                    match body {
                        Json::Null => Some(SignalEvent::RoomClosed),
                        _ => None,
                    }
                } else if reads(key, "HostStatus") {
                    match body {
                        Json::Bool(b) => Some(SignalEvent::HostStatus(*b)),
                        _ => None,
                    }
                } else if reads(key, "Data") {
                    match bytes_from_json(body) {
                        Some(bytes) => Some(SignalEvent::Data(bytes)),
                        None => None,
                    }
                } else {
                    None
                }
            },
            None => None,
        }
    }
}

} // verus!
