//! The messages that clients, the control command and the server exchange.

use vstd::prelude::*;
use vstd::utf8::{decode_utf8, encode_utf8};

verus! {

/// A report of a client: the output of its command at a point in time.
#[derive(Debug)]
pub struct MonamiStatusMessage {
    pub hostname: String,
    pub uuid: String,
    pub tag: String,
    pub command: String,
    pub output: String,
    pub timestamp: i64,
}

/// Mathematical view of a status message.
pub struct StatusView {
    pub hostname: Seq<char>,
    pub uuid: Seq<char>,
    pub tag: Seq<char>,
    pub command: Seq<char>,
    pub output: Seq<char>,
    pub timestamp: i64,
}

impl View for MonamiStatusMessage {
    type V = StatusView;

    open spec fn view(&self) -> StatusView {
        StatusView {
            hostname: self.hostname@,
            uuid: self.uuid@,
            tag: self.tag@,
            command: self.command@,
            output: self.output@,
            timestamp: self.timestamp,
        }
    }
}

impl MonamiStatusMessage {
    /// A copy of this message.
    pub fn duplicate(&self) -> (copy: MonamiStatusMessage)
        ensures
            copy@ == self@,
    {
        MonamiStatusMessage {
            hostname: self.hostname.clone(),
            uuid: self.uuid.clone(),
            tag: self.tag.clone(),
            command: self.command.clone(),
            output: self.output.clone(),
            timestamp: self.timestamp,
        }
    }
}

/// A request of the control command: a function name and its parameters as
/// name-value pairs. The JSON form of the parameters is an object, so a
/// received request names each parameter once; where a name occurs more than
/// once, `parameter` takes the first.
#[derive(Debug)]
pub struct MonamiControlMessage {
    pub function: String,
    pub parameters: Vec<(String, String)>,
}

/// Mathematical view of a control message.
pub struct ControlView {
    pub function: Seq<char>,
    pub parameters: Seq<(Seq<char>, Seq<char>)>,
}

impl View for MonamiControlMessage {
    type V = ControlView;

    open spec fn view(&self) -> ControlView {
        ControlView {
            function: self.function@,
            parameters: self.parameters@.map_values(|p: (String, String)| (p.0@, p.1@)),
        }
    }
}

/// The value of the parameter named `key`, if there is one (the first one).
pub open spec fn param_lookup(params: Seq<(Seq<char>, Seq<char>)>, key: Seq<char>) -> Option<
    Seq<char>,
>
    decreases params.len(),
{
    if params.len() == 0 {
        None
    } else if params[0].0 == key {
        Some(params[0].1)
    } else {
        param_lookup(params.drop_first(), key)
    }
}

impl MonamiControlMessage {
    /// The value of the parameter named `key`.
    pub fn parameter(&self, key: &str) -> (value: Option<&String>)
        ensures
            match value {
                Some(v) => param_lookup(self@.parameters, key@) == Some(v@),
                None => param_lookup(self@.parameters, key@) is None,
            },
    {
        let ghost params = self@.parameters;
        let n = self.parameters.len();
        assert(params.skip(0) =~= params);
        let mut i: usize = 0;
        while i < n
            invariant
                i <= n,
                n == params.len(),
                params == self@.parameters,
                param_lookup(params, key@) == param_lookup(params.skip(i as int), key@),
            decreases n - i,
        {
            let entry = &self.parameters[i];
            if str_equal(entry.0.as_str(), key) {
                return Some(&entry.1);
            }
            assert(params.skip(i as int).drop_first() =~= params.skip(i + 1));
            i = i + 1;
        }
        None
    }
}

/// The kind of a message.
#[derive(Clone, Copy, Debug, PartialEq, Eq, Structural)]
pub enum MessageType {
    Invalid,
    Status,
    Control,
}

/// A message as it travels between the programs: its kind and the part that
/// belongs to it.
#[derive(Debug)]
pub struct MonamiMessage {
    pub message_type: MessageType,
    pub message_status: Option<MonamiStatusMessage>,
    pub message_control: Option<MonamiControlMessage>,
}

impl MonamiMessage {
    /// The message that stands for a request that could not be read.
    pub fn invalid() -> (m: MonamiMessage)
        ensures
            m.message_type == MessageType::Invalid,
            m.message_status is None,
            m.message_control is None,
    {
        MonamiMessage { message_type: MessageType::Invalid, message_status: None, message_control: None }
    }

    /// A status report.
    pub fn status(status: MonamiStatusMessage) -> (m: MonamiMessage)
        ensures
            m.message_type == MessageType::Status,
            m.message_status == Some(status),
            m.message_control is None,
    {
        MonamiMessage {
            message_type: MessageType::Status,
            message_status: Some(status),
            message_control: None,
        }
    }

    /// A control request.
    pub fn control(control: MonamiControlMessage) -> (m: MonamiMessage)
        ensures
            m.message_type == MessageType::Control,
            m.message_status is None,
            m.message_control == Some(control),
    {
        MonamiMessage {
            message_type: MessageType::Control,
            message_status: None,
            message_control: Some(control),
        }
    }
}

/// Whether two strings hold the same characters, decided on their UTF-8 bytes.
pub fn str_equal(a: &str, b: &str) -> (same: bool)
    ensures
        same == (a@ == b@),
{
    broadcast use vstd::utf8::encode_utf8_decode_utf8;

    let x = a.as_bytes();
    let y = b.as_bytes();
    if x.len() != y.len() {
        return false;
    }
    let n = x.len();
    let mut i: usize = 0;
    while i < n
        invariant
            i <= n,
            n == x@.len(),
            n == y@.len(),
            x@ == encode_utf8(a@),
            y@ == encode_utf8(b@),
            forall|j: int| 0 <= j < i ==> x@[j] == y@[j],
        decreases n - i,
    {
        if x[i] != y[i] {
            return false;
        }
        i = i + 1;
    }
    assert(x@ =~= y@);
    assert(decode_utf8(encode_utf8(a@)) == decode_utf8(encode_utf8(b@)));
    true
}

} // verus!
