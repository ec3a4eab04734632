//! The client side: its identity and configuration, and the status report it
//! sends after each run of its command.

use crate::shared::{MessageType, MonamiMessage, MonamiStatusMessage, StatusView};
use vstd::prelude::*;
use vstd::utf8::{decode_utf8, valid_utf8};

verus! {

/// A lower-case hexadecimal digit.
pub open spec fn is_lower_hex(c: char) -> bool {
    ('0' <= c && c <= '9') || ('a' <= c && c <= 'f')
}

/// The hyphenated text form of a random (version 4) UUID: 36 characters, with
/// hyphens at positions 8, 13, 18 and 23, lower-case hexadecimal digits
/// elsewhere, the version digit `4` at position 14 and a variant digit of
/// `8`, `9`, `a` or `b` at position 19.
pub open spec fn is_v4_uuid_text(s: Seq<char>) -> bool {
    &&& s.len() == 36
    &&& forall|i: int|
        0 <= i < 36 ==> if i == 8 || i == 13 || i == 18 || i == 23 {
            #[trigger] s[i] == '-'
        } else {
            is_lower_hex(s[i])
        }
    &&& s[14] == '4'
    &&& s[19] == '8' || s[19] == '9' || s[19] == 'a' || s[19] == 'b'
}

/// Calls `uuid::Uuid::new_v4` and formats it with `to_hyphenated` and
/// `to_string`. Trusted: the text is the hyphenated form of a version 4 UUID.
/// Which UUID comes back is left open (it is random).
#[verifier::external_body]
fn fresh_client_id() -> (id: String)
    ensures
        is_v4_uuid_text(id@),
{
    uuid::Uuid::new_v4().to_hyphenated().to_string()
}

/// Calls `hostname::get_hostname`. Nothing is stated of the result: it
/// depends on the machine.
#[verifier::external_body]
fn local_hostname() -> (name: Option<String>) {
    hostname::get_hostname()
}

/// The text that `String::from_utf8_lossy` makes of `bytes`.
pub uninterp spec fn lossy_text(bytes: Seq<u8>) -> Seq<char>;

/// The text that `str::trim` leaves of `text`.
pub uninterp spec fn trimmed(text: Seq<char>) -> Seq<char>;

/// Calls `String::from_utf8_lossy`. Trusted, as std documents it: the text is
/// `lossy_text` of the bytes, and valid UTF-8 is decoded unchanged (invalid
/// sequences become U+FFFD, which is left unstated).
#[verifier::external_body]
fn utf8_lossy(bytes: &[u8]) -> (text: String)
    ensures
        text@ == lossy_text(bytes@),
        valid_utf8(bytes@) ==> text@ == decode_utf8(bytes@),
{
    String::from_utf8_lossy(bytes).into_owned()
}

/// `part` is a contiguous part of `whole`.
pub open spec fn is_infix(part: Seq<char>, whole: Seq<char>) -> bool {
    exists|i: int, j: int| 0 <= i <= j <= whole.len() && part == whole.subrange(i, j)
}

/// Calls `str::trim`. Trusted, as std documents it: the result is `trimmed`
/// of the text and a contiguous part of it (which leading and trailing
/// characters count as whitespace is left unstated).
#[verifier::external_body]
fn trim_whitespace(text: &str) -> (trimmed_text: String)
    ensures
        trimmed_text@ == trimmed(text@),
        is_infix(trimmed_text@, text@),
{
    text.trim().to_owned()
}

/// The text that a run of the command printed, as it goes into a report: the
/// bytes read as UTF-8 (invalid sequences replaced), with surrounding
/// whitespace removed.
pub fn command_output(stdout: &[u8]) -> (output: String)
    ensures
        output@ == trimmed(lossy_text(stdout@)),
        is_infix(output@, lossy_text(stdout@)),
        valid_utf8(stdout@) ==> output@ == trimmed(decode_utf8(stdout@)),
{
    let text = utf8_lossy(stdout);
    trim_whitespace(text.as_str())
}

/// A client: its id and host name, the server it reports to, the shared
/// secret, the reporting interval in seconds, the command it runs and the tag
/// of its reports.
pub struct MonamiClient {
    id: String,
    hostname: String,
    host: String,
    port: String,
    secret: String,
    interval: u64,
    command: String,
    tag: String,
}

/// Mathematical view of a client.
pub struct ClientView {
    pub id: Seq<char>,
    pub hostname: Seq<char>,
    pub host: Seq<char>,
    pub port: Seq<char>,
    pub secret: Seq<char>,
    pub interval: u64,
    pub command: Seq<char>,
    pub tag: Seq<char>,
}

impl View for MonamiClient {
    type V = ClientView;

    closed spec fn view(&self) -> ClientView {
        ClientView {
            id: self.id@,
            hostname: self.hostname@,
            host: self.host@,
            port: self.port@,
            secret: self.secret@,
            interval: self.interval,
            command: self.command@,
            tag: self.tag@,
        }
    }
}

impl MonamiClient {
    /// A client with a fresh random id and the machine's host name (`-` where
    /// it cannot be had).
    pub fn new(
        host: String,
        port: String,
        secret: String,
        interval: u64,
        command: String,
        tag: String,
    ) -> (client: MonamiClient)
        ensures
            is_v4_uuid_text(client@.id),
            client@.host == host@,
            client@.port == port@,
            client@.secret == secret@,
            client@.interval == interval,
            client@.command == command@,
            client@.tag == tag@,
    {
        let id = fresh_client_id();
        let hostname = local_hostname();
        MonamiClient::with_identity(id, hostname, host, port, secret, interval, command, tag)
    }

    /// A client with the given id and host name; `-` stands for a host name
    /// that could not be had.
    pub fn with_identity(
        id: String,
        hostname: Option<String>,
        host: String,
        port: String,
        secret: String,
        interval: u64,
        command: String,
        tag: String,
    ) -> (client: MonamiClient)
        ensures
            client@.id == id@,
            client@.hostname == match hostname {
                Some(h) => h@,
                None => "-"@,
            },
            client@.host == host@,
            client@.port == port@,
            client@.secret == secret@,
            client@.interval == interval,
            client@.command == command@,
            client@.tag == tag@,
    {
        let hostname = match hostname {
            Some(h) => h,
            None => "-".to_owned(),
        };
        MonamiClient { id, hostname, host, port, secret, interval, command, tag }
    }

    /// The report of one run of the command that printed `output`, at time
    /// `timestamp`.
    pub fn status_report(&self, output: String, timestamp: i64) -> (message: MonamiMessage)
        ensures
            message.message_type == MessageType::Status,
            message.message_control is None,
            message.message_status matches Some(s) && s@ == (StatusView {
                hostname: self@.hostname,
                uuid: self@.id,
                tag: self@.tag,
                command: self@.command,
                output: output@,
                timestamp,
            }),
    {
        MonamiMessage::status(
            MonamiStatusMessage {
                hostname: self.hostname.clone(),
                uuid: self.id.clone(),
                tag: self.tag.clone(),
                command: self.command.clone(),
                output,
                timestamp,
            },
        )
    }

    /// The client id.
    pub fn id(&self) -> (id: &String)
        ensures
            id@ == self@.id,
    {
        &self.id
    }

    /// The host name reported with each status.
    pub fn hostname(&self) -> (hostname: &String)
        ensures
            hostname@ == self@.hostname,
    {
        &self.hostname
    }

    /// The server's host.
    pub fn host(&self) -> (host: &String)
        ensures
            host@ == self@.host,
    {
        &self.host
    }

    /// The server's port.
    pub fn port(&self) -> (port: &String)
        ensures
            port@ == self@.port,
    {
        &self.port
    }

    /// The shared secret.
    pub fn secret(&self) -> (secret: &String)
        ensures
            secret@ == self@.secret,
    {
        &self.secret
    }

    /// Seconds between two runs of the command.
    pub fn interval(&self) -> (interval: u64)
        ensures
            interval == self@.interval,
    {
        self.interval
    }

    /// The command that the client runs.
    pub fn command(&self) -> (command: &String)
        ensures
            command@ == self@.command,
    {
        &self.command
    }

    /// The tag of the client's reports.
    pub fn tag(&self) -> (tag: &String)
        ensures
            tag@ == self@.tag,
    {
        &self.tag
    }
}

} // verus!
