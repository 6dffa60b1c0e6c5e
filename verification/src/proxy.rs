//! A tunnel through an HTTP proxy: the `CONNECT` request, and what becomes of
//! the connection as the proxy answers.
//!
//! The machine does no I/O. [`tunnel`] gives the bytes to send; whoever owns the
//! connection sends them, and from then on tells [`Tunnel::advance`] what
//! happened and does what the returned [`Step`] asks for.

use vstd::prelude::*;
use vstd::utf8::encode_utf8;
use crate::text::{
    contains, decimal, lemma_encode_concat, occurs, optional_text, put_decimal, put_str, starts_with,
};

pub mod laws;
pub mod wire;

verus! {

/// The most bytes of a reply that are looked at. A reply whose head is not
/// complete within them is refused.
pub const HEAD_LIMIT: usize = 8192;

/// Why a proxy did not open a tunnel.
#[derive(Clone, Copy, PartialEq, Eq, Structural)]
pub enum CreateTunnelErr {
    /// The reply was a success, but its head did not end within the limit.
    ProxyHeadersTooLong,
    /// The proxy wants credentials, or other ones than it was given.
    ProxyAuthenticationRequired,
    /// The proxy closed the connection, or answered anything else.
    Unsuccessful,
}

impl CreateTunnelErr {
    /// What the error says.
    pub open spec fn text(self) -> Seq<char> {
        match self {
            CreateTunnelErr::ProxyHeadersTooLong => "Proxy headers too long for tunnel"@,
            CreateTunnelErr::ProxyAuthenticationRequired => "Proxy authentication required"@,
            CreateTunnelErr::Unsuccessful => "Unsuccessful tunnel"@,
        }
    }

    /// The text of the error, for people and for logs alike.
    pub fn fmt(&self) -> (text: String)
        ensures
            text@ == self.text(),
    {
        match self {
            CreateTunnelErr::ProxyHeadersTooLong => "Proxy headers too long for tunnel".to_owned(),
            CreateTunnelErr::ProxyAuthenticationRequired => {
                "Proxy authentication required".to_owned()
            },
            CreateTunnelErr::Unsuccessful => "Unsuccessful tunnel".to_owned(),
        }
    }
}

/// Why a tunnel was not opened, where `E` is the connection's own error.
pub enum IoError<E> {
    /// The connection failed.
    Transport(E),
    /// The connection held, but the proxy opened no tunnel. As an I/O error this
    /// is one of the kind "other".
    Other(CreateTunnelErr),
}

/// The I/O error that stands for a refusal.
pub fn other_io_error<E>(err: CreateTunnelErr) -> (io: IoError<E>)
    ensures
        io == IoError::<E>::Other(err),
{
    IoError::Other(err)
}

// The request.

/// `host:port`, as the request names its target.
pub open spec fn target(host: Seq<char>, port: u16) -> Seq<char> {
    host + ":"@ + decimal(port as nat)
}

/// The header line that carries the credentials, where there are any.
pub open spec fn credentials_line(auth: Option<Seq<char>>) -> Seq<char> {
    match auth {
        Some(value) => "Proxy-Authorization: Basic "@ + value + "\r\n"@,
        None => Seq::empty(),
    }
}

/// The request that asks a proxy for a tunnel to `host:port`.
pub open spec fn connect_request(host: Seq<char>, port: u16, auth: Option<Seq<char>>) -> Seq<char> {
    "CONNECT "@ + target(host, port) + " HTTP/1.1\r\n"@
        + "Host: "@ + target(host, port) + "\r\n"@
        + credentials_line(auth)
        + "\r\n"@
}

// The reply.

/// The reply begins as one of status 2xx does.
pub open spec fn accepts(reply: Seq<u8>) -> bool {
    ||| encode_utf8("HTTP/1.1 2"@).is_prefix_of(reply)
    ||| encode_utf8("HTTP/1.0 2"@).is_prefix_of(reply)
}

/// The reply begins as one of status 407 does.
pub open spec fn asks_for_credentials(reply: Seq<u8>) -> bool {
    encode_utf8("HTTP/1.1 407"@).is_prefix_of(reply)
}

/// The reply holds the blank line that ends a head.
pub open spec fn head_ends(reply: Seq<u8>) -> bool {
    occurs(encode_utf8("\r\n\r\n"@), reply)
}

/// What a reply means, as far as it has come in.
pub enum Verdict {
    /// More of it is needed.
    Incomplete,
    /// The tunnel is open.
    Established,
    /// There will be no tunnel.
    Refused(CreateTunnelErr),
}

/// The verdict on the bytes of a reply that have come in.
pub open spec fn verdict(reply: Seq<u8>) -> Verdict {
    if accepts(reply) {
        if head_ends(reply) {
            Verdict::Established
        } else if reply.len() >= HEAD_LIMIT {
            Verdict::Refused(CreateTunnelErr::ProxyHeadersTooLong)
        } else {
            Verdict::Incomplete
        }
    } else if asks_for_credentials(reply) {
        Verdict::Refused(CreateTunnelErr::ProxyAuthenticationRequired)
    } else {
        Verdict::Refused(CreateTunnelErr::Unsuccessful)
    }
}

/// Judges the bytes of a reply that have come in.
pub fn judge(reply: &[u8]) -> (v: Verdict)
    ensures
        v == verdict(reply@),
{
    if starts_with(reply, "HTTP/1.1 2".as_bytes()) || starts_with(reply, "HTTP/1.0 2".as_bytes()) {
        if contains(reply, "\r\n\r\n".as_bytes()) {
            Verdict::Established
        } else if reply.len() >= HEAD_LIMIT {
            Verdict::Refused(CreateTunnelErr::ProxyHeadersTooLong)
        } else {
            Verdict::Incomplete
        }
    } else if starts_with(reply, "HTTP/1.1 407".as_bytes()) {
        Verdict::Refused(CreateTunnelErr::ProxyAuthenticationRequired)
    } else {
        Verdict::Refused(CreateTunnelErr::Unsuccessful)
    }
}

// The machine.

/// What happened on the connection.
pub enum Event<E> {
    /// The request was sent in full.
    Written,
    /// A read gave these bytes; none at all means that the proxy closed the
    /// connection.
    Received(Vec<u8>),
    /// A write or a read failed.
    Failed(E),
}

/// An [`Event`], with its bytes as a sequence.
pub enum Occurrence<E> {
    Written,
    Received(Seq<u8>),
    Failed(E),
}

impl<E> View for Event<E> {
    type V = Occurrence<E>;

    open spec fn view(&self) -> Occurrence<E> {
        match *self {
            Event::Written => Occurrence::Written,
            Event::Received(data) => Occurrence::Received(data@),
            Event::Failed(err) => Occurrence::Failed(err),
        }
    }
}

/// Where a tunnel that is being opened stands.
pub enum Stage {
    /// The request is being sent.
    Sending,
    /// The request is sent, and this much of the reply has come in.
    Receiving(Seq<u8>),
}

/// How far the opening of a tunnel has come.
pub enum Progress<E> {
    /// It goes on from this stage.
    Underway(Stage),
    /// The tunnel is open, or there will be none.
    Done(Result<(), IoError<E>>),
}

impl Stage {
    /// `event` is one that can happen at this stage. A read brings no more than
    /// what is left of the limit.
    pub open spec fn admits<E>(self, event: Occurrence<E>) -> bool {
        match (self, event) {
            (_, Occurrence::Failed(_)) => true,
            (Stage::Sending, Occurrence::Written) => true,
            (Stage::Receiving(got), Occurrence::Received(data)) => {
                got.len() + data.len() <= HEAD_LIMIT
            },
            _ => false,
        }
    }

    /// What follows when `event` happens at this stage.
    pub open spec fn after<E>(self, event: Occurrence<E>) -> Progress<E> {
        match (self, event) {
            (_, Occurrence::Failed(err)) => Progress::Done(Err(IoError::Transport(err))),
            (Stage::Sending, Occurrence::Written) => {
                Progress::Underway(Stage::Receiving(Seq::empty()))
            },
            (Stage::Receiving(got), Occurrence::Received(data)) => {
                if data.len() == 0 {
                    Progress::Done(Err(IoError::Other(CreateTunnelErr::Unsuccessful)))
                } else {
                    Progress::judged(got + data)
                }
            },
            _ => Progress::Underway(self),
        }
    }
}

impl<E> Progress<E> {
    /// The state once this much of a reply has come in.
    pub open spec fn judged(reply: Seq<u8>) -> Progress<E> {
        match verdict(reply) {
            Verdict::Incomplete => Progress::Underway(Stage::Receiving(reply)),
            Verdict::Established => Progress::Done(Ok(())),
            Verdict::Refused(err) => Progress::Done(Err(IoError::Other(err))),
        }
    }
}

/// A tunnel that is being opened.
pub struct Tunnel {
    sent: bool,
    reply: Vec<u8>,
}

impl View for Tunnel {
    type V = Stage;

    closed spec fn view(&self) -> Stage {
        if self.sent {
            Stage::Receiving(self.reply@)
        } else {
            Stage::Sending
        }
    }
}

/// What to do next.
pub enum Step<E> {
    /// Read at most `max` bytes, and hand what came to `tunnel`.
    Read { tunnel: Tunnel, max: usize },
    /// Nothing: the tunnel is open, or there will be none.
    Done(Result<(), IoError<E>>),
}

impl<E> View for Step<E> {
    type V = Progress<E>;

    open spec fn view(&self) -> Progress<E> {
        match *self {
            Step::Read { tunnel, max } => Progress::Underway(tunnel@),
            Step::Done(outcome) => Progress::Done(outcome),
        }
    }
}

impl<E> Step<E> {
    /// A read is for at least one byte, and for exactly what is left of the limit.
    pub open spec fn wf(self) -> bool {
        match self {
            Step::Read { tunnel, max } => {
                &&& tunnel.wf()
                &&& max > 0
                &&& tunnel@ matches Stage::Receiving(got)
                &&& got.len() + max == HEAD_LIMIT
            },
            Step::Done(_) => true,
        }
    }
}

impl Tunnel {
    /// There is room for more of the reply.
    pub open spec fn wf(self) -> bool {
        self@ matches Stage::Receiving(got) ==> got.len() < HEAD_LIMIT
    }

    /// Takes in what happened, and says what to do next.
    pub fn advance<E>(self, event: Event<E>) -> (step: Step<E>)
        requires
            self.wf(),
            self@.admits(event@),
        ensures
            step.wf(),
            step@ == self@.after(event@),
    {
        match event {
            Event::Failed(err) => Step::Done(Err(IoError::Transport(err))),
            Event::Written => {
                let tunnel: Tunnel = Tunnel { sent: true, reply: Vec::new() };
                Step::Read { tunnel, max: HEAD_LIMIT }
            },
            Event::Received(data) => {
                if data.len() == 0 {
                    return Step::Done(Err(other_io_error(CreateTunnelErr::Unsuccessful)));
                }
                let mut reply: Vec<u8> = self.reply;
                reply.extend_from_slice(data.as_slice());
                assert(reply@ =~= self.reply@ + data@);
                match judge(reply.as_slice()) {
                    Verdict::Established => Step::Done(Ok(())),
                    Verdict::Refused(err) => Step::Done(Err(other_io_error(err))),
                    Verdict::Incomplete => {
                        let max: usize = HEAD_LIMIT - reply.len();
                        Step::Read { tunnel: Tunnel { sent: true, reply }, max }
                    },
                }
            },
        }
    }
}

/// Appends `host:port`.
fn put_target(out: &mut Vec<u8>, host: &str, port: u16)
    ensures
        final(out)@ == old(out)@ + encode_utf8(target(host@, port)),
{
    put_str(out, host);
    put_str(out, ":");
    put_decimal(out, port);
    proof {
        lemma_encode_concat(host@, ":"@);
        lemma_encode_concat(host@ + ":"@, decimal(port as nat));
        assert(out@ =~= old(out)@ + encode_utf8(target(host@, port)));
    }
}

/// Appends the header line that carries the credentials, where there are any.
fn put_credentials(out: &mut Vec<u8>, auth: &Option<String>)
    ensures
        final(out)@ == old(out)@ + encode_utf8(credentials_line(optional_text(*auth))),
{
    match auth {
        Some(value) => {
            put_str(out, "Proxy-Authorization: Basic ");
            put_str(out, value.as_str());
            put_str(out, "\r\n");
            proof {
                let name = "Proxy-Authorization: Basic "@;
                lemma_encode_concat(name, value@);
                lemma_encode_concat(name + value@, "\r\n"@);
                assert(out@ =~= old(out)@ + encode_utf8(name + value@ + "\r\n"@));
            }
        },
        None => {
            assert(out@ =~= old(out)@ + encode_utf8(Seq::empty()));
        },
    }
}

/// Begins to open a tunnel to `host:port`. The bytes are the request to send, with
/// the Basic credentials `auth` if there are any.
pub fn tunnel(host: &str, port: u16, auth: Option<String>) -> (begun: (Tunnel, Vec<u8>))
    ensures
        begun.0.wf(),
        begun.0@ == Stage::Sending,
        begun.1@ == encode_utf8(connect_request(host@, port, optional_text(auth))),
{
    let mut req: Vec<u8> = Vec::new();
    put_str(&mut req, "CONNECT ");
    put_target(&mut req, host, port);
    put_str(&mut req, " HTTP/1.1\r\n");
    put_str(&mut req, "Host: ");
    put_target(&mut req, host, port);
    put_str(&mut req, "\r\n");
    put_credentials(&mut req, &auth);
    put_str(&mut req, "\r\n");
    proof {
        let to = target(host@, port);
        let credentials = credentials_line(optional_text(auth));
        let t1 = "CONNECT "@ + to;
        let t2 = t1 + " HTTP/1.1\r\n"@;
        let t3 = t2 + "Host: "@;
        let t4 = t3 + to;
        let t5 = t4 + "\r\n"@;
        let t6 = t5 + credentials;
        lemma_encode_concat("CONNECT "@, to);
        lemma_encode_concat(t1, " HTTP/1.1\r\n"@);
        lemma_encode_concat(t2, "Host: "@);
        lemma_encode_concat(t3, to);
        lemma_encode_concat(t4, "\r\n"@);
        lemma_encode_concat(t5, credentials);
        lemma_encode_concat(t6, "\r\n"@);
        assert(req@ =~= encode_utf8(t6 + "\r\n"@));
    }
    (Tunnel { sent: false, reply: Vec::new() }, req)
}

} // verus!
