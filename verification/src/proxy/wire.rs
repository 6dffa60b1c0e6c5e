//! A tunnel on the wire: what is sent and what is made of a reply, in terms of the
//! characters and bytes themselves.

use vstd::prelude::*;
use vstd::utf8::encode_utf8;
use crate::proxy::{
    connect_request, head_ends, verdict, CreateTunnelErr, Event, IoError, Occurrence, Progress,
    Stage, Step, Tunnel, Verdict,
};
use crate::proxy::laws::{
    begun, blank_line, lemma_ascii, lemma_blank_at, lemma_line_breaks, only_success_opens, reply_in,
};
use crate::text::{decimal, occurs_at, optional_text};

verus! {

/// What replies begin with, as bytes.
proof fn lemma_status_bytes()
    ensures
        encode_utf8("HTTP/1.1 2"@) == seq![72u8, 84, 84, 80, 47, 49, 46, 49, 32, 50],
        encode_utf8("HTTP/1.0 2"@) == seq![72u8, 84, 84, 80, 47, 49, 46, 48, 32, 50],
        encode_utf8("HTTP/1.1 407"@) == seq![72u8, 84, 84, 80, 47, 49, 46, 49, 32, 52, 48, 55],
{
    reveal_strlit("HTTP/1.1 2");
    reveal_strlit("HTTP/1.0 2");
    reveal_strlit("HTTP/1.1 407");
    lemma_ascii("HTTP/1.1 2"@);
    lemma_ascii("HTTP/1.0 2"@);
    lemma_ascii("HTTP/1.1 407"@);
    assert(encode_utf8("HTTP/1.1 2"@) =~= seq![72u8, 84, 84, 80, 47, 49, 46, 49, 32, 50]);
    assert(encode_utf8("HTTP/1.0 2"@) =~= seq![72u8, 84, 84, 80, 47, 49, 46, 48, 32, 50]);
    assert(encode_utf8("HTTP/1.1 407"@) =~= seq![
        72u8, 84, 84, 80, 47, 49, 46, 49, 32, 52, 48, 55,
    ]);
}

/// The end of a head, as bytes.
proof fn lemma_head_ends_bytes(reply: Seq<u8>)
    ensures
        head_ends(reply) <==> exists|i: int|
            0 <= i && i + 3 < reply.len() && #[trigger] reply[i] == 13 && reply[i + 1] == 10
                && reply[i + 2] == 13 && reply[i + 3] == 10,
{
    lemma_line_breaks();
    if head_ends(reply) {
        let i = choose|i: int| occurs_at(blank_line(), reply, i);
        lemma_blank_at(reply, i);
    }
    if exists|i: int|
        0 <= i && i + 3 < reply.len() && #[trigger] reply[i] == 13 && reply[i + 1] == 10 && reply[i
            + 2] == 13 && reply[i + 3] == 10 {
        let i = choose|i: int|
            0 <= i && i + 3 < reply.len() && #[trigger] reply[i] == 13 && reply[i + 1] == 10
                && reply[i + 2] == 13 && reply[i + 3] == 10;
        lemma_blank_at(reply, i);
        assert(occurs_at(blank_line(), reply, i));
    }
}

/// The verdict on a reply, byte by byte. A reply that begins with `HTTP/1.1 2` or
/// `HTTP/1.0 2` is a success, and is complete with two line breaks in a row, which
/// come within 8192 bytes. One that begins with `HTTP/1.1 407` demands credentials.
/// All others are refusals.
pub proof fn verdict_in_bytes(reply: Seq<u8>)
    ensures
        ({
            let success = {
                ||| seq![72u8, 84, 84, 80, 47, 49, 46, 49, 32, 50].is_prefix_of(reply)
                ||| seq![72u8, 84, 84, 80, 47, 49, 46, 48, 32, 50].is_prefix_of(reply)
            };
            let demand = seq![72u8, 84, 84, 80, 47, 49, 46, 49, 32, 52, 48, 55].is_prefix_of(reply);
            let complete = exists|i: int|
                0 <= i && i + 3 < reply.len() && #[trigger] reply[i] == 13 && reply[i + 1] == 10
                    && reply[i + 2] == 13 && reply[i + 3] == 10;
            let v = verdict(reply);
            &&& v == Verdict::Established <==> success && complete
            &&& v == Verdict::Incomplete <==> success && !complete && reply.len() < 8192
            &&& v == Verdict::Refused(CreateTunnelErr::ProxyHeadersTooLong) <==> success
                && !complete && reply.len() >= 8192
            &&& v == Verdict::Refused(CreateTunnelErr::ProxyAuthenticationRequired) <==> demand
            &&& v == Verdict::Refused(CreateTunnelErr::Unsuccessful) <==> !success && !demand
        }),
{
    lemma_status_bytes();
    lemma_head_ends_bytes(reply);
    let a = seq![72u8, 84, 84, 80, 47, 49, 46, 49, 32, 50];
    let b = seq![72u8, 84, 84, 80, 47, 49, 46, 48, 32, 50];
    let d = seq![72u8, 84, 84, 80, 47, 49, 46, 49, 32, 52, 48, 55];
    if d.is_prefix_of(reply) {
        assert(d[9] == reply[9]);
        assert(a.is_prefix_of(reply) ==> a[9] == reply[9]);
        assert(b.is_prefix_of(reply) ==> b[9] == reply[9]);
    }
}

/// A success whose head has come in to the end opens the tunnel, whatever else the
/// reply holds.
pub proof fn complete_success_opens<E>(got: Seq<u8>, data: Seq<u8>, i: int)
    requires
        data.len() > 0,
        (got + data).len() >= 10,
        (got + data).take(7) == seq![72u8, 84, 84, 80, 47, 49, 46],
        (got + data)[7] == 48 || (got + data)[7] == 49,
        (got + data)[8] == 32,
        (got + data)[9] == 50,
        0 <= i,
        i + 3 < (got + data).len(),
        (got + data)[i] == 13,
        (got + data)[i + 1] == 10,
        (got + data)[i + 2] == 13,
        (got + data)[i + 3] == 10,
    ensures
        verdict(got + data) == Verdict::Established,
        Stage::Receiving(got).after(Occurrence::<E>::Received(data)) == Progress::<E>::Done(Ok(())),
{
    let reply = got + data;
    let a = seq![72u8, 84, 84, 80, 47, 49, 46, 49, 32, 50];
    let b = seq![72u8, 84, 84, 80, 47, 49, 46, 48, 32, 50];
    let t = reply.take(7);
    assert forall|k: int| 0 <= k < 7 implies reply[k] == #[trigger] t[k] by {}
    assert(reply[0] == t[0] && reply[1] == t[1] && reply[2] == t[2] && reply[3] == t[3] && reply[4]
        == t[4] && reply[5] == t[5] && reply[6] == t[6]);
    if reply[7] == 49 {
        assert(reply.take(10) =~= a);
    } else {
        assert(reply.take(10) =~= b);
    }
    verdict_in_bytes(reply);
}

/// What a read brings about, byte by byte of all that has come in with it; see
/// [`verdict_in_bytes`].
pub proof fn reads_in_bytes<E>(got: Seq<u8>, data: Seq<u8>)
    requires
        data.len() > 0,
    ensures
        ({
            let reply = got + data;
            let success = {
                ||| seq![72u8, 84, 84, 80, 47, 49, 46, 49, 32, 50].is_prefix_of(reply)
                ||| seq![72u8, 84, 84, 80, 47, 49, 46, 48, 32, 50].is_prefix_of(reply)
            };
            let demand = seq![72u8, 84, 84, 80, 47, 49, 46, 49, 32, 52, 48, 55].is_prefix_of(reply);
            let complete = exists|i: int|
                0 <= i && i + 3 < reply.len() && #[trigger] reply[i] == 13 && reply[i + 1] == 10
                    && reply[i + 2] == 13 && reply[i + 3] == 10;
            let next = Stage::Receiving(got).after(Occurrence::<E>::Received(data));
            &&& next == Progress::<E>::Done(Ok(())) <==> success && complete
            &&& next == Progress::<E>::Underway(Stage::Receiving(reply)) <==> success && !complete
                && reply.len() < 8192
            &&& next == Progress::<E>::Done(
                Err(IoError::Other(CreateTunnelErr::ProxyHeadersTooLong)),
            ) <==> success && !complete && reply.len() >= 8192
            &&& next == Progress::<E>::Done(
                Err(IoError::Other(CreateTunnelErr::ProxyAuthenticationRequired)),
            ) <==> demand
            &&& next == Progress::<E>::Done(Err(IoError::Other(CreateTunnelErr::Unsuccessful)))
                <==> !success && !demand
        }),
{
    verdict_in_bytes(got + data);
}

/// What all other events bring about.
pub proof fn other_events<E>(stage: Stage, got: Seq<u8>, err: E)
    ensures
        Stage::Sending.after(Occurrence::<E>::Written) == Progress::<E>::Underway(
            Stage::Receiving(Seq::empty()),
        ),
        Stage::Receiving(got).after(Occurrence::<E>::Received(Seq::empty())) == Progress::<E>::Done(
            Err(IoError::Other(CreateTunnelErr::Unsuccessful)),
        ),
        stage.after(Occurrence::Failed(err)) == Progress::Done(Err(IoError::Transport(err))),
{
}

/// A tunnel takes in that the request was sent while it is being sent, any bytes of a
/// reply up to 8192 in all after that, and a failure at any time.
pub proof fn events_that_can_happen<E>(stage: Stage, got: Seq<u8>, data: Seq<u8>, err: E)
    ensures
        Stage::Sending.admits(Occurrence::<E>::Written),
        Stage::Receiving(got).admits(Occurrence::<E>::Received(data)) <==> got.len() + data.len()
            <= 8192,
        stage.admits(Occurrence::Failed(err)),
{
}

/// A step says of itself what it is, and a read that it asks for is for what is left
/// of 8192 bytes, which is never nothing.
pub proof fn steps_say_what_they_are<E>(step: Step<E>, tunnel: Tunnel, max: usize)
    ensures
        step matches Step::Done(outcome) ==> step@ == Progress::Done(outcome),
        step == (Step::<E>::Read { tunnel, max }) ==> step@ == Progress::<E>::Underway(tunnel@),
        step == (Step::<E>::Read { tunnel, max }) && step.wf() ==> {
            &&& tunnel.wf()
            &&& tunnel@ matches Stage::Receiving(got)
            &&& got.len() + max == 8192
            &&& got.len() < 8192
        },
{
}

/// An event says of itself what it is.
pub proof fn events_say_what_they_are<E>(event: Event<E>)
    ensures
        event is Written ==> event@ == Occurrence::<E>::Written,
        event matches Event::Received(data) ==> event@ == Occurrence::<E>::Received(data@),
        event matches Event::Failed(err) ==> event@ == Occurrence::Failed(err),
{
}

/// A tunnel that is open was opened by a reply of at least ten bytes that begins with
/// `HTTP/1.1 2` or `HTTP/1.0 2` and holds two line breaks in a row, within 8192 bytes.
pub proof fn open_means_success_in_bytes<E>(events: Seq<Occurrence<E>>)
    requires
        begun::<E>().admits_all(events),
        begun::<E>().run(events) == Progress::<E>::Done(Ok(())),
    ensures
        ({
            let reply = reply_in(events);
            &&& 10 <= reply.len() <= 8192
            &&& reply[0] == 72 && reply[1] == 84 && reply[2] == 84 && reply[3] == 80 && reply[4]
                == 47 && reply[5] == 49 && reply[6] == 46
            &&& reply[7] == 49 || reply[7] == 48
            &&& reply[8] == 32
            &&& reply[9] == 50
            &&& exists|i: int|
                0 <= i && i + 3 < reply.len() && #[trigger] reply[i] == 13 && reply[i + 1] == 10
                    && reply[i + 2] == 13 && reply[i + 3] == 10
        }),
{
    let reply = reply_in(events);
    only_success_opens(events);
    lemma_status_bytes();
    lemma_head_ends_bytes(reply);
    let a = seq![72u8, 84, 84, 80, 47, 49, 46, 49, 32, 50];
    let b = seq![72u8, 84, 84, 80, 47, 49, 46, 48, 32, 50];
    let s = if a.is_prefix_of(reply) { a } else { b };
    assert(s.is_prefix_of(reply));
    assert forall|k: int| 0 <= k < 10 implies reply[k] == #[trigger] s[k] by {}
    assert(reply[0] == s[0] && reply[1] == s[1] && reply[2] == s[2] && reply[3] == s[3] && reply[4]
        == s[4] && reply[5] == s[5] && reply[6] == s[6] && reply[7] == s[7] && reply[8] == s[8]
        && reply[9] == s[9]);
}

/// The request in full, with credentials and without.
pub proof fn request_in_full(host: Seq<char>, port: u16, auth: Option<String>)
    ensures
        auth is None ==> connect_request(host, port, optional_text(auth)) == "CONNECT "@ + host + ":"@
            + decimal(port as nat) + " HTTP/1.1\r\nHost: "@ + host + ":"@ + decimal(port as nat)
            + "\r\n\r\n"@,
        auth matches Some(value) ==> connect_request(host, port, optional_text(auth)) == "CONNECT "@
            + host + ":"@ + decimal(port as nat) + " HTTP/1.1\r\nHost: "@ + host + ":"@ + decimal(
            port as nat,
        ) + "\r\nProxy-Authorization: Basic "@ + value@ + "\r\n\r\n"@,
{
    reveal_strlit(" HTTP/1.1\r\n");
    reveal_strlit("Host: ");
    reveal_strlit(" HTTP/1.1\r\nHost: ");
    reveal_strlit("\r\n");
    reveal_strlit("\r\n\r\n");
    reveal_strlit("Proxy-Authorization: Basic ");
    reveal_strlit("\r\nProxy-Authorization: Basic ");
    let d = decimal(port as nat);
    let head = "CONNECT "@ + host + ":"@ + d + " HTTP/1.1\r\nHost: "@ + host + ":"@ + d;
    assert(" HTTP/1.1\r\n"@ + "Host: "@ =~= " HTTP/1.1\r\nHost: "@);
    assert("\r\n"@ + "\r\n"@ =~= "\r\n\r\n"@);
    assert("\r\n"@ + "Proxy-Authorization: Basic "@ =~= "\r\nProxy-Authorization: Basic "@);
    match auth {
        None => {
            assert(connect_request(host, port, optional_text(auth)) =~= head + ("\r\n"@ + "\r\n"@));
        },
        Some(value) => {
            assert(connect_request(host, port, optional_text(auth)) =~= head + ("\r\n"@
                + "Proxy-Authorization: Basic "@) + value@ + ("\r\n"@ + "\r\n"@));
        },
    }
}

/// What each error says.
pub proof fn errors_in_full()
    ensures
        CreateTunnelErr::ProxyHeadersTooLong.text() == "Proxy headers too long for tunnel"@,
        CreateTunnelErr::ProxyAuthenticationRequired.text() == "Proxy authentication required"@,
        CreateTunnelErr::Unsuccessful.text() == "Unsuccessful tunnel"@,
{
}

} // verus!
