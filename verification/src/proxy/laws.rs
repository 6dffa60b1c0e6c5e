//! What holds of every tunnel, however its connection behaves.

use vstd::prelude::*;
use vstd::utf8::{char_u32_cast, encode_scalar, encode_utf8, is_ascii_chars, is_ascii_chars_encode_utf8};
use crate::proxy::{
    accepts, asks_for_credentials, connect_request, credentials_line, head_ends, target, verdict,
    CreateTunnelErr, IoError, Occurrence, Progress, Stage, Verdict, HEAD_LIMIT,
};
use crate::text::{decimal, lemma_encode_concat, occurs, occurs_at};

verus! {

// Runs.

impl<E> Progress<E> {
    /// The state that follows when `event` happens. What is done stays done.
    pub open spec fn then_on(self, event: Occurrence<E>) -> Progress<E> {
        match self {
            Progress::Underway(stage) => stage.after(event),
            Progress::Done(outcome) => Progress::Done(outcome),
        }
    }

    /// The state that follows when all of `events` happen, in this order.
    pub open spec fn run(self, events: Seq<Occurrence<E>>) -> Progress<E>
        decreases events.len(),
    {
        if events.len() == 0 {
            self
        } else {
            self.then_on(events[0]).run(events.drop_first())
        }
    }

    /// Each of `events` is one that can happen when it does; nothing happens once
    /// the outcome is known.
    pub open spec fn admits_all(self, events: Seq<Occurrence<E>>) -> bool
        decreases events.len(),
    {
        events.len() == 0 || {
            &&& self matches Progress::Underway(stage)
            &&& stage.admits(events[0])
            &&& stage.after(events[0]).admits_all(events.drop_first())
        }
    }

    /// Each of `events` up to the outcome is one that can happen when it does. What
    /// comes after that does not matter: nobody looks at it.
    pub open spec fn fits(self, events: Seq<Occurrence<E>>) -> bool
        decreases events.len(),
    {
        events.len() > 0 ==> {
            self matches Progress::Underway(stage) ==> {
                &&& stage.admits(events[0])
                &&& stage.after(events[0]).fits(events.drop_first())
            }
        }
    }
}

/// The start of every run.
pub open spec fn begun<E>() -> Progress<E> {
    Progress::Underway(Stage::Sending)
}

/// All that the reads among `events` brought, in order.
pub open spec fn reply_in<E>(events: Seq<Occurrence<E>>) -> Seq<u8>
    decreases events.len(),
{
    if events.len() == 0 {
        Seq::empty()
    } else {
        let rest = reply_in(events.drop_first());
        match events[0] {
            Occurrence::Received(data) => data + rest,
            _ => rest,
        }
    }
}

/// What happens when the request is sent and the proxy's reply comes in by
/// `reads`.
pub open spec fn answered<E>(reads: Seq<Seq<u8>>) -> Seq<Occurrence<E>> {
    seq![Occurrence::Written] + received(reads)
}

/// One event for each of `reads`.
pub open spec fn received<E>(reads: Seq<Seq<u8>>) -> Seq<Occurrence<E>> {
    reads.map_values(|data: Seq<u8>| Occurrence::Received(data))
}

/// Once the outcome of a tunnel is known, nothing that happens changes it.
pub proof fn outcome_is_final<E>(outcome: Result<(), IoError<E>>, events: Seq<Occurrence<E>>)
    ensures
        Progress::Done(outcome).run(events) == Progress::Done(outcome),
    decreases events.len(),
{
    if events.len() > 0 {
        outcome_is_final(outcome, events.drop_first());
    }
}

/// A run that is taken further by one event.
proof fn lemma_run_push<E>(p: Progress<E>, events: Seq<Occurrence<E>>, event: Occurrence<E>)
    ensures
        p.run(events.push(event)) == p.run(events).then_on(event),
    decreases events.len(),
{
    let longer = events.push(event);
    if events.len() == 0 {
        assert(longer.drop_first() =~= Seq::empty());
        assert(p.then_on(event).run(longer.drop_first()) == p.then_on(event));
    } else {
        assert(longer.drop_first() =~= events.drop_first().push(event));
        lemma_run_push(p.then_on(events[0]), events.drop_first(), event);
    }
}

// Replies.

/// The bytes of a text that is plain ASCII.
pub(crate) proof fn lemma_ascii(text: Seq<char>)
    requires
        is_ascii_chars(text),
    ensures
        encode_utf8(text).len() == text.len(),
        forall|i: int| 0 <= i < text.len() ==> #[trigger] encode_utf8(text)[i] == text[i] as u8,
{
    is_ascii_chars_encode_utf8(text);
}

/// The lengths of what replies begin with, and the byte that tells them apart.
proof fn lemma_status_prefixes()
    ensures
        encode_utf8("HTTP/1.1 2"@).len() == 10,
        encode_utf8("HTTP/1.0 2"@).len() == 10,
        encode_utf8("HTTP/1.1 407"@).len() == 12,
        encode_utf8("HTTP/1.1 2"@)[9] == 50,
        encode_utf8("HTTP/1.0 2"@)[9] == 50,
        encode_utf8("HTTP/1.1 407"@)[9] == 52,
{
    reveal_strlit("HTTP/1.1 2");
    reveal_strlit("HTTP/1.0 2");
    reveal_strlit("HTTP/1.1 407");
    lemma_ascii("HTTP/1.1 2"@);
    lemma_ascii("HTTP/1.0 2"@);
    lemma_ascii("HTTP/1.1 407"@);
}

/// What a reply begins with, a longer one begins with too; and what a long
/// enough part of it does not begin with, it does not.
proof fn lemma_prefix(part: Seq<u8>, rest: Seq<u8>, prefix: Seq<u8>)
    ensures
        prefix.is_prefix_of(part) ==> prefix.is_prefix_of(part + rest),
        part.len() >= prefix.len() && prefix.is_prefix_of(part + rest) ==> prefix.is_prefix_of(part),
{
    if part.len() >= prefix.len() {
        assert((part + rest).take(prefix.len() as int) =~= part.take(prefix.len() as int));
    }
}

/// As much of what a proxy sends as there is room for.
pub open spec fn within_limit(stream: Seq<u8>) -> Seq<u8> {
    if stream.len() <= HEAD_LIMIT {
        stream
    } else {
        stream.take(HEAD_LIMIT as int)
    }
}

/// The outcome of a tunnel whose proxy sends `stream` and then closes the
/// connection.
pub open spec fn outcome_of<E>(stream: Seq<u8>) -> Result<(), IoError<E>> {
    match verdict(within_limit(stream)) {
        Verdict::Established => Ok(()),
        Verdict::Refused(err) => Err(IoError::Other(err)),
        Verdict::Incomplete => Err(IoError::Other(CreateTunnelErr::Unsuccessful)),
    }
}

proof fn lemma_accepts(part: Seq<u8>, rest: Seq<u8>)
    ensures
        accepts(part) ==> accepts(part + rest),
        part.len() >= 10 && accepts(part + rest) ==> accepts(part),
        asks_for_credentials(part) ==> asks_for_credentials(part + rest),
        part.len() >= 12 && asks_for_credentials(part + rest) ==> asks_for_credentials(part),
        accepts(part) ==> !asks_for_credentials(part),
{
    lemma_status_prefixes();
    lemma_prefix(part, rest, encode_utf8("HTTP/1.1 2"@));
    lemma_prefix(part, rest, encode_utf8("HTTP/1.0 2"@));
    lemma_prefix(part, rest, encode_utf8("HTTP/1.1 407"@));
    if accepts(part) && asks_for_credentials(part) {
        assert(part[9] == encode_utf8("HTTP/1.1 407"@)[9]);
    }
}

proof fn lemma_head_ends(part: Seq<u8>, rest: Seq<u8>)
    ensures
        head_ends(part) ==> head_ends(part + rest),
{
    let blank = encode_utf8("\r\n\r\n"@);
    if head_ends(part) {
        let i = choose|i: int| occurs_at(blank, part, i);
        assert((part + rest).subrange(i, i + blank.len()) =~= part.subrange(i, i + blank.len()));
        assert(occurs_at(blank, part + rest, i));
    }
}

/// What a part of a stream within the limit shows, all of it within the limit shows.
proof fn lemma_within_limit(part: Seq<u8>, rest: Seq<u8>)
    requires
        part.len() <= HEAD_LIMIT,
    ensures
        accepts(part) ==> accepts(within_limit(part + rest)),
        part.len() >= 10 && accepts(within_limit(part + rest)) ==> accepts(part),
        asks_for_credentials(part) ==> asks_for_credentials(within_limit(part + rest)),
        part.len() >= 12 && asks_for_credentials(within_limit(part + rest))
            ==> asks_for_credentials(part),
        head_ends(part) ==> head_ends(within_limit(part + rest)),
        part.len() == HEAD_LIMIT ==> within_limit(part + rest) == part,
{
    let shown = within_limit(part + rest);
    let tail = shown.skip(part.len() as int);
    assert(shown =~= part + tail);
    lemma_accepts(part, tail);
    lemma_head_ends(part, tail);
}

/// The reply, read on from a part of it that accepts.
proof fn lemma_run_accepted<E>(got: Seq<u8>, reads: Seq<Seq<u8>>)
    requires
        verdict(got) == Verdict::Incomplete,
        forall|i: int| 0 <= i < reads.len() ==> (#[trigger] reads[i]).len() > 0,
        Progress::<E>::Underway(Stage::Receiving(got)).fits(received(reads)),
    ensures
        Progress::<E>::Underway(Stage::Receiving(got)).run(received(reads)) == Progress::<E>::judged(
            within_limit(got + reads.flatten()),
        ),
    decreases reads.len(),
{
    let p = Progress::<E>::Underway(Stage::Receiving(got));
    if reads.len() == 0 {
        assert(received::<E>(reads) =~= Seq::empty());
        assert(got + reads.flatten() =~= got);
    } else {
        let data = reads[0];
        let rest = reads.drop_first();
        let more = got + data;
        assert(reads.flatten() == data + rest.flatten());
        assert(got + reads.flatten() =~= more + rest.flatten());
        assert(received::<E>(reads).drop_first() =~= received::<E>(rest));
        assert(p.then_on(received::<E>(reads)[0]) == Progress::<E>::judged(more));
        assert forall|i: int| 0 <= i < rest.len() implies (#[trigger] rest[i]).len() > 0 by {
            assert(rest[i] == reads[i + 1]);
        }
        lemma_accepts(got, data);
        lemma_within_limit(more, rest.flatten());
        match verdict(more) {
            Verdict::Incomplete => {
                lemma_run_accepted::<E>(more, rest);
            },
            Verdict::Established => {
                outcome_is_final::<E>(Ok(()), received(rest));
            },
            Verdict::Refused(err) => {
                outcome_is_final::<E>(Err(IoError::Other(err)), received(rest));
            },
        }
    }
}

// The laws.

/// It does not matter how what the proxy sends is cut up by the reads that bring
/// it, nor how much it sends: where things stand is the verdict on as much of it as
/// there is room for. A read brings no more than was asked for. The first one is
/// long enough to show the status, where the status is 2xx or 407.
pub proof fn outcome_ignores_chunking<E>(reads: Seq<Seq<u8>>)
    requires
        reads.len() > 0,
        forall|i: int| 0 <= i < reads.len() ==> (#[trigger] reads[i]).len() > 0,
        begun::<E>().fits(answered(reads)),
        accepts(reads.flatten()) ==> reads[0].len() >= 10,
        asks_for_credentials(reads.flatten()) ==> reads[0].len() >= 12,
    ensures
        begun::<E>().run(answered(reads)) == Progress::<E>::judged(within_limit(reads.flatten())),
{
    let first = reads[0];
    let rest = reads.drop_first();
    let events = answered::<E>(reads);
    let p = Progress::<E>::Underway(Stage::Receiving(Seq::empty()));
    assert(events.drop_first() =~= received::<E>(reads));
    assert(received::<E>(reads).drop_first() =~= received::<E>(rest));
    assert(reads.flatten() == first + rest.flatten());
    assert(Seq::<u8>::empty() + first =~= first);
    assert forall|i: int| 0 <= i < rest.len() implies (#[trigger] rest[i]).len() > 0 by {
        assert(rest[i] == reads[i + 1]);
    }
    assert(begun::<E>().run(events) == p.run(received(reads)));
    assert(p.run(received(reads)) == Progress::<E>::judged(first).run(received(rest)));
    assert(p.fits(received(reads)));
    assert(Progress::<E>::judged(first).fits(received(rest)));
    let shown = within_limit(reads.flatten());
    lemma_within_limit(first, rest.flatten());
    lemma_accepts(shown, reads.flatten().skip(shown.len() as int));
    assert(shown + reads.flatten().skip(shown.len() as int) =~= reads.flatten());
    match verdict(first) {
        Verdict::Incomplete => {
            lemma_run_accepted::<E>(first, rest);
        },
        Verdict::Established => {
            outcome_is_final::<E>(Ok(()), received(rest));
        },
        Verdict::Refused(err) => {
            outcome_is_final::<E>(Err(IoError::Other(err)), received(rest));
        },
    }
}

/// Whatever a proxy sends before it closes the connection, and however the reads
/// cut it up, the tunnel comes to one outcome, and what was sent decides it. The
/// reads are as in [`outcome_ignores_chunking`]; here there may be none.
pub proof fn stream_decides_the_outcome<E>(reads: Seq<Seq<u8>>)
    requires
        forall|i: int| 0 <= i < reads.len() ==> (#[trigger] reads[i]).len() > 0,
        begun::<E>().fits(answered(reads)),
        reads.len() > 0 && accepts(reads.flatten()) ==> reads[0].len() >= 10,
        reads.len() > 0 && asks_for_credentials(reads.flatten()) ==> reads[0].len() >= 12,
    ensures
        begun::<E>().run(answered(reads).push(Occurrence::Received(Seq::empty())))
            == Progress::<E>::Done(outcome_of(reads.flatten())),
{
    let events = answered::<E>(reads);
    lemma_run_push(begun::<E>(), events, Occurrence::Received(Seq::empty()));
    if reads.len() > 0 {
        outcome_ignores_chunking::<E>(reads);
    } else {
        reveal_with_fuel(Progress::run, 2);
        assert(events.drop_first() =~= Seq::empty());
        assert(begun::<E>().run(events) == Progress::<E>::Underway(Stage::Receiving(Seq::empty())));
        assert(reads.flatten() =~= Seq::empty());
        lemma_status_prefixes();
    }
}

/// What a run from the middle of a reply leads to.
proof fn lemma_run_receiving<E>(got: Seq<u8>, events: Seq<Occurrence<E>>)
    requires
        Progress::Underway(Stage::Receiving(got)).admits_all(events),
        got.len() == 0 || verdict(got) == Verdict::Incomplete,
    ensures
        got.len() + reply_in(events).len() <= HEAD_LIMIT,
        got.len() + events.len() <= HEAD_LIMIT,
        got.len() == 0 ==> events.len() <= HEAD_LIMIT - 9,
        match Progress::Underway(Stage::Receiving(got)).run(events) {
            Progress::Underway(stage) => {
                let reply = got + reply_in(events);
                &&& stage == Stage::Receiving(reply)
                &&& reply.len() == 0 || verdict(reply) == Verdict::Incomplete
            },
            Progress::Done(Ok(())) => verdict(got + reply_in(events)) == Verdict::Established,
            Progress::Done(Err(_)) => true,
        },
    decreases events.len(),
{
    reveal_with_fuel(Progress::admits_all, 2);
    lemma_status_prefixes();
    let p = Progress::Underway(Stage::Receiving(got));
    if events.len() == 0 {
        assert(got + reply_in(events) =~= got);
    } else {
        let rest = events.drop_first();
        match events[0] {
            Occurrence::Received(data) => {
                let more = got + data;
                assert(got + reply_in(events) =~= more + reply_in(rest));
                match p.then_on(events[0]) {
                    Progress::Underway(stage) => {
                        lemma_run_receiving(more, rest);
                    },
                    Progress::Done(outcome) => {
                        assert(rest.len() == 0);
                        outcome_is_final(outcome, rest);
                        assert(more + reply_in(rest) =~= more);
                    },
                }
            },
            Occurrence::Failed(err) => {
                assert(rest.len() == 0);
                outcome_is_final(Err(IoError::Transport(err)), rest);
            },
            Occurrence::Written => {},
        }
    }
}

/// The first thing that happens in a run.
proof fn lemma_run_begun<E>(events: Seq<Occurrence<E>>)
    requires
        begun::<E>().admits_all(events),
        events.len() > 0,
    ensures
        match events[0] {
            Occurrence::Written => {
                let p = Progress::<E>::Underway(Stage::Receiving(Seq::empty()));
                &&& p.admits_all(events.drop_first())
                &&& begun::<E>().run(events) == p.run(events.drop_first())
                &&& reply_in(events) == reply_in(events.drop_first())
            },
            Occurrence::Failed(err) => {
                &&& events.len() == 1
                &&& begun::<E>().run(events) == Progress::<E>::Done(Err(IoError::Transport(err)))
                &&& reply_in(events) == Seq::<u8>::empty()
            },
            Occurrence::Received(_) => false,
        },
{
    reveal_with_fuel(Progress::admits_all, 2);
    reveal_with_fuel(reply_in, 2);
    if let Occurrence::Failed(err) = events[0] {
        assert(events.drop_first().len() == 0);
        outcome_is_final::<E>(Err(IoError::Transport(err)), events.drop_first());
    }
}

/// A tunnel is open only where the proxy's reply is a success and its head has
/// come in to the end, all of it within the limit. A refusal, a head that never
/// ends and a connection that breaks never open one.
pub proof fn only_success_opens<E>(events: Seq<Occurrence<E>>)
    requires
        begun::<E>().admits_all(events),
        begun::<E>().run(events) == Progress::<E>::Done(Ok(())),
    ensures
        accepts(reply_in(events)),
        head_ends(reply_in(events)),
        reply_in(events).len() <= HEAD_LIMIT,
{
    assert(events.len() > 0);
    lemma_run_begun(events);
    let rest = events.drop_first();
    lemma_run_receiving(Seq::empty(), rest);
    assert(Seq::empty() + reply_in(rest) =~= reply_in(rest));
}

/// As long as the outcome is open, what is kept of the reply is all that has come
/// in, in order, and a success that is not complete yet.
pub proof fn reply_is_kept<E>(events: Seq<Occurrence<E>>, got: Seq<u8>)
    requires
        begun::<E>().admits_all(events),
        begun::<E>().run(events) == Progress::<E>::Underway(Stage::Receiving(got)),
    ensures
        got == reply_in(events),
        got.len() < HEAD_LIMIT,
        got.len() > 0 ==> accepts(got) && !head_ends(got),
{
    assert(events.len() > 0);
    lemma_run_begun(events);
    let rest = events.drop_first();
    lemma_run_receiving(Seq::empty(), rest);
    assert(Seq::empty() + reply_in(rest) =~= reply_in(rest));
}

/// Every tunnel comes to an outcome: no more than the limit is ever read, and no
/// more happens than the sending of the request, a read that shows the status of a
/// success, which takes ten bytes, and one read for each byte that is left.
pub proof fn runs_are_bounded<E>(events: Seq<Occurrence<E>>)
    requires
        begun::<E>().admits_all(events),
    ensures
        reply_in(events).len() <= HEAD_LIMIT,
        events.len() <= HEAD_LIMIT - 8,
{
    if events.len() > 0 {
        lemma_run_begun(events);
        if events[0] == Occurrence::<E>::Written {
            lemma_run_receiving(Seq::empty(), events.drop_first());
        }
    }
}

/// A reply whose first bytes are not those of a success ends it at once, whatever
/// follows: with the demand for credentials if it is of status 407, and without
/// success otherwise.
pub proof fn refusal_ends_it<E>(first: Seq<u8>, rest: Seq<Occurrence<E>>)
    requires
        first.len() > 0,
        !accepts(first),
    ensures
        begun::<E>().run(seq![Occurrence::Written, Occurrence::Received(first)] + rest)
            == Progress::<E>::Done(
            Err(
                IoError::Other(
                    if asks_for_credentials(first) {
                        CreateTunnelErr::ProxyAuthenticationRequired
                    } else {
                        CreateTunnelErr::Unsuccessful
                    },
                ),
            ),
        ),
{
    let events = seq![Occurrence::<E>::Written, Occurrence::Received(first)] + rest;
    let p = Progress::<E>::Underway(Stage::Receiving(Seq::empty()));
    assert(events.drop_first().drop_first() =~= rest);
    assert(Seq::<u8>::empty() + first =~= first);
    assert(begun::<E>().run(events) == p.run(events.drop_first()));
    assert(p.run(events.drop_first()) == Progress::<E>::judged(first).run(rest));
    if let Verdict::Refused(err) = verdict(first) {
        outcome_is_final::<E>(Err(IoError::Other(err)), rest);
    }
}

/// A reply that begins as one of status 407 is answered with the demand for
/// credentials, whatever follows.
pub proof fn credentials_are_demanded<E>(first: Seq<u8>, rest: Seq<Occurrence<E>>)
    requires
        asks_for_credentials(first),
    ensures
        begun::<E>().run(seq![Occurrence::Written, Occurrence::Received(first)] + rest)
            == Progress::<E>::Done(
            Err(IoError::Other(CreateTunnelErr::ProxyAuthenticationRequired)),
        ),
{
    lemma_status_prefixes();
    lemma_accepts(first, Seq::empty());
    refusal_ends_it(first, rest);
}

/// A proxy that closes the connection before the outcome is known has refused.
pub proof fn closing_refuses<E>(events: Seq<Occurrence<E>>, got: Seq<u8>)
    requires
        begun::<E>().run(events) == Progress::<E>::Underway(Stage::Receiving(got)),
    ensures
        begun::<E>().run(events.push(Occurrence::Received(Seq::empty()))) == Progress::<E>::Done(
            Err(IoError::Other(CreateTunnelErr::Unsuccessful)),
        ),
{
    lemma_run_push(begun::<E>(), events, Occurrence::Received(Seq::empty()));
}

/// A connection that fails before the outcome is known gives its own error.
pub proof fn failure_is_passed_on<E>(events: Seq<Occurrence<E>>, stage: Stage, err: E)
    requires
        begun::<E>().run(events) == Progress::<E>::Underway(stage),
    ensures
        begun::<E>().run(events.push(Occurrence::Failed(err))) == Progress::<E>::Done(
            Err(IoError::Transport(err)),
        ),
{
    lemma_run_push(begun::<E>(), events, Occurrence::Failed(err));
}

/// No two errors say the same.
pub proof fn texts_tell_errors_apart(a: CreateTunnelErr, b: CreateTunnelErr)
    requires
        a.text() == b.text(),
    ensures
        a == b,
{
    reveal_strlit("Proxy headers too long for tunnel");
    reveal_strlit("Proxy authentication required");
    reveal_strlit("Unsuccessful tunnel");
    assert(CreateTunnelErr::ProxyHeadersTooLong.text().len() == 33);
    assert(CreateTunnelErr::ProxyAuthenticationRequired.text().len() == 29);
    assert(CreateTunnelErr::Unsuccessful.text().len() == 19);
}

/// Credentials add one line to the request, just before the blank line that ends
/// it, and change nothing else.
pub proof fn credentials_add_one_line(host: Seq<char>, port: u16, value: Seq<char>)
    ensures
        exists|head: Seq<char>| #![trigger head + "\r\n"@]
            {
                &&& connect_request(host, port, None) == head + "\r\n"@
                &&& connect_request(host, port, Some(value)) == head
                    + ("Proxy-Authorization: Basic "@ + value + "\r\n"@) + "\r\n"@
            },
{
    let head = "CONNECT "@ + target(host, port) + " HTTP/1.1\r\n"@ + "Host: "@ + target(host, port)
        + "\r\n"@;
    assert(head + credentials_line(None) =~= head);
    assert(connect_request(host, port, None) == head + "\r\n"@);
}

/// A text without line breaks.
spec fn one_line(text: Seq<char>) -> bool {
    forall|i: int| 0 <= i < text.len() ==> text[i] != '\r' && #[trigger] text[i] != '\n'
}

/// Bytes without line breaks.
spec fn unbroken(bytes: Seq<u8>) -> bool {
    forall|i: int| 0 <= i < bytes.len() ==> bytes[i] != 13 && #[trigger] bytes[i] != 10
}

/// UTF-8 has the bytes of a line break only where there is one.
proof fn lemma_scalar_unbroken(v: u32)
    requires
        v != 13,
        v != 10,
    ensures
        unbroken(encode_scalar(v)),
{
    assert(0 <= v <= 0x7F && v != 13 && v != 10 ==> (v & 0x7F) as u8 != 13 && (v & 0x7F) as u8
        != 10) by (bit_vector);
    assert(forall|x: u8| #[trigger] (0xC0u8 | x) >= 128) by (bit_vector);
    assert(forall|x: u8| #[trigger] (0xE0u8 | x) >= 128) by (bit_vector);
    assert(forall|x: u8| #[trigger] (0xF0u8 | x) >= 128) by (bit_vector);
    assert(forall|x: u8| #[trigger] (0x80u8 | x) >= 128) by (bit_vector);
}

proof fn lemma_encode_unbroken(text: Seq<char>)
    requires
        one_line(text),
    ensures
        unbroken(encode_utf8(text)),
        text.len() > 0 ==> encode_utf8(text).len() > 0,
    decreases text.len(),
{
    if text.len() > 0 {
        let c: char = text[0];
        assert(c != '\r' && c != '\n');
        char_u32_cast(c, c as u32);
        lemma_scalar_unbroken(c as u32);
        let rest = text.drop_first();
        assert forall|i: int| 0 <= i < rest.len() implies rest[i] != '\r' && #[trigger] rest[i]
            != '\n' by {
            assert(rest[i] == text[i + 1]);
        }
        lemma_encode_unbroken(rest);
    }
}

proof fn lemma_decimal_one_line(n: nat)
    ensures
        one_line(decimal(n)),
    decreases n,
{
    if n >= 10 {
        lemma_decimal_one_line(n / 10);
    }
}

/// The blank line that ends a head, as bytes.
pub(crate) open spec fn blank_line() -> Seq<u8> {
    seq![13u8, 10u8, 13u8, 10u8]
}

/// A blank line, byte by byte.
pub(crate) proof fn lemma_blank_at(bytes: Seq<u8>, i: int)
    ensures
        occurs_at(blank_line(), bytes, i) <==> {
            &&& 0 <= i
            &&& i + 4 <= bytes.len()
            &&& bytes[i] == 13
            &&& bytes[i + 1] == 10
            &&& bytes[i + 2] == 13
            &&& bytes[i + 3] == 10
        },
{
    if 0 <= i && i + 4 <= bytes.len() {
        let window = bytes.subrange(i, i + 4);
        assert(window[0] == bytes[i] && window[1] == bytes[i + 1] && window[2] == bytes[i + 2]
            && window[3] == bytes[i + 3]);
        if bytes[i] == 13 && bytes[i + 1] == 10 && bytes[i + 2] == 13 && bytes[i + 3] == 10 {
            assert(window =~= blank_line());
        }
    }
}

/// Where no line break stands on both sides of a seam, no blank line lies across it.
proof fn lemma_blank_across(x: Seq<u8>, y: Seq<u8>, i: int)
    requires
        x.len() == 0 || y.len() == 0 || (x.last() != 13 && x.last() != 10) || (y[0] != 13 && y[0]
            != 10),
    ensures
        occurs_at(blank_line(), x + y, i) <==> occurs_at(blank_line(), x, i) || occurs_at(
            blank_line(),
            y,
            i - x.len(),
        ),
{
    lemma_blank_at(x + y, i);
    lemma_blank_at(x, i);
    lemma_blank_at(y, i - x.len());
}

/// A text whose UTF-8 begins with an ASCII byte begins with that character.
proof fn lemma_ascii_first(text: Seq<char>)
    requires
        encode_utf8(text).len() > 0,
        encode_utf8(text)[0] < 128,
    ensures
        text.len() > 0,
        text[0] == encode_utf8(text)[0] as char,
        encode_utf8(text.drop_first()) == encode_utf8(text).drop_first(),
{
    let c: char = text[0];
    let v: u32 = c as u32;
    char_u32_cast(c, v);
    assert(forall|x: u8| #[trigger] (0xC0u8 | x) >= 128) by (bit_vector);
    assert(forall|x: u8| #[trigger] (0xE0u8 | x) >= 128) by (bit_vector);
    assert(forall|x: u8| #[trigger] (0xF0u8 | x) >= 128) by (bit_vector);
    assert(v <= 0x7F ==> (v & 0x7F) as u8 == v) by (bit_vector);
    assert(encode_utf8(text)[0] == encode_scalar(v)[0]);
    assert(encode_utf8(text).drop_first() =~= encode_utf8(text.drop_first()));
}

/// The UTF-8 of a text holds a blank line only where the text does.
proof fn lemma_blank_text(text: Seq<char>, i: int)
    requires
        occurs_at(blank_line(), encode_utf8(text), i),
    ensures
        occurs("\r\n\r\n"@, text),
    decreases text.len(),
{
    reveal_strlit("\r\n\r\n");
    let bytes = encode_utf8(text);
    lemma_blank_at(bytes, i);
    let c: char = text[0];
    let v: u32 = c as u32;
    let first = encode_scalar(v);
    let rest = text.drop_first();
    if i >= first.len() {
        lemma_blank_at(encode_utf8(rest), i - first.len());
        lemma_blank_text(rest, i - first.len());
        let k = choose|k: int| occurs_at("\r\n\r\n"@, rest, k);
        assert(text.subrange(k + 1, k + 5) =~= rest.subrange(k, k + 4));
        assert(occurs_at("\r\n\r\n"@, text, k + 1));
    } else {
        assert(forall|x: u8| #[trigger] (0x80u8 | x) >= 128) by (bit_vector);
        assert(forall|x: u8| #[trigger] (0xC0u8 | x) >= 128) by (bit_vector);
        assert(forall|x: u8| #[trigger] (0xE0u8 | x) >= 128) by (bit_vector);
        assert(forall|x: u8| #[trigger] (0xF0u8 | x) >= 128) by (bit_vector);
        assert(first[i] == 13);
        assert(i == 0);
        lemma_ascii_first(text);
        lemma_ascii_first(rest);
        lemma_ascii_first(rest.drop_first());
        lemma_ascii_first(rest.drop_first().drop_first());
        assert(text.subrange(0, 4) =~= "\r\n\r\n"@);
        assert(occurs_at("\r\n\r\n"@, text, 0));
    }
}

/// Where the end of the request's last line, and of the request, makes a blank line.
proof fn lemma_blank_at_end(value: Seq<u8>, i: int)
    ensures
        occurs_at(blank_line(), value + blank_line(), i) <==> i == value.len() || occurs_at(
            blank_line(),
            value + seq![13u8, 10u8],
            i,
        ),
{
    lemma_blank_at(value + blank_line(), i);
    lemma_blank_at(value + seq![13u8, 10u8], i);
}

/// The fixed parts of a request hold no blank line, and do not end in a line break.
proof fn lemma_fixed_parts(i: int)
    ensures
        ({
            let a = encode_utf8("CONNECT "@);
            let b = encode_utf8(" HTTP/1.1\r\n"@ + "Host: "@);
            let n = encode_utf8("\r\n"@ + "Proxy-Authorization: Basic "@);
            &&& !occurs_at(blank_line(), a, i)
            &&& !occurs_at(blank_line(), b, i)
            &&& !occurs_at(blank_line(), n, i)
            &&& a.last() == 32
            &&& b.last() == 32
            &&& n.last() == 32
        }),
{
    reveal_strlit("CONNECT ");
    reveal_strlit(" HTTP/1.1\r\n");
    reveal_strlit("Host: ");
    reveal_strlit("\r\n");
    reveal_strlit("Proxy-Authorization: Basic ");
    let between = " HTTP/1.1\r\n"@ + "Host: "@;
    let name = "\r\n"@ + "Proxy-Authorization: Basic "@;
    lemma_ascii("CONNECT "@);
    lemma_ascii(between);
    lemma_ascii(name);
    lemma_blank_at(encode_utf8("CONNECT "@), i);
    lemma_blank_at(encode_utf8(between), i);
    lemma_blank_at(encode_utf8(name), i);
}

/// The part of a request that names a port holds no line break.
proof fn lemma_port_part(port: u16, i: int)
    ensures
        ({
            let p = encode_utf8(":"@ + decimal(port as nat));
            &&& !occurs_at(blank_line(), p, i)
            &&& p.len() > 0
            &&& p[0] != 13 && p[0] != 10
            &&& p.last() != 13 && p.last() != 10
        }),
{
    reveal_strlit(":");
    lemma_decimal_one_line(port as nat);
    lemma_encode_unbroken(":"@ + decimal(port as nat));
    lemma_blank_at(encode_utf8(":"@ + decimal(port as nat)), i);
}

/// The line breaks of a request.
pub(crate) proof fn lemma_line_breaks()
    ensures
        encode_utf8("\r\n"@) == seq![13u8, 10u8],
        encode_utf8("\r\n\r\n"@) == blank_line(),
        "\r\n"@ + "\r\n"@ == "\r\n\r\n"@,
{
    reveal_strlit("\r\n");
    reveal_strlit("\r\n\r\n");
    lemma_ascii("\r\n"@);
    lemma_ascii("\r\n\r\n"@);
    assert(encode_utf8("\r\n"@) =~= seq![13u8, 10u8]);
    assert(encode_utf8("\r\n\r\n"@) =~= blank_line());
    assert("\r\n"@ + "\r\n"@ =~= "\r\n\r\n"@);
}

/// What follows the second naming of the target holds one blank line, at its end.
proof fn lemma_request_end(auth: Option<Seq<char>>, i: int)
    requires
        auth matches Some(value) ==> !occurs("\r\n\r\n"@, value + "\r\n"@),
    ensures
        ({
            let e = encode_utf8("\r\n"@ + credentials_line(auth) + "\r\n"@);
            &&& e.len() >= 4
            &&& occurs_at(blank_line(), e, i) <==> i == e.len() - 4
        }),
{
    lemma_line_breaks();
    match auth {
        None => {
            assert("\r\n"@ + credentials_line(auth) =~= "\r\n"@);
            lemma_blank_at(blank_line(), i);
        },
        Some(value) => {
            let name = "\r\n"@ + "Proxy-Authorization: Basic "@;
            let n = encode_utf8(name);
            let v = encode_utf8(value);
            assert("\r\n"@ + credentials_line(auth) + "\r\n"@ =~= name + (value + ("\r\n"@
                + "\r\n"@)));
            lemma_encode_concat(name, value + "\r\n\r\n"@);
            lemma_encode_concat(value, "\r\n\r\n"@);
            lemma_encode_concat(value, "\r\n"@);
            lemma_fixed_parts(i);
            lemma_blank_across(n, v + blank_line(), i);
            lemma_blank_at_end(v, i - n.len());
            if occurs_at(blank_line(), v + seq![13u8, 10u8], i - n.len()) {
                lemma_blank_text(value + "\r\n"@, i - n.len());
            }
        },
    }
}

/// The bytes of a request, part by part.
proof fn lemma_request_parts(host: Seq<char>, port: u16, auth: Option<Seq<char>>)
    ensures
        ({
            let a = encode_utf8("CONNECT "@);
            let h = encode_utf8(host);
            let p = encode_utf8(":"@ + decimal(port as nat));
            let b = encode_utf8(" HTTP/1.1\r\n"@ + "Host: "@);
            let e = encode_utf8("\r\n"@ + credentials_line(auth) + "\r\n"@);
            encode_utf8(connect_request(host, port, auth)) == a + (h + (p + (b + (h + (p + e)))))
        }),
{
    let port_text = ":"@ + decimal(port as nat);
    let between = " HTTP/1.1\r\n"@ + "Host: "@;
    let end = "\r\n"@ + credentials_line(auth) + "\r\n"@;
    let t3 = port_text + end;
    let t2 = between + (host + t3);
    let t1 = port_text + t2;
    assert(connect_request(host, port, auth) =~= "CONNECT "@ + (host + t1));
    lemma_encode_concat("CONNECT "@, host + t1);
    lemma_encode_concat(host, t1);
    lemma_encode_concat(port_text, t2);
    lemma_encode_concat(between, host + t3);
    lemma_encode_concat(host, t3);
    lemma_encode_concat(port_text, end);
}

/// What is sent is one request: its bytes hold the blank line that ends a head at
/// their end, and nowhere else. This takes a host without a blank line, and
/// credentials that have none even with the end of their line.
pub proof fn request_is_one_head(host: Seq<char>, port: u16, auth: Option<Seq<char>>, i: int)
    requires
        !occurs("\r\n\r\n"@, host),
        auth matches Some(value) ==> !occurs("\r\n\r\n"@, value + "\r\n"@),
    ensures
        ({
            let req = encode_utf8(connect_request(host, port, auth));
            occurs_at(encode_utf8("\r\n\r\n"@), req, i) <==> i == req.len() - 4
        }),
{
    let a = encode_utf8("CONNECT "@);
    let h = encode_utf8(host);
    let p = encode_utf8(":"@ + decimal(port as nat));
    let b = encode_utf8(" HTTP/1.1\r\n"@ + "Host: "@);
    let e = encode_utf8("\r\n"@ + credentials_line(auth) + "\r\n"@);
    let i1 = i - a.len();
    let i2 = i1 - h.len();
    let i3 = i2 - p.len();
    let i4 = i3 - b.len();
    let i5 = i4 - h.len();
    let i6 = i5 - p.len();
    lemma_request_parts(host, port, auth);
    lemma_line_breaks();
    lemma_fixed_parts(i);
    lemma_fixed_parts(i3);
    lemma_port_part(port, i2);
    lemma_port_part(port, i5);
    lemma_request_end(auth, i6);
    if occurs_at(blank_line(), h, i1) {
        lemma_blank_text(host, i1);
    }
    if occurs_at(blank_line(), h, i4) {
        lemma_blank_text(host, i4);
    }
    lemma_blank_across(a, h + (p + (b + (h + (p + e)))), i);
    lemma_blank_across(h, p + (b + (h + (p + e))), i1);
    lemma_blank_across(p, b + (h + (p + e)), i2);
    lemma_blank_across(b, h + (p + e), i3);
    lemma_blank_across(h, p + e, i4);
    lemma_blank_across(p, e, i5);
}

} // verus!
