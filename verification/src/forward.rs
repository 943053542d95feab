//! What a client is sent once it is bound to a shard: a READY of its own, one
//! frame for each guild, then the shard's events, all numbered for this client
//! alone.

use vstd::prelude::*;
use crate::decimal::{decimal_digits, is_digit, lemma_digits_read_back, push_decimal};
use crate::event::{
    integer_field, parsed_event, SequenceInfo, CLOSING_BRACE, COMMA, OP_KEY, QUOTE, SEQUENCE_KEY,
};
use crate::guilds::{
    guild_frame, guild_text, ids_of, GuildEntry, GuildFrame, GuildTracker, GUILD_CREATE,
    GUILD_DELETE,
};
use crate::protocol::{lemma_frame_reads_back, plain_name, DISPATCH};
use crate::ready::{ready_text, Member, ReadySnapshot, READY};
use crate::scan::{
    after_blanks, append, before_blanks, first_match, first_of, lemma_after_blanks,
    lemma_after_blanks_is, lemma_before_blanks, lemma_before_blanks_is, lemma_find_from_finds,
    lemma_find_from_is_least, lemma_first_of_finds, lemma_first_of_is_least, matches_at,
};

verus! {

/// A frame's text with the digits at `at` replaced by those of `s`; all around
/// them stays.
pub open spec fn renumbered(payload: Seq<u8>, at: SequenceInfo, s: u64) -> Seq<u8> {
    payload.subrange(0, at.start as int) + decimal_digits(s as nat) + payload.subrange(
        at.end as int,
        payload.len() as int,
    )
}

/// The numbers `0`, `1`, ... below `count`.
pub open spec fn numbers_below(count: u64) -> Seq<u64> {
    Seq::new(count as nat, |i: int| i as u64)
}

/// The frames that open a client's session on a shard when the first of them
/// is numbered `first`: the READY, which lists the shard's guilds as
/// unavailable, then one frame for each guild, numbered one after the other.
pub open spec fn opening(ready: Seq<Member>, guilds: Seq<GuildEntry>, first: u64) -> Seq<Seq<u8>> {
    Seq::new(
        guilds.len() + 1,
        |i: int|
            if i == 0 {
                ready_text(ready, ids_of(guilds), first)
            } else {
                guild_text(guild_frame(guilds[i - 1], (first + i) as u64))
            },
    )
}

/// The texts of a list of frames.
pub open spec fn texts_of(frames: Seq<Vec<u8>>) -> Seq<Seq<u8>> {
    frames.map_values(|frame: Vec<u8>| frame@)
}

/// What a client's subscription to the events of its shard hands over.
#[derive(Clone, Debug, PartialEq, Eq)]
pub enum Delivery {
    /// An event, with the place of its sequence number where it has one.
    Event { payload: Vec<u8>, sequence: Option<SequenceInfo> },
    /// The client fell behind, and events were dropped for it.
    Lagged,
    /// The shard sends no more.
    Closed,
}

/// What is done with what the subscription handed over.
#[derive(Clone, Debug, PartialEq, Eq)]
pub enum Passage {
    /// Send this frame to the client.
    Frame(Vec<u8>),
    /// Send nothing and go on.
    Skip,
    /// Send nothing more to the client.
    End,
}

/// A `Passage` with the text it carries.
pub ghost enum Passed {
    Frame(Seq<u8>),
    Skip,
    End,
}

impl View for Passage {
    type V = Passed;

    open spec fn view(&self) -> Passed {
        match *self {
            Passage::Frame(frame) => Passed::Frame(frame@),
            Passage::Skip => Passed::Skip,
            Passage::End => Passed::End,
        }
    }
}

/// The event takes the client's next number: the place of its sequence number
/// lies in its text, and a number is left.
pub open spec fn takes_number(next: u64, delivery: Delivery) -> bool {
    &&& delivery matches Delivery::Event { payload, sequence: Some(at) }
    &&& at.start <= at.end <= payload@.len()
    &&& next < u64::MAX
}

/// What is done with what the subscription handed over, where `next` is the
/// client's next number. An event goes to the client, renumbered if it has a
/// sequence number; it ends the session if it cannot be renumbered. Events
/// that were dropped are passed over. When the shard sends no more, nothing
/// more is sent.
pub open spec fn passed(next: u64, delivery: Delivery) -> Passed {
    match delivery {
        Delivery::Event { payload, sequence: None } => Passed::Frame(payload@),
        Delivery::Event { payload, sequence: Some(at) } => if takes_number(next, delivery) {
            Passed::Frame(renumbered(payload@, at, next))
        } else {
            Passed::End
        },
        Delivery::Lagged => Passed::Skip,
        Delivery::Closed => Passed::End,
    }
}

/// Writes `payload` out with the sequence number at `at` replaced by `s`.
pub fn rewrite_sequence(payload: &[u8], at: &SequenceInfo, s: u64) -> (r: Vec<u8>)
    requires
        at.start <= at.end <= payload@.len(),
    ensures
        r@ == renumbered(payload@, *at, s),
{
    let mut out: Vec<u8> = Vec::new();
    append(&mut out, vstd::slice::slice_subrange(payload, 0, at.start));
    push_decimal(&mut out, s);
    append(&mut out, vstd::slice::slice_subrange(payload, at.end, payload.len()));
    assert(out@ =~= renumbered(payload@, *at, s));
    out
}

/// The numbering of one client's dispatches.
pub struct Forwarder {
    seq: u64,
}

impl View for Forwarder {
    type V = Seq<u64>;

    /// The sequence numbers given out so far, in the order of the frames.
    closed spec fn view(&self) -> Seq<u64> {
        numbers_below(self.seq)
    }
}

impl Forwarder {
    /// The number that the next dispatch gets.
    pub closed spec fn next(&self) -> u64 {
        self.seq
    }

    /// The numbering of a client that has been sent no dispatch yet.
    pub fn new() -> (r: Forwarder)
        ensures
            r.next() == 0,
            r@ == Seq::<u64>::empty(),
    {
        let r = Forwarder { seq: 0 };
        assert(r@ =~= Seq::<u64>::empty());
        r
    }

    /// The number that the next dispatch gets.
    pub fn sequence(&self) -> (r: u64)
        ensures
            r == self.next(),
    {
        self.seq
    }

    /// The frames that open a client's session on a shard: the READY, which
    /// lists the shard's guilds as unavailable, then one frame for each guild.
    /// They are numbered from the next number on, in this order.
    pub fn handshake(&mut self, ready: &ReadySnapshot, guilds: &GuildTracker) -> (frames: Vec<Vec<u8>>)
        requires
            old(self).next() + guilds@.len() < u64::MAX,
        ensures
            frames@.len() == guilds@.len() + 1,
            frames@[0]@ == ready_text(ready@, ids_of(guilds@), old(self).next()),
            forall|i: int|
                0 <= i < guilds@.len() ==> (#[trigger] frames@[i + 1])@ == guild_text(
                    guild_frame(guilds@[i], (old(self).next() + 1 + i) as u64),
                ),
            texts_of(frames@) == opening(ready@, guilds@, old(self).next()),
            final(self).next() == old(self).next() + guilds@.len() + 1,
            final(self)@ == old(self)@ + Seq::new(
                guilds@.len() + 1,
                |i: int| (old(self).next() + i) as u64,
            ),
    {
        let ghost first = self.seq;
        let mut frames: Vec<Vec<u8>> = Vec::new();
        let mut seq = self.seq;
        let payload = guilds.get_ready_payload(ready, &mut seq);
        frames.push(payload.to_json());
        let burst = guilds.get_guild_payloads(&mut seq);
        let mut i: usize = 0;
        while i < burst.len()
            invariant
                i <= burst@.len(),
                burst@.len() == guilds@.len(),
                frames@.len() == i + 1,
                frames@[0]@ == ready_text(ready@, ids_of(guilds@), first),
                first + guilds@.len() < u64::MAX,
                forall|k: int|
                    0 <= k < guilds@.len() ==> (#[trigger] burst@[k])@ == guild_frame(
                        guilds@[k],
                        (first + 1 + k) as u64,
                    ),
                forall|k: int|
                    0 <= k < i ==> (#[trigger] frames@[k + 1])@ == guild_text(
                        guild_frame(guilds@[k], (first + 1 + k) as u64),
                    ),
            decreases burst@.len() - i,
        {
            let text = burst[i].to_json();
            frames.push(text);
            assert forall|k: int| 0 <= k < i + 1 implies (#[trigger] frames@[k + 1])@ == guild_text(
                guild_frame(guilds@[k], (first + 1 + k) as u64),
            ) by {
                if k == i {
                    assert(frames@[k + 1] == text);
                }
            }
            i = i + 1;
        }
        self.seq = seq;
        assert(self@ =~= old(self)@ + Seq::new(
            guilds@.len() + 1,
            |i: int| (old(self).next() + i) as u64,
        ));
        assert(texts_of(frames@) =~= opening(ready@, guilds@, first)) by {
            assert forall|i: int| 0 <= i < frames@.len() implies texts_of(frames@)[i] == opening(
                ready@,
                guilds@,
                first,
            )[i] by {
                if i > 0 {
                    assert(frames@[(i - 1) + 1]@ == guild_text(
                        guild_frame(guilds@[i - 1], (first + 1 + (i - 1)) as u64),
                    ));
                }
            }
        }
        frames
    }

    /// The frames that open a client's session on a shard, as `handshake`
    /// gives them; nothing, and no number given out, where the numbers that
    /// are left do not suffice for them.
    pub fn open(&mut self, ready: &ReadySnapshot, guilds: &GuildTracker) -> (r: Option<
        Vec<Vec<u8>>,
    >)
        ensures
            match r {
                Some(frames) => {
                    &&& old(self).next() + guilds@.len() < u64::MAX
                    &&& texts_of(frames@) == opening(ready@, guilds@, old(self).next())
                    &&& final(self).next() == old(self).next() + guilds@.len() + 1
                    &&& final(self)@ == old(self)@ + Seq::new(
                        guilds@.len() + 1,
                        |i: int| (old(self).next() + i) as u64,
                    )
                },
                None => {
                    &&& old(self).next() + guilds@.len() >= u64::MAX
                    &&& final(self).next() == old(self).next()
                    &&& final(self)@ == old(self)@
                },
            },
    {
        let room: u64 = u64::MAX - self.seq;
        let wanted: usize = guilds.len();
        if wanted as u64 >= room {
            return None;
        }
        Some(self.handshake(ready, guilds))
    }

    /// The frame that a client gets for one of the shard's events: the event
    /// as it came, but for its sequence number, which becomes the client's
    /// next. An event without a sequence number is passed on as it is and
    /// takes no number.
    pub fn relay(&mut self, payload: Vec<u8>, sequence: Option<SequenceInfo>) -> (frame: Vec<u8>)
        requires
            sequence matches Some(at) ==> at.start <= at.end <= payload@.len() && old(self).next()
                < u64::MAX,
        ensures
            match sequence {
                Some(at) => {
                    &&& frame@ == renumbered(payload@, at, old(self).next())
                    &&& final(self).next() == old(self).next() + 1
                    &&& final(self)@ == old(self)@.push(old(self).next())
                },
                None => frame@ == payload@ && final(self).next() == old(self).next() && final(self)@
                    == old(self)@,
            },
    {
        match sequence {
            Some(at) => {
                let s = self.seq;
                self.seq = s + 1;
                assert(self@ =~= old(self)@.push(s));
                rewrite_sequence(payload.as_slice(), &at, s)
            },
            None => payload,
        }
    }
}

impl Forwarder {
    /// Decides what is done with what the client's subscription handed over,
    /// and numbers the event where it takes a number.
    pub fn after_delivery(&mut self, delivery: Delivery) -> (r: Passage)
        ensures
            r@ == passed(old(self).next(), delivery),
            final(self).next() == old(self).next() + (if takes_number(old(self).next(), delivery) {
                1int
            } else {
                0int
            }),
            final(self)@ == if takes_number(old(self).next(), delivery) {
                old(self)@.push(old(self).next())
            } else {
                old(self)@
            },
    {
        match delivery {
            Delivery::Event { payload, sequence } => {
                if let Some(at) = sequence {
                    if !(at.start <= at.end && at.end <= payload.len() && self.seq < u64::MAX) {
                        return Passage::End;
                    }
                }
                Passage::Frame(self.relay(payload, sequence))
            },
            Delivery::Lagged => Passage::Skip,
            Delivery::Closed => Passage::End,
        }
    }
}

/// Over a client's life its dispatches are numbered from 0 on, each number
/// one more than the one before.
pub proof fn lemma_numbers_count_up(forwarder: Forwarder)
    ensures
        forall|i: int| 0 <= i < forwarder@.len() ==> #[trigger] forwarder@[i] == i,
        forall|i: int, j: int|
            0 <= i < j < forwarder@.len() ==> #[trigger] forwarder@[i] < #[trigger] forwarder@[j],
{
}

/// A renumbered frame is the frame as it came but for the digits of its
/// sequence number: what stood before them stands before the new digits, and
/// what stood after them stands after.
pub proof fn lemma_renumbered_keeps_the_rest(payload: Seq<u8>, at: SequenceInfo, s: u64)
    requires
        at.start <= at.end <= payload.len(),
    ensures
        ({
            let frame = renumbered(payload, at, s);
            let digits = decimal_digits(s as nat);
            &&& frame.len() == payload.len() - (at.end - at.start) + digits.len()
            &&& frame.subrange(0, at.start as int) == payload.subrange(0, at.start as int)
            &&& frame.subrange(at.start as int, at.start + digits.len()) == digits
            &&& frame.subrange(at.start + digits.len(), frame.len() as int) == payload.subrange(
                at.end as int,
                payload.len() as int,
            )
        }),
{
    let frame = renumbered(payload, at, s);
    let digits = decimal_digits(s as nat);
    assert(frame.subrange(0, at.start as int) =~= payload.subrange(0, at.start as int));
    assert(frame.subrange(at.start as int, at.start + digits.len()) =~= digits);
    assert(frame.subrange(at.start + digits.len(), frame.len() as int) =~= payload.subrange(
        at.end as int,
        payload.len() as int,
    ));
}

/// A renumbered frame reads as it was written: where a number was read after
/// `key`, the number that is read there after the frame was renumbered is the
/// new one, and its digits begin where the old ones began.
pub proof fn lemma_renumbered_reads_back(payload: Seq<u8>, key: Seq<u8>, s: u64)
    requires
        payload.len() <= usize::MAX,
        integer_field(payload, key) is Some,
    ensures
        ({
            let at = integer_field(payload, key)->0;
            integer_field(renumbered(payload, at, s), key) == Some(
                SequenceInfo {
                    value: s,
                    start: at.start,
                    end: (at.start + decimal_digits(s as nat).len()) as usize,
                },
            )
        }),
{
    let at = integer_field(payload, key)->0;
    let n = key.len() as int;
    let k = first_match(payload, key)->0;
    lemma_find_from_is_least(payload, key, 0);
    let from = k + n;
    let to = first_of(payload, from, COMMA, CLOSING_BRACE)->0;
    lemma_first_of_is_least(payload, from, COMMA, CLOSING_BRACE);
    let lo = after_blanks(payload, from, to);
    lemma_after_blanks(payload, from, to);
    let hi = before_blanks(payload, lo, to);
    lemma_before_blanks(payload, lo, to);
    let old_digits = payload.subrange(lo, hi);
    assert(lo < hi);
    assert(at.start == lo && at.end == hi);
    let digits = decimal_digits(s as nat);
    lemma_digits_read_back(s as nat);
    let d = digits.len() as int;
    let frame = renumbered(payload, at, s);
    let shift = d - (hi - lo);
    assert(frame.len() == payload.len() + shift);
    assert forall|i: int| 0 <= i < lo implies frame[i] == payload[i] by {}
    assert forall|i: int| lo <= i < lo + d implies frame[i] == digits[i - lo] by {}
    assert forall|i: int| lo + d <= i < frame.len() implies frame[i] == payload[i - shift] by {}
    assert(matches_at(frame, key, k)) by {
        assert(frame.subrange(k, k + n) =~= payload.subrange(k, k + n));
    }
    assert forall|j: int| 0 <= j < k implies !matches_at(frame, key, j) by {
        if matches_at(frame, key, j) {
            assert(frame.subrange(j, j + n) =~= payload.subrange(j, j + n));
            assert(matches_at(payload, key, j));
        }
    }
    lemma_find_from_finds(frame, key, 0, k);
    let end = to + shift;
    assert forall|j: int| from <= j < end implies frame[j] != COMMA && frame[j]
        != CLOSING_BRACE by {
        if j < lo {
        } else if j < lo + d {
            assert(is_digit(digits[j - lo]));
        } else {
            assert(frame[j] == payload[j - shift]);
        }
    }
    assert(frame[end] == payload[to]);
    lemma_first_of_finds(frame, from, COMMA, CLOSING_BRACE, end);
    assert(is_digit(digits[0]));
    assert(frame[lo] == digits[0]);
    lemma_after_blanks_is(frame, from, end, lo);
    assert(is_digit(digits[d - 1]));
    assert(frame[lo + d - 1] == digits[d - 1]);
    assert forall|j: int| lo + d <= j < end implies crate::scan::is_blank(frame[j]) by {
        assert(frame[j] == payload[j - shift]);
    }
    lemma_before_blanks_is(frame, lo, end, lo + d);
    assert(frame.subrange(lo, lo + d) =~= digits);
}

/// The READY that a client is sent reads as what it is: a dispatch named
/// READY that bears the number it was given.
pub proof fn lemma_ready_reads_back(fields: Seq<Member>, guilds: Seq<u64>, s: u64)
    requires
        ready_text(fields, guilds, s).len() <= usize::MAX,
    ensures
        ({
            let text = ready_text(fields, guilds, s);
            &&& parsed_event(text) matches Some(event)
            &&& event.op == DISPATCH
            &&& event.names(text, READY@)
            &&& event.sequence matches Some(at)
            &&& at.value == s
        }),
{
    assert(plain_name(READY@));
    lemma_frame_reads_back(
        READY@,
        s,
        DISPATCH,
        crate::ready::ready_data(fields, guilds),
    );
}

/// A frame that tells a client of a guild reads as what it is: a dispatch that
/// bears the number it was given.
pub proof fn lemma_guild_frame_reads_back(frame: GuildFrame)
    requires
        guild_text(frame).len() <= usize::MAX,
    ensures
        ({
            let text = guild_text(frame);
            &&& parsed_event(text) matches Some(event)
            &&& event.op == DISPATCH
            &&& event.sequence matches Some(at)
            &&& match frame {
                GuildFrame::Create { s, .. } => at.value == s && event.names(text, GUILD_CREATE@),
                GuildFrame::Delete { s, .. } => at.value == s && event.names(text, GUILD_DELETE@),
            }
        }),
{
    match frame {
        GuildFrame::Create { s, id, snapshot } => {
            assert(plain_name(GUILD_CREATE@));
            lemma_frame_reads_back(GUILD_CREATE@, s, DISPATCH, snapshot);
        },
        GuildFrame::Delete { s, id } => {
            assert(plain_name(GUILD_DELETE@));
            lemma_frame_reads_back(GUILD_DELETE@, s, DISPATCH, crate::ready::guild_stub(id));
        },
    }
}

/// Where the first `key` of `text` stands.
spec fn key_at(text: Seq<u8>, key: Seq<u8>) -> int {
    first_match(text, key)->0
}

/// Where the field after the first `key` of `text` ends.
spec fn end_at(text: Seq<u8>, key: Seq<u8>) -> int {
    first_of(text, key_at(text, key) + key.len(), COMMA, CLOSING_BRACE)->0
}

/// Where the digits of the field begin.
spec fn digits_from(text: Seq<u8>, key: Seq<u8>) -> int {
    after_blanks(text, key_at(text, key) + key.len(), end_at(text, key))
}

/// Where the digits of the field end.
spec fn digits_to(text: Seq<u8>, key: Seq<u8>) -> int {
    before_blanks(text, digits_from(text, key), end_at(text, key))
}

/// A number stands in `text` after `key`: the first `key` stands at `k`, the
/// field ends at `to`, and between them stand blanks, the digits from `lo` up
/// to `hi`, and blanks.
#[verifier::opaque]
spec fn stands(text: Seq<u8>, key: Seq<u8>, k: int, to: int, lo: int, hi: int) -> bool {
    &&& 0 <= k && matches_at(text, key, k)
    &&& forall|j: int| 0 <= j < k ==> !matches_at(text, key, j)
    &&& k + key.len() <= lo < hi <= to < text.len()
    &&& (text[to] == COMMA || text[to] == CLOSING_BRACE)
    &&& forall|j: int|
        k + key.len() <= j < to ==> #[trigger] text[j] != COMMA && text[j] != CLOSING_BRACE
    &&& forall|j: int| k + key.len() <= j < lo ==> crate::scan::is_blank(#[trigger] text[j])
    &&& forall|j: int| hi <= j < to ==> crate::scan::is_blank(#[trigger] text[j])
    &&& forall|j: int| lo <= j < hi ==> is_digit(#[trigger] text[j])
}

/// `moved` is `text` with the bytes from `lo` up to `hi` replaced by `d`
/// digits.
#[verifier::opaque]
spec fn spliced(text: Seq<u8>, moved: Seq<u8>, lo: int, hi: int, d: int) -> bool {
    &&& 0 <= lo <= hi <= text.len()
    &&& 1 <= d
    &&& moved.len() == text.len() - (hi - lo) + d
    &&& forall|i: int| 0 <= i < lo ==> #[trigger] moved[i] == text[i]
    &&& forall|i: int| lo <= i < lo + d ==> is_digit(#[trigger] moved[i])
    &&& forall|i: int| lo + d <= i < moved.len() ==> #[trigger] moved[i] == text[i - d + (hi - lo)]
}

/// Where a number is read after `key`, it stands there.
proof fn lemma_read_then_stands(text: Seq<u8>, key: Seq<u8>)
    requires
        integer_field(text, key) is Some,
    ensures
        stands(
            text,
            key,
            key_at(text, key),
            end_at(text, key),
            digits_from(text, key),
            digits_to(text, key),
        ),
        integer_field(text, key)->0.start == digits_from(text, key) as usize,
        integer_field(text, key)->0.end == digits_to(text, key) as usize,
        crate::decimal::parsed_decimal(
            text.subrange(digits_from(text, key), digits_to(text, key)),
        ) == Some(integer_field(text, key)->0.value),
{
    reveal(stands);
    let k = key_at(text, key);
    lemma_find_from_is_least(text, key, 0);
    let from = k + key.len();
    let to = end_at(text, key);
    lemma_first_of_is_least(text, from, COMMA, CLOSING_BRACE);
    let lo = digits_from(text, key);
    lemma_after_blanks(text, from, to);
    let hi = digits_to(text, key);
    lemma_before_blanks(text, lo, to);
    let run = text.subrange(lo, hi);
    assert forall|j: int| lo <= j < hi implies is_digit(#[trigger] text[j]) by {
        assert(run[j - lo] == text[j]);
    }
}

/// Where a number stands after `key`, it is read there.
proof fn lemma_stands_then_read(text: Seq<u8>, key: Seq<u8>, k: int, to: int, lo: int, hi: int)
    requires
        stands(text, key, k, to, lo, hi),
    ensures
        first_match(text, key) == Some(k),
        first_of(text, k + key.len(), COMMA, CLOSING_BRACE) == Some(to),
        after_blanks(text, k + key.len(), to) == lo,
        before_blanks(text, lo, to) == hi,
{
    reveal(stands);
    lemma_find_from_finds(text, key, 0, k);
    lemma_first_of_finds(text, k + key.len(), COMMA, CLOSING_BRACE, to);
    assert(is_digit(text[lo]));
    lemma_after_blanks_is(text, k + key.len(), to, lo);
    assert(is_digit(text[hi - 1]));
    lemma_before_blanks_is(text, lo, to, hi);
}

/// A number that stands in `moved` as it stands in `text`, `delta` bytes
/// further on, and before which `moved` holds no other occurrence of its key,
/// stands in `moved` after that key, with the same digits.
proof fn lemma_stands_moves(
    text: Seq<u8>,
    moved: Seq<u8>,
    key: Seq<u8>,
    k: int,
    to: int,
    lo: int,
    hi: int,
    delta: int,
)
    requires
        stands(text, key, k, to, lo, hi),
        0 <= k + delta,
        to + delta < moved.len(),
        forall|j: int| k + delta <= j <= to + delta ==> #[trigger] moved[j] == text[j - delta],
        forall|j: int| 0 <= j < k + delta ==> !matches_at(moved, key, j),
    ensures
        stands(moved, key, k + delta, to + delta, lo + delta, hi + delta),
        moved.subrange(lo + delta, hi + delta) == text.subrange(lo, hi),
{
    reveal(stands);
    let n = key.len() as int;
    assert(matches_at(moved, key, k + delta)) by {
        assert(moved.subrange(k + delta, k + delta + n) =~= text.subrange(k, k + n));
    }
    assert(moved.subrange(lo + delta, hi + delta) =~= text.subrange(lo, hi));
    assert forall|j: int| k + delta + n <= j < to + delta implies #[trigger] moved[j] != COMMA
        && moved[j] != CLOSING_BRACE by {
        assert(moved[j] == text[j - delta]);
    }
    assert forall|j: int| k + delta + n <= j < lo + delta implies crate::scan::is_blank(
        #[trigger] moved[j],
    ) by {
        assert(moved[j] == text[j - delta]);
    }
    assert forall|j: int| hi + delta <= j < to + delta implies crate::scan::is_blank(
        #[trigger] moved[j],
    ) by {
        assert(moved[j] == text[j - delta]);
    }
    assert forall|j: int| lo + delta <= j < hi + delta implies is_digit(#[trigger] moved[j]) by {
        assert(moved[j] == text[j - delta]);
    }
    assert(moved[to + delta] == text[to]);
}

/// The bytes of the keys `"op":` and `"s":`.
proof fn lemma_key_bytes()
    ensures
        OP_KEY@.len() == 5,
        OP_KEY@[0] == QUOTE,
        OP_KEY@[1] == 0x6f,
        OP_KEY@[2] == 0x70,
        OP_KEY@[3] == QUOTE,
        OP_KEY@[4] == 0x3a,
        SEQUENCE_KEY@.len() == 4,
        SEQUENCE_KEY@[0] == QUOTE,
        SEQUENCE_KEY@[1] == 0x73,
        SEQUENCE_KEY@[2] == QUOTE,
        SEQUENCE_KEY@[3] == 0x3a,
{
}

/// Where the key `"op":` stands, its five bytes stand.
proof fn lemma_op_key_stands(text: Seq<u8>, at: int)
    requires
        matches_at(text, OP_KEY@, at),
    ensures
        0 <= at && at + 5 <= text.len(),
        text[at] == QUOTE,
        text[at + 1] == 0x6f,
        text[at + 2] == 0x70,
        text[at + 3] == QUOTE,
        text[at + 4] == 0x3a,
{
    lemma_key_bytes();
    let window = text.subrange(at, at + 5);
    assert(window[0] == text[at] && window[1] == text[at + 1] && window[2] == text[at + 2]
        && window[3] == text[at + 3] && window[4] == text[at + 4]);
}

/// Where the key `"s":` stands, its four bytes stand.
proof fn lemma_sequence_key_stands(text: Seq<u8>, at: int)
    requires
        matches_at(text, SEQUENCE_KEY@, at),
    ensures
        0 <= at && at + 4 <= text.len(),
        text[at] == QUOTE,
        text[at + 1] == 0x73,
        text[at + 2] == QUOTE,
        text[at + 3] == 0x3a,
{
    lemma_key_bytes();
    let window = text.subrange(at, at + 4);
    assert(window[0] == text[at] && window[1] == text[at + 1] && window[2] == text[at + 2]
        && window[3] == text[at + 3]);
}

/// An opcode and a sequence number that both stand in a text stand apart: the
/// opcode's field ends before the key of the sequence number, or its key
/// comes after the end of the sequence number's field.
proof fn lemma_fields_apart(
    text: Seq<u8>,
    k: int,
    to: int,
    lo: int,
    hi: int,
    k2: int,
    to2: int,
    lo2: int,
    hi2: int,
)
    requires
        stands(text, SEQUENCE_KEY@, k, to, lo, hi),
        stands(text, OP_KEY@, k2, to2, lo2, hi2),
    ensures
        to2 < k || to < k2,
{
    reveal(stands);
    lemma_key_bytes();
    lemma_sequence_key_stands(text, k);
    lemma_op_key_stands(text, k2);
    if k2 + 5 <= k {
        if to2 >= k {
            if to2 > k {
                assert(crate::scan::is_blank(text[k]) || is_digit(text[k]));
            }
        }
    } else if k + 4 <= k2 {
        if to >= k2 {
            if to > k2 {
                assert(crate::scan::is_blank(text[k2]) || is_digit(text[k2]));
            }
        }
    } else {
        assert(false);
    }
}

/// A renumbered frame is the frame with the old digits replaced by the new.
proof fn lemma_renumbered_is_spliced(payload: Seq<u8>, at: SequenceInfo, s: u64)
    requires
        at.start <= at.end <= payload.len(),
    ensures
        spliced(
            payload,
            renumbered(payload, at, s),
            at.start as int,
            at.end as int,
            decimal_digits(s as nat).len() as int,
        ),
{
    reveal(spliced);
    lemma_digits_read_back(s as nat);
    let digits = decimal_digits(s as nat);
    let frame = renumbered(payload, at, s);
    assert forall|i: int| at.start <= i < at.start + digits.len() implies is_digit(
        #[trigger] frame[i],
    ) by {
        assert(frame[i] == digits[i - at.start]);
    }
}

/// What stands before the replaced digits stands in both texts: a key that
/// first stands in the one before them is the first in the other too.
proof fn lemma_first_before(text: Seq<u8>, moved: Seq<u8>, lo: int, hi: int, d: int, k2: int)
    requires
        spliced(text, moved, lo, hi, d),
        matches_at(text, OP_KEY@, k2),
        forall|j: int| 0 <= j < k2 ==> !matches_at(text, OP_KEY@, j),
        k2 + 5 <= lo,
    ensures
        forall|j: int| 0 <= j < k2 ==> !matches_at(moved, OP_KEY@, j),
{
    reveal(spliced);
    lemma_key_bytes();
    assert forall|j: int| 0 <= j < k2 implies !matches_at(moved, OP_KEY@, j) by {
        if matches_at(moved, OP_KEY@, j) {
            assert(moved.subrange(j, j + 5) =~= text.subrange(j, j + 5));
            assert(matches_at(text, OP_KEY@, j));
        }
    }
}

/// A key that first stands after the replaced digits in the one text first
/// stands after the new digits in the other, moved with all that follows them.
proof fn lemma_first_after(text: Seq<u8>, moved: Seq<u8>, lo: int, hi: int, d: int, k2: int)
    requires
        spliced(text, moved, lo, hi, d),
        forall|j: int| 0 <= j < k2 ==> !matches_at(text, OP_KEY@, j),
        hi <= k2,
    ensures
        forall|j: int| 0 <= j < k2 + d - (hi - lo) ==> !matches_at(moved, OP_KEY@, j),
{
    reveal(spliced);
    lemma_key_bytes();
    let shift = d - (hi - lo);
    assert forall|j: int| 0 <= j < k2 + shift implies !matches_at(moved, OP_KEY@, j) by {
        if matches_at(moved, OP_KEY@, j) {
            lemma_op_key_stands(moved, j);
            if j + 5 <= lo {
                assert(moved.subrange(j, j + 5) =~= text.subrange(j, j + 5));
                assert(matches_at(text, OP_KEY@, j));
            } else if j < lo + d {
                let i = if j < lo {
                    lo
                } else {
                    j
                };
                assert(is_digit(moved[i]));
            } else {
                assert(moved.subrange(j, j + 5) =~= text.subrange(j - shift, j - shift + 5));
                assert(matches_at(text, OP_KEY@, j - shift));
            }
        }
    }
}

/// A renumbered event is the event it was: it reads with the opcode that it
/// came with, and with the new number where the old one stood.
pub proof fn lemma_renumbered_keeps_opcode(payload: Seq<u8>, s: u64)
    requires
        payload.len() <= usize::MAX,
        parsed_event(payload) is Some,
        parsed_event(payload)->0.sequence is Some,
    ensures
        ({
            let event = parsed_event(payload)->0;
            let at = event.sequence->0;
            &&& parsed_event(renumbered(payload, at, s)) matches Some(read)
            &&& read.op == event.op
            &&& read.sequence == Some(
                SequenceInfo {
                    value: s,
                    start: at.start,
                    end: (at.start + decimal_digits(s as nat).len()) as usize,
                },
            )
        }),
{
    let event = parsed_event(payload)->0;
    let at = event.sequence->0;
    let frame = renumbered(payload, at, s);
    let d = decimal_digits(s as nat).len() as int;
    lemma_renumbered_reads_back(payload, SEQUENCE_KEY@, s);
    lemma_read_then_stands(payload, SEQUENCE_KEY@);
    lemma_read_then_stands(payload, OP_KEY@);
    let k = key_at(payload, SEQUENCE_KEY@);
    let to = end_at(payload, SEQUENCE_KEY@);
    let lo = digits_from(payload, SEQUENCE_KEY@);
    let hi = digits_to(payload, SEQUENCE_KEY@);
    let k2 = key_at(payload, OP_KEY@);
    let to2 = end_at(payload, OP_KEY@);
    let lo2 = digits_from(payload, OP_KEY@);
    let hi2 = digits_to(payload, OP_KEY@);
    assert(k + 4 <= lo < hi <= to < payload.len() && k2 + 5 <= lo2 < hi2 <= to2 < payload.len()
        && 0 <= k && 0 <= k2 && matches_at(payload, OP_KEY@, k2) && (forall|j: int|
        0 <= j < k2 ==> !matches_at(payload, OP_KEY@, j))) by {
        reveal(stands);
        lemma_key_bytes();
    }
    assert(at.start == lo && at.end == hi);
    lemma_renumbered_is_spliced(payload, at, s);
    lemma_fields_apart(payload, k, to, lo, hi, k2, to2, lo2, hi2);
    let delta = if to2 < k {
        0
    } else {
        d - (hi - lo)
    };
    assert(frame.len() == payload.len() - (hi - lo) + d && 1 <= d) by {
        reveal(spliced);
    }
    if to2 < k {
        lemma_first_before(payload, frame, lo, hi, d, k2);
        assert forall|j: int| k2 <= j <= to2 implies #[trigger] frame[j] == payload[j - 0] by {
            reveal(spliced);
        }
    } else {
        lemma_first_after(payload, frame, lo, hi, d, k2);
        assert forall|j: int| k2 + delta <= j <= to2 + delta implies #[trigger] frame[j]
            == payload[j - delta] by {
            reveal(spliced);
        }
    }
    lemma_stands_moves(payload, frame, OP_KEY@, k2, to2, lo2, hi2, delta);
    lemma_stands_then_read(frame, OP_KEY@, k2 + delta, to2 + delta, lo2 + delta, hi2 + delta);
    lemma_key_bytes();
}

} // verus!
