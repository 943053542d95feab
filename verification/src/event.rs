//! What the engine reads of a frame without decoding it: the opcode, the place
//! of the event's name and the place of the sequence number.

use vstd::prelude::*;
use crate::decimal::{parse_decimal, parsed_decimal};
use crate::scan::{
    after_blanks, before_blanks, find, find_either, first_match, first_of, position, same_bytes,
    skip_blanks, skip_blanks_back,
};

verus! {

/// The key before a frame's opcode: `"op":`.
pub const OP_KEY: [u8; 5] = ['"' as u8, 'o' as u8, 'p' as u8, '"' as u8, ':' as u8];

/// The key before a frame's event name: `"t":`.
pub const TYPE_KEY: [u8; 4] = ['"' as u8, 't' as u8, '"' as u8, ':' as u8];

/// The key before a frame's sequence number: `"s":`.
pub const SEQUENCE_KEY: [u8; 4] = ['"' as u8, 's' as u8, '"' as u8, ':' as u8];

/// The byte `"`.
pub const QUOTE: u8 = 0x22;

/// The byte `,`, which ends a value inside an object.
pub const COMMA: u8 = 0x2c;

/// The byte `}`, which ends an object's last value.
pub const CLOSING_BRACE: u8 = 0x7d;

/// A stretch of a frame's text, from `start` up to `end`.
#[derive(Clone, Copy, Debug, PartialEq, Eq)]
pub struct Span {
    pub start: usize,
    pub end: usize,
}

/// A frame's sequence number and the bytes of the frame that hold its digits.
#[derive(Clone, Copy, Debug, PartialEq, Eq)]
pub struct SequenceInfo {
    pub value: u64,
    pub start: usize,
    pub end: usize,
}

/// What has been read of a frame.
#[derive(Clone, Copy, Debug, PartialEq, Eq)]
pub struct GatewayEvent {
    pub op: u8,
    pub event_type: Option<Span>,
    pub sequence: Option<SequenceInfo>,
}

/// The number that follows the first `key` of `input`: the text from the key up
/// to the next `,` or `}`, blanks taken off at both ends, read as a decimal
/// number. Nothing where the key or the end is missing or the text is no
/// number of 64 bits.
pub open spec fn integer_field(input: Seq<u8>, key: Seq<u8>) -> Option<SequenceInfo> {
    match first_match(input, key) {
        None => None,
        Some(at) => match first_of(input, at + key.len(), COMMA, CLOSING_BRACE) {
            None => None,
            Some(to) => {
                let lo = after_blanks(input, at + key.len(), to);
                let hi = before_blanks(input, lo, to);
                match parsed_decimal(input.subrange(lo, hi)) {
                    None => None,
                    Some(value) => Some(SequenceInfo { value, start: lo as usize, end: hi as usize }),
                }
            },
        },
    }
}

/// The place of the event's name: what stands between the quotes of the string
/// that follows the first `"t":` of `input`. Nothing where the key is missing
/// or what follows it is no string.
pub open spec fn event_type_span(input: Seq<u8>) -> Option<Span> {
    match first_match(input, TYPE_KEY@) {
        None => None,
        Some(at) => {
            let open = after_blanks(input, at + TYPE_KEY@.len(), input.len() as int);
            if open < input.len() && input[open] == QUOTE {
                match first_of(input, open + 1, QUOTE, QUOTE) {
                    None => None,
                    Some(close) => Some(Span { start: (open + 1) as usize, end: close as usize }),
                }
            } else {
                None
            }
        },
    }
}

/// What `from_json` reads of `input`: nothing unless it holds an opcode that
/// fits a byte.
pub open spec fn parsed_event(input: Seq<u8>) -> Option<GatewayEvent> {
    match integer_field(input, OP_KEY@) {
        None => None,
        Some(op) => if op.value <= 255 {
            Some(
                GatewayEvent {
                    op: op.value as u8,
                    event_type: event_type_span(input),
                    sequence: integer_field(input, SEQUENCE_KEY@),
                },
            )
        } else {
            None
        },
    }
}

/// The number that follows the first `key` of `input`.
pub fn find_integer(input: &[u8], key: &[u8]) -> (r: Option<SequenceInfo>)
    ensures
        r == integer_field(input@, key@),
        r matches Some(found) ==> found.start < found.end <= input@.len(),
{
    let at = match find(input, key) {
        Some(at) => at,
        None => {
            return None;
        },
    };
    let total = input.len();
    proof {
        crate::scan::lemma_find_from_is_least(input@, key@, 0);
        assert(at + key@.len() <= total);
    }
    let from = at + key.len();
    let to = match find_either(input, from, COMMA, CLOSING_BRACE) {
        Some(to) => to,
        None => {
            return None;
        },
    };
    let lo = skip_blanks(input, from, to);
    let hi = skip_blanks_back(input, lo, to);
    match parse_decimal(input, lo, hi) {
        Some(value) => Some(SequenceInfo { value, start: lo, end: hi }),
        None => None,
    }
}

/// The place of the event's name in `input`.
pub fn find_event_type(input: &[u8]) -> (r: Option<Span>)
    ensures
        r == event_type_span(input@),
        r matches Some(span) ==> span.start <= span.end < input@.len(),
{
    let key = TYPE_KEY;
    let at = match find(input, key.as_slice()) {
        Some(at) => at,
        None => {
            return None;
        },
    };
    let total = input.len();
    proof {
        crate::scan::lemma_find_from_is_least(input@, TYPE_KEY@, 0);
        assert(at + 4 <= total);
    }
    let open = skip_blanks(input, at + 4, total);
    if open < input.len() && input[open] == QUOTE {
        match find_either(input, open + 1, QUOTE, QUOTE) {
            Some(close) => Some(Span { start: open + 1, end: close }),
            None => None,
        }
    } else {
        None
    }
}

impl GatewayEvent {
    /// The places that were read lie inside a text of `len` bytes.
    pub open spec fn within(&self, len: nat) -> bool {
        &&& self.event_type matches Some(span) ==> span.start <= span.end <= len
        &&& self.sequence matches Some(found) ==> found.start <= found.end <= len
    }

    /// The event's name in `input` is `name`.
    pub open spec fn names(&self, input: Seq<u8>, name: Seq<u8>) -> bool {
        self.event_type matches Some(span) && input.subrange(span.start as int, span.end as int)
            == name
    }

    /// Reads the opcode of `input` and, where they are found, the places of its
    /// event name and of its sequence number.
    pub fn from_json(input: &[u8]) -> (r: Option<GatewayEvent>)
        ensures
            r == parsed_event(input@),
            r matches Some(event) ==> event.within(input@.len()),
    {
        let key = OP_KEY;
        let op = match find_integer(input, key.as_slice()) {
            Some(found) => found.value,
            None => {
                return None;
            },
        };
        if op > 255 {
            return None;
        }
        let event_type = find_event_type(input);
        let key = SEQUENCE_KEY;
        let sequence = find_integer(input, key.as_slice());
        Some(GatewayEvent { op: op as u8, event_type, sequence })
    }

    /// The opcode.
    pub fn op(&self) -> (r: u8)
        ensures
            r == self.op,
    {
        self.op
    }

    /// Whether the event's name in `input`, the text this was read from, is
    /// `name`.
    pub fn is_named(&self, input: &[u8], name: &[u8]) -> (r: bool)
        requires
            self.within(input@.len()),
        ensures
            r == self.names(input@, name@),
    {
        match self.event_type {
            Some(span) => {
                let found = vstd::slice::slice_subrange(input, span.start, span.end);
                same_bytes(found, name)
            },
            None => false,
        }
    }
}

} // verus!
