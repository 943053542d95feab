//! The frames that the engine writes itself, and the text they are made of.

use vstd::prelude::*;
use crate::decimal::{decimal_digits, is_digit, lemma_digits_read_back, push_decimal};
use crate::event::{
    event_type_span, integer_field, parsed_event, SequenceInfo, Span, CLOSING_BRACE, COMMA, OP_KEY,
    QUOTE, SEQUENCE_KEY, TYPE_KEY,
};
use crate::scan::{
    after_blanks, append, before_blanks, first_match, first_of, lemma_after_blanks_is,
    lemma_before_blanks_is, lemma_find_from_finds, lemma_first_of_finds, matches_at,
};

verus! {

/// Opcode of a dispatch, the frame that carries an event.
pub const DISPATCH: u8 = 0;

/// Opcode of a client's heartbeat.
pub const HEARTBEAT: u8 = 1;

/// Opcode of a client's IDENTIFY.
pub const IDENTIFY: u8 = 2;

/// Opcode of a client's RESUME.
pub const RESUME: u8 = 6;

/// Opcode of INVALID_SESSION.
pub const INVALID_SESSION: u8 = 9;

/// Opcode of HELLO.
pub const HELLO: u8 = 10;

/// Opcode of HEARTBEAT_ACK.
pub const HEARTBEAT_ACK: u8 = 11;

/// The heartbeat interval that HELLO announces, in milliseconds.
pub const HEARTBEAT_INTERVAL: u64 = 41250;

/// How a frame begins: `{"t":`.
pub const FRAME_OPEN: [u8; 5] = ['{' as u8, '"' as u8, 't' as u8, '"' as u8, ':' as u8];

/// Before a frame's sequence number: `,"s":`.
pub const SEQUENCE_PART: [u8; 5] = [',' as u8, '"' as u8, 's' as u8, '"' as u8, ':' as u8];

/// Before a frame's opcode: `,"op":`.
pub const OP_PART: [u8; 6] = [
    ',' as u8,
    '"' as u8,
    'o' as u8,
    'p' as u8,
    '"' as u8,
    ':' as u8,
];

/// Before a frame's data: `,"d":`.
pub const DATA_PART: [u8; 5] = [',' as u8, '"' as u8, 'd' as u8, '"' as u8, ':' as u8];

/// The text `null`.
pub const NULL: [u8; 4] = ['n' as u8, 'u' as u8, 'l' as u8, 'l' as u8];

/// The text `false`.
pub const FALSE: [u8; 5] = ['f' as u8, 'a' as u8, 'l' as u8, 's' as u8, 'e' as u8];

/// How the data of HELLO begins: `{"heartbeat_interval":`.
pub const HELLO_OPEN: [u8; 22] = [
    '{' as u8,
    '"' as u8,
    'h' as u8,
    'e' as u8,
    'a' as u8,
    'r' as u8,
    't' as u8,
    'b' as u8,
    'e' as u8,
    'a' as u8,
    't' as u8,
    '_' as u8,
    'i' as u8,
    'n' as u8,
    't' as u8,
    'e' as u8,
    'r' as u8,
    'v' as u8,
    'a' as u8,
    'l' as u8,
    '"' as u8,
    ':' as u8,
];

/// An event's name as a frame holds it: in quotes, or `null` without one.
pub open spec fn name_text(event: Option<Seq<u8>>) -> Seq<u8> {
    match event {
        Some(name) => seq![QUOTE] + name + seq![QUOTE],
        None => NULL@,
    }
}

/// A sequence number as a frame holds it: in digits, or `null` without one.
pub open spec fn sequence_text(sequence: Option<u64>) -> Seq<u8> {
    match sequence {
        Some(n) => decimal_digits(n as nat),
        None => NULL@,
    }
}

/// The text of a frame: `{"t":` name `,"s":` sequence `,"op":` opcode `,"d":`
/// data `}`.
pub open spec fn frame_text(event: Option<Seq<u8>>, sequence: Option<u64>, op: u8, data: Seq<u8>) -> Seq<u8> {
    FRAME_OPEN@ + name_text(event) + SEQUENCE_PART@ + sequence_text(sequence) + OP_PART@
        + decimal_digits(op as nat) + DATA_PART@ + data + seq![CLOSING_BRACE]
}

/// The data of HELLO: `{"heartbeat_interval":41250}`.
pub open spec fn hello_data() -> Seq<u8> {
    HELLO_OPEN@ + decimal_digits(HEARTBEAT_INTERVAL as nat) + seq![CLOSING_BRACE]
}

/// HELLO: `{"t":null,"s":null,"op":10,"d":{"heartbeat_interval":41250}}`.
pub open spec fn hello_text() -> Seq<u8> {
    frame_text(None, None, HELLO, hello_data())
}

/// HEARTBEAT_ACK: `{"t":null,"s":null,"op":11,"d":null}`.
pub open spec fn heartbeat_ack_text() -> Seq<u8> {
    frame_text(None, None, HEARTBEAT_ACK, NULL@)
}

/// INVALID_SESSION: `{"t":null,"s":null,"op":9,"d":false}`.
pub open spec fn invalid_session_text() -> Seq<u8> {
    frame_text(None, None, INVALID_SESSION, FALSE@)
}

/// Writes a frame out.
pub fn write_frame(event: Option<&[u8]>, sequence: Option<u64>, op: u8, data: &[u8]) -> (r: Vec<u8>)
    ensures
        r@ == frame_text(
            match event {
                Some(name) => Some(name@),
                None => None,
            },
            sequence,
            op,
            data@,
        ),
{
    let mut out: Vec<u8> = Vec::new();
    let part = FRAME_OPEN;
    append(&mut out, part.as_slice());
    let null = NULL;
    match event {
        Some(name) => {
            out.push(QUOTE);
            append(&mut out, name);
            out.push(QUOTE);
            assert(out@ =~= FRAME_OPEN@ + name_text(Some(name@)));
        },
        None => {
            append(&mut out, null.as_slice());
        },
    }
    let part = SEQUENCE_PART;
    append(&mut out, part.as_slice());
    match sequence {
        Some(n) => {
            push_decimal(&mut out, n);
        },
        None => {
            append(&mut out, null.as_slice());
        },
    }
    let part = OP_PART;
    append(&mut out, part.as_slice());
    push_decimal(&mut out, op as u64);
    let part = DATA_PART;
    append(&mut out, part.as_slice());
    append(&mut out, data);
    out.push(CLOSING_BRACE);
    assert(out@ =~= frame_text(
        match event {
            Some(name) => Some(name@),
            None => None,
        },
        sequence,
        op,
        data@,
    ));
    out
}

/// The HELLO frame.
pub fn hello() -> (r: Vec<u8>)
    ensures
        r@ == hello_text(),
{
    let mut data: Vec<u8> = Vec::new();
    let part = HELLO_OPEN;
    append(&mut data, part.as_slice());
    push_decimal(&mut data, HEARTBEAT_INTERVAL);
    data.push(CLOSING_BRACE);
    assert(data@ =~= hello_data());
    write_frame(None, None, HELLO, data.as_slice())
}

/// The HEARTBEAT_ACK frame.
pub fn heartbeat_ack() -> (r: Vec<u8>)
    ensures
        r@ == heartbeat_ack_text(),
{
    let null = NULL;
    write_frame(None, None, HEARTBEAT_ACK, null.as_slice())
}

/// The INVALID_SESSION frame.
pub fn invalid_session() -> (r: Vec<u8>)
    ensures
        r@ == invalid_session_text(),
{
    let no = FALSE;
    write_frame(None, None, INVALID_SESSION, no.as_slice())
}

/// A name that can stand between quotes as it is: it holds no quote.
pub open spec fn plain_name(name: Seq<u8>) -> bool {
    forall|i: int| 0 <= i < name.len() ==> name[i] != QUOTE
}

/// Where the parts of a frame with a name and a sequence number stand in its
/// text.
proof fn lemma_frame_layout(name: Seq<u8>, s: u64, op: u8, data: Seq<u8>)
    ensures
        ({
            let text = frame_text(Some(name), Some(s), op, data);
            let n = name.len() as int;
            let number = decimal_digits(s as nat);
            let d = number.len() as int;
            let code = decimal_digits(op as nat);
            let e = code.len() as int;
            &&& text.len() == 24 + n + d + e + data.len()
            &&& forall|i: int| 0 <= i < 5 ==> text[i] == FRAME_OPEN@[i]
            &&& text[5] == QUOTE
            &&& forall|i: int| 0 <= i < n ==> text[6 + i] == name[i]
            &&& text[6 + n] == QUOTE
            &&& forall|i: int| 0 <= i < 5 ==> text[7 + n + i] == SEQUENCE_PART@[i]
            &&& forall|i: int| 0 <= i < d ==> text[12 + n + i] == number[i]
            &&& forall|i: int| 0 <= i < 6 ==> text[12 + n + d + i] == OP_PART@[i]
            &&& forall|i: int| 0 <= i < e ==> text[18 + n + d + i] == code[i]
            &&& forall|i: int| 0 <= i < 5 ==> text[18 + n + d + e + i] == DATA_PART@[i]
        }),
{
    let n = name.len() as int;
    let number = decimal_digits(s as nat);
    let d = number.len() as int;
    let code = decimal_digits(op as nat);
    let e = code.len() as int;
    let a = FRAME_OPEN@ + name_text(Some(name));
    assert(a.len() == 7 + n);
    assert forall|i: int| 0 <= i < 7 + n implies a[i] == (if i < 5 {
        FRAME_OPEN@[i]
    } else if i == 5 || i == 6 + n {
        QUOTE
    } else {
        name[i - 6]
    }) by {}
    let b = a + SEQUENCE_PART@;
    let c = b + sequence_text(Some(s));
    assert(c.len() == 12 + n + d);
    let f = c + OP_PART@;
    let g = f + code;
    assert(g.len() == 18 + n + d + e);
    let h = g + DATA_PART@;
    let text = h + data + seq![CLOSING_BRACE];
    assert(text == frame_text(Some(name), Some(s), op, data));
    assert forall|i: int| 0 <= i < h.len() implies text[i] == h[i] by {}
    assert forall|i: int| 0 <= i < 5 implies text[i] == FRAME_OPEN@[i] by {
        assert(h[i] == a[i]);
    }
    assert(text[5] == QUOTE) by {
        assert(h[5] == a[5]);
    }
    assert forall|i: int| 0 <= i < n implies text[6 + i] == name[i] by {
        assert(h[6 + i] == a[6 + i]);
    }
    assert(text[6 + n] == QUOTE) by {
        assert(h[6 + n] == a[6 + n]);
    }
    assert forall|i: int| 0 <= i < 5 implies text[7 + n + i] == SEQUENCE_PART@[i] by {
        assert(h[7 + n + i] == b[7 + n + i]);
    }
    assert forall|i: int| 0 <= i < d implies text[12 + n + i] == number[i] by {
        assert(h[12 + n + i] == c[12 + n + i]);
    }
    assert forall|i: int| 0 <= i < 6 implies text[12 + n + d + i] == OP_PART@[i] by {
        assert(h[12 + n + d + i] == f[12 + n + d + i]);
    }
    assert forall|i: int| 0 <= i < e implies text[18 + n + d + i] == code[i] by {
        assert(h[18 + n + d + i] == g[18 + n + d + i]);
    }
    assert forall|i: int| 0 <= i < 5 implies text[18 + n + d + e + i] == DATA_PART@[i] by {
        assert(h[18 + n + d + e + i] == DATA_PART@[i]);
    }
}

/// The text holds, in their places, what a frame with a plain name of `n`
/// bytes, a sequence number of `d` digits and an opcode of `e` digits holds up
/// to its data.
spec fn laid_out(text: Seq<u8>, n: int, d: int, e: int) -> bool {
    &&& 0 <= n && 1 <= d && 1 <= e
    &&& text.len() >= 24 + n + d + e
    &&& text[0] == 0x7b && text[1] == QUOTE && text[2] == 0x74 && text[3] == QUOTE && text[4]
        == 0x3a && text[5] == QUOTE
    &&& forall|j: int| 6 <= j < 6 + n ==> #[trigger] text[j] != QUOTE
    &&& text[6 + n] == QUOTE && text[7 + n] == COMMA && text[8 + n] == QUOTE && text[9 + n]
        == 0x73 && text[10 + n] == QUOTE && text[11 + n] == 0x3a
    &&& forall|j: int| 12 + n <= j < 12 + n + d ==> is_digit(#[trigger] text[j])
    &&& text[12 + n + d] == COMMA && text[13 + n + d] == QUOTE && text[14 + n + d] == 0x6f
        && text[15 + n + d] == 0x70 && text[16 + n + d] == QUOTE && text[17 + n + d] == 0x3a
    &&& forall|j: int| 18 + n + d <= j < 18 + n + d + e ==> is_digit(#[trigger] text[j])
    &&& text[18 + n + d + e] == COMMA
}

/// In such a text the name is read between its quotes.
proof fn lemma_reads_name(text: Seq<u8>, n: int, d: int, e: int)
    requires
        laid_out(text, n, d, e),
    ensures
        event_type_span(text) == Some(Span { start: 6, end: (6 + n) as usize }),
{
    let key = TYPE_KEY@;
    assert(matches_at(text, key, 1)) by {
        assert(text.subrange(1, 5) =~= key);
    }
    assert forall|j: int| 0 <= j < 1 implies !matches_at(text, key, j) by {
        if matches_at(text, key, j) {
            assert(text.subrange(j, j + 4)[0] == key[0]);
        }
    }
    lemma_find_from_finds(text, key, 0, 1);
    lemma_after_blanks_is(text, 5, text.len() as int, 5);
    lemma_first_of_finds(text, 6, QUOTE, QUOTE, 6 + n);
}

/// In such a text the sequence number is read from its digits.
proof fn lemma_reads_sequence(text: Seq<u8>, n: int, d: int, e: int)
    requires
        laid_out(text, n, d, e),
    ensures
        first_match(text, SEQUENCE_KEY@) == Some(8 + n),
        first_of(text, 12 + n, COMMA, CLOSING_BRACE) == Some(12 + n + d),
        after_blanks(text, 12 + n, 12 + n + d) == 12 + n,
        before_blanks(text, 12 + n, 12 + n + d) == 12 + n + d,
{
    let key = SEQUENCE_KEY@;
    let k = 8 + n;
    assert(matches_at(text, key, k)) by {
        assert(text.subrange(k, k + 4) =~= key);
    }
    assert forall|j: int| 0 <= j < k implies !matches_at(text, key, j) by {
        if matches_at(text, key, j) {
            let window = text.subrange(j, j + 4);
            assert(window[0] == text[j] && window[1] == text[j + 1] && window[2] == text[j + 2]
                && window[3] == text[j + 3]);
            assert(text[j] == QUOTE && text[j + 1] == 0x73 && text[j + 2] == QUOTE && text[j + 3]
                == 0x3a);
            if j == 5 {
                if n >= 2 {
                    assert(text[7] != QUOTE);
                }
            }
        }
    }
    lemma_find_from_finds(text, key, 0, k);
    lemma_first_of_finds(text, 12 + n, COMMA, CLOSING_BRACE, 12 + n + d);
    lemma_after_blanks_is(text, 12 + n, 12 + n + d, 12 + n);
    lemma_before_blanks_is(text, 12 + n, 12 + n + d, 12 + n + d);
}

/// In such a text the opcode is read from its digits.
proof fn lemma_reads_opcode(text: Seq<u8>, n: int, d: int, e: int)
    requires
        laid_out(text, n, d, e),
    ensures
        first_match(text, OP_KEY@) == Some(13 + n + d),
        first_of(text, 18 + n + d, COMMA, CLOSING_BRACE) == Some(18 + n + d + e),
        after_blanks(text, 18 + n + d, 18 + n + d + e) == 18 + n + d,
        before_blanks(text, 18 + n + d, 18 + n + d + e) == 18 + n + d + e,
{
    let key = OP_KEY@;
    let q = 13 + n + d;
    assert(matches_at(text, key, q)) by {
        assert(text.subrange(q, q + 5) =~= key);
    }
    assert forall|j: int| 0 <= j < q implies !matches_at(text, key, j) by {
        if matches_at(text, key, j) {
            let window = text.subrange(j, j + 5);
            assert(window[0] == text[j] && window[1] == text[j + 1] && window[2] == text[j + 2]
                && window[3] == text[j + 3] && window[4] == text[j + 4]);
            assert(text[j] == QUOTE && text[j + 1] == 0x6f && text[j + 2] == 0x70 && text[j + 3]
                == QUOTE && text[j + 4] == 0x3a);
            if j == 5 {
                if n >= 3 {
                    assert(text[8] != QUOTE);
                }
            }
        }
    }
    lemma_find_from_finds(text, key, 0, q);
    lemma_first_of_finds(text, 18 + n + d, COMMA, CLOSING_BRACE, 18 + n + d + e);
    lemma_after_blanks_is(text, 18 + n + d, 18 + n + d + e, 18 + n + d);
    lemma_before_blanks_is(text, 18 + n + d, 18 + n + d + e, 18 + n + d + e);
}

/// The text of a frame with a plain name and a sequence number is laid out as
/// `laid_out` says, and holds the name and the digits of both numbers.
proof fn lemma_frame_is_laid_out(name: Seq<u8>, s: u64, op: u8, data: Seq<u8>)
    requires
        plain_name(name),
    ensures
        ({
            let text = frame_text(Some(name), Some(s), op, data);
            let n = name.len() as int;
            let d = decimal_digits(s as nat).len() as int;
            let e = decimal_digits(op as nat).len() as int;
            &&& laid_out(text, n, d, e)
            &&& text.subrange(6, 6 + n) == name
            &&& text.subrange(12 + n, 12 + n + d) == decimal_digits(s as nat)
            &&& text.subrange(18 + n + d, 18 + n + d + e) == decimal_digits(op as nat)
        }),
{
    let text = frame_text(Some(name), Some(s), op, data);
    let n = name.len() as int;
    let number = decimal_digits(s as nat);
    let d = number.len() as int;
    let code = decimal_digits(op as nat);
    let e = code.len() as int;
    lemma_frame_layout(name, s, op, data);
    lemma_digits_read_back(s as nat);
    lemma_digits_read_back(op as nat);
    assert forall|j: int| 12 + n <= j < 12 + n + d implies is_digit(#[trigger] text[j]) by {
        assert(text[12 + n + (j - 12 - n)] == number[j - 12 - n]);
    }
    assert forall|j: int| 18 + n + d <= j < 18 + n + d + e implies is_digit(
        #[trigger] text[j],
    ) by {
        assert(text[18 + n + d + (j - 18 - n - d)] == code[j - 18 - n - d]);
    }
    assert forall|j: int| 6 <= j < 6 + n implies #[trigger] text[j] != QUOTE by {
        assert(text[6 + (j - 6)] == name[j - 6]);
    }
    assert(text[0] == FRAME_OPEN@[0] && text[1] == FRAME_OPEN@[1] && text[2] == FRAME_OPEN@[2]
        && text[3] == FRAME_OPEN@[3] && text[4] == FRAME_OPEN@[4]);
    assert(text[7 + n + 0] == SEQUENCE_PART@[0] && text[7 + n + 1] == SEQUENCE_PART@[1] && text[7
        + n + 2] == SEQUENCE_PART@[2] && text[7 + n + 3] == SEQUENCE_PART@[3] && text[7 + n + 4]
        == SEQUENCE_PART@[4]);
    assert(text[12 + n + d + 0] == OP_PART@[0] && text[12 + n + d + 1] == OP_PART@[1] && text[12
        + n + d + 2] == OP_PART@[2] && text[12 + n + d + 3] == OP_PART@[3] && text[12 + n + d
        + 4] == OP_PART@[4] && text[12 + n + d + 5] == OP_PART@[5]);
    assert(text[18 + n + d + e + 0] == DATA_PART@[0]);
    assert(text.subrange(6, 6 + n) =~= name) by {
        assert forall|i: int| 0 <= i < n implies text.subrange(6, 6 + n)[i] == name[i] by {
            assert(text[6 + i] == name[i]);
        }
    }
    assert(text.subrange(12 + n, 12 + n + d) =~= number) by {
        assert forall|i: int| 0 <= i < d implies text.subrange(12 + n, 12 + n + d)[i]
            == number[i] by {
            assert(text[12 + n + i] == number[i]);
        }
    }
    assert(text.subrange(18 + n + d, 18 + n + d + e) =~= code) by {
        assert forall|i: int| 0 <= i < e implies text.subrange(18 + n + d, 18 + n + d + e)[i]
            == code[i] by {
            assert(text[18 + n + d + i] == code[i]);
        }
    }
}

/// A frame reads as it was written: of the text of a frame with a plain name
/// and a sequence number, `from_json` reads the frame's opcode, its name and
/// its sequence number.
pub proof fn lemma_frame_reads_back(name: Seq<u8>, s: u64, op: u8, data: Seq<u8>)
    requires
        plain_name(name),
        frame_text(Some(name), Some(s), op, data).len() <= usize::MAX,
    ensures
        ({
            let text = frame_text(Some(name), Some(s), op, data);
            &&& parsed_event(text) matches Some(event)
            &&& event.op == op
            &&& event.names(text, name)
            &&& event.sequence matches Some(at)
            &&& at.value == s
        }),
{
    let text = frame_text(Some(name), Some(s), op, data);
    let n = name.len() as int;
    let d = decimal_digits(s as nat).len() as int;
    let e = decimal_digits(op as nat).len() as int;
    lemma_frame_is_laid_out(name, s, op, data);
    lemma_digits_read_back(s as nat);
    lemma_digits_read_back(op as nat);
    lemma_reads_name(text, n, d, e);
    lemma_reads_sequence(text, n, d, e);
    lemma_reads_opcode(text, n, d, e);
    assert(integer_field(text, SEQUENCE_KEY@) == Some(
        SequenceInfo { value: s, start: (12 + n) as usize, end: (12 + n + d) as usize },
    ));
    assert(integer_field(text, OP_KEY@) == Some(
        SequenceInfo {
            value: op as u64,
            start: (18 + n + d) as usize,
            end: (18 + n + d + e) as usize,
        },
    ));
}

} // verus!
