//! The READY that a shard got upstream, kept without its guilds, and the READY
//! that each client is given in its place.

use vstd::prelude::*;
use crate::decimal::{decimal_digits, push_decimal};
use crate::event::{CLOSING_BRACE, COMMA};
use crate::protocol::{frame_text, write_frame, DISPATCH};
use crate::scan::{append, same_bytes};

verus! {

/// The byte `:`.
pub const COLON: u8 = 0x3a;

/// The byte `{`.
pub const OPENING_BRACE: u8 = 0x7b;

/// The byte `[`.
pub const OPENING_BRACKET: u8 = 0x5b;

/// The byte `]`.
pub const CLOSING_BRACKET: u8 = 0x5d;

/// The name of the READY event.
pub const READY: [u8; 5] = ['R' as u8, 'E' as u8, 'A' as u8, 'D' as u8, 'Y' as u8];

/// The key of a READY's list of guilds, as it stands in the text: `"guilds"`.
pub const GUILDS_KEY: [u8; 8] = [
    '"' as u8,
    'g' as u8,
    'u' as u8,
    'i' as u8,
    'l' as u8,
    'd' as u8,
    's' as u8,
    '"' as u8,
];

/// How the entry of an unavailable guild begins: `{"id":"`.
pub const STUB_OPEN: [u8; 7] = [
    '{' as u8,
    '"' as u8,
    'i' as u8,
    'd' as u8,
    '"' as u8,
    ':' as u8,
    '"' as u8,
];

/// How the entry of an unavailable guild ends: `","unavailable":true}`.
pub const STUB_CLOSE: [u8; 21] = [
    '"' as u8,
    ',' as u8,
    '"' as u8,
    'u' as u8,
    'n' as u8,
    'a' as u8,
    'v' as u8,
    'a' as u8,
    'i' as u8,
    'l' as u8,
    'a' as u8,
    'b' as u8,
    'l' as u8,
    'e' as u8,
    '"' as u8,
    ':' as u8,
    't' as u8,
    'r' as u8,
    'u' as u8,
    'e' as u8,
    '}' as u8,
];

/// One member of a JSON object, both parts as they stand in the text: the key
/// with its quotes, and the value.
#[derive(Clone, Debug, PartialEq, Eq)]
pub struct JsonMember {
    pub key: Vec<u8>,
    pub value: Vec<u8>,
}

/// A `JsonMember` as the text of its two parts.
pub ghost struct Member {
    pub key: Seq<u8>,
    pub value: Seq<u8>,
}

impl View for JsonMember {
    type V = Member;

    open spec fn view(&self) -> Member {
        Member { key: self.key@, value: self.value@ }
    }
}

/// The members that a list holds.
pub open spec fn members_of(list: Seq<JsonMember>) -> Seq<Member> {
    list.map_values(|m: JsonMember| m@)
}

/// Holds of every member but the list of guilds.
pub open spec fn not_guilds() -> spec_fn(Member) -> bool {
    |m: Member| m.key != GUILDS_KEY@
}

/// The data of a READY with its guilds cleared: its other members, in their
/// order.
pub struct ReadySnapshot {
    fields: Vec<JsonMember>,
}

impl View for ReadySnapshot {
    type V = Seq<Member>;

    closed spec fn view(&self) -> Seq<Member> {
        members_of(self.fields@)
    }
}

/// The READY that a client is sent: the shard's READY with the guilds that are
/// tracked now, and the client's own sequence number.
#[derive(Clone, Debug, PartialEq, Eq)]
pub struct ReadyPayload {
    pub s: u64,
    pub fields: Vec<JsonMember>,
    pub guilds: Vec<u64>,
}

/// A member as it stands before the list of guilds: key, `:`, value, `,`.
pub open spec fn field_text(m: Member) -> Seq<u8> {
    m.key + seq![COLON] + m.value + seq![COMMA]
}

/// The members of a READY's data, each followed by a comma.
pub open spec fn fields_text(fields: Seq<Member>) -> Seq<u8>
    decreases fields.len(),
{
    if fields.len() == 0 {
        Seq::empty()
    } else {
        fields_text(fields.drop_last()) + field_text(fields.last())
    }
}

/// The entry of a guild in a client's READY, which marks it unavailable:
/// `{"id":"` the number `","unavailable":true}`.
pub open spec fn guild_stub(id: u64) -> Seq<u8> {
    STUB_OPEN@ + decimal_digits(id as nat) + STUB_CLOSE@
}

/// The entries of the guilds, with commas between them.
pub open spec fn stubs_text(ids: Seq<u64>) -> Seq<u8>
    decreases ids.len(),
{
    if ids.len() == 0 {
        Seq::empty()
    } else if ids.len() == 1 {
        guild_stub(ids[0])
    } else {
        stubs_text(ids.drop_last()) + seq![COMMA] + guild_stub(ids.last())
    }
}

/// The data of a client's READY: the kept members, then `"guilds":[` the
/// entries `]`, in braces.
pub open spec fn ready_data(fields: Seq<Member>, guilds: Seq<u64>) -> Seq<u8> {
    seq![OPENING_BRACE] + fields_text(fields) + GUILDS_KEY@ + seq![COLON, OPENING_BRACKET]
        + stubs_text(guilds) + seq![CLOSING_BRACKET, CLOSING_BRACE]
}

/// The text of a client's READY.
pub open spec fn ready_text(fields: Seq<Member>, guilds: Seq<u64>, s: u64) -> Seq<u8> {
    frame_text(Some(READY@), Some(s), DISPATCH, ready_data(fields, guilds))
}

/// A copy of a list of members.
pub fn copy_members(list: &Vec<JsonMember>) -> (r: Vec<JsonMember>)
    ensures
        members_of(r@) == members_of(list@),
{
    let mut out: Vec<JsonMember> = Vec::new();
    let mut i: usize = 0;
    while i < list.len()
        invariant
            i <= list@.len(),
            out@.len() == i,
            forall|k: int| 0 <= k < i ==> (#[trigger] out@[k])@ == list@[k]@,
        decreases list@.len() - i,
    {
        let m = &list[i];
        let copy = JsonMember {
            key: vstd::slice::slice_to_vec(m.key.as_slice()),
            value: vstd::slice::slice_to_vec(m.value.as_slice()),
        };
        out.push(copy);
        i = i + 1;
    }
    assert(members_of(out@) =~= members_of(list@));
    out
}

/// Appends the entry of an unavailable guild to `out`.
pub fn push_guild_stub(out: &mut Vec<u8>, id: u64)
    ensures
        final(out)@ == old(out)@ + guild_stub(id),
{
    let open = STUB_OPEN;
    append(out, open.as_slice());
    push_decimal(out, id);
    let close = STUB_CLOSE;
    append(out, close.as_slice());
    assert(out@ =~= old(out)@ + guild_stub(id));
}

impl ReadySnapshot {
    /// Keeps the data of a READY, given as its members: all of them but the
    /// list of guilds.
    pub fn new(members: Vec<JsonMember>) -> (r: ReadySnapshot)
        ensures
            r@ == members_of(members@).filter(not_guilds()),
    {
        let ghost all = members_of(members@);
        let key = GUILDS_KEY;
        let mut fields: Vec<JsonMember> = Vec::new();
        let mut i: usize = 0;
        while i < members.len()
            invariant
                i <= members@.len(),
                all == members_of(members@),
                key@ == GUILDS_KEY@,
                members_of(fields@) == all.take(i as int).filter(not_guilds()),
            decreases members@.len() - i,
        {
            let m = &members[i];
            proof {
                reveal(Seq::filter);
                assert(all.take(i + 1).drop_last() =~= all.take(i as int));
                assert(all.take(i + 1).last() == m@);
            }
            if !same_bytes(m.key.as_slice(), key.as_slice()) {
                let ghost before = members_of(fields@);
                let copy = JsonMember {
                    key: vstd::slice::slice_to_vec(m.key.as_slice()),
                    value: vstd::slice::slice_to_vec(m.value.as_slice()),
                };
                fields.push(copy);
                assert(members_of(fields@) =~= before.push(m@));
            }
            i = i + 1;
        }
        proof {
            assert(all.take(i as int) =~= all);
        }
        ReadySnapshot { fields }
    }

    /// The kept members.
    pub fn fields(&self) -> (r: &Vec<JsonMember>)
        ensures
            members_of(r@) == self@,
    {
        &self.fields
    }
}

impl ReadyPayload {
    /// Writes the READY out as a frame.
    pub fn to_json(&self) -> (r: Vec<u8>)
        ensures
            r@ == ready_text(members_of(self.fields@), self.guilds@, self.s),
    {
        let ghost fields = members_of(self.fields@);
        let mut data: Vec<u8> = Vec::new();
        data.push(OPENING_BRACE);
        let mut i: usize = 0;
        while i < self.fields.len()
            invariant
                i <= self.fields@.len(),
                fields == members_of(self.fields@),
                data@ == seq![OPENING_BRACE] + fields_text(fields.take(i as int)),
            decreases self.fields@.len() - i,
        {
            let m = &self.fields[i];
            proof {
                assert(fields.take(i + 1).drop_last() =~= fields.take(i as int));
                assert(fields.take(i + 1).last() == m@);
            }
            let ghost before = data@;
            append(&mut data, m.key.as_slice());
            data.push(COLON);
            append(&mut data, m.value.as_slice());
            data.push(COMMA);
            assert(data@ =~= before + field_text(m@));
            assert(data@ =~= seq![OPENING_BRACE] + fields_text(fields.take(i + 1)));
            i = i + 1;
        }
        assert(fields.take(i as int) =~= fields);
        let key = GUILDS_KEY;
        append(&mut data, key.as_slice());
        data.push(COLON);
        data.push(OPENING_BRACKET);
        let ghost head = data@;
        assert(head =~= seq![OPENING_BRACE] + fields_text(fields) + GUILDS_KEY@ + seq![
            COLON,
            OPENING_BRACKET,
        ]);
        let mut j: usize = 0;
        while j < self.guilds.len()
            invariant
                j <= self.guilds@.len(),
                data@ == head + stubs_text(self.guilds@.take(j as int)),
            decreases self.guilds@.len() - j,
        {
            proof {
                assert(self.guilds@.take(j + 1).drop_last() =~= self.guilds@.take(j as int));
                assert(self.guilds@.take(j + 1).last() == self.guilds@[j as int]);
                assert(self.guilds@.take(j + 1)[0] == self.guilds@[0]);
            }
            let ghost before = data@;
            if j > 0 {
                data.push(COMMA);
            }
            push_guild_stub(&mut data, self.guilds[j]);
            assert(data@ =~= head + stubs_text(self.guilds@.take(j + 1)));
            j = j + 1;
        }
        assert(self.guilds@.take(j as int) =~= self.guilds@);
        data.push(CLOSING_BRACKET);
        data.push(CLOSING_BRACE);
        assert(data@ =~= ready_data(fields, self.guilds@));
        let name = READY;
        write_frame(Some(name.as_slice()), Some(self.s), DISPATCH, data.as_slice())
    }
}

} // verus!
