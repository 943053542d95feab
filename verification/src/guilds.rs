//! The guilds that a shard knows of, and the frames that bring a new client up
//! to date with them.

use vstd::prelude::*;
use crate::protocol::{frame_text, write_frame, DISPATCH};
use crate::ready::{copy_members, guild_stub, push_guild_stub, ReadyPayload, ReadySnapshot};

verus! {

/// The name of the event that brings a guild: `GUILD_CREATE`.
pub const GUILD_CREATE: [u8; 12] = [
    'G' as u8,
    'U' as u8,
    'I' as u8,
    'L' as u8,
    'D' as u8,
    '_' as u8,
    'C' as u8,
    'R' as u8,
    'E' as u8,
    'A' as u8,
    'T' as u8,
    'E' as u8,
];

/// The name of the event that takes a guild away: `GUILD_DELETE`.
pub const GUILD_DELETE: [u8; 12] = [
    'G' as u8,
    'U' as u8,
    'I' as u8,
    'L' as u8,
    'D' as u8,
    '_' as u8,
    'D' as u8,
    'E' as u8,
    'L' as u8,
    'E' as u8,
    'T' as u8,
    'E' as u8,
];

/// The name of the event that changes a guild: `GUILD_UPDATE`.
pub const GUILD_UPDATE: [u8; 12] = [
    'G' as u8,
    'U' as u8,
    'I' as u8,
    'L' as u8,
    'D' as u8,
    '_' as u8,
    'U' as u8,
    'P' as u8,
    'D' as u8,
    'A' as u8,
    'T' as u8,
    'E' as u8,
];

/// What is kept of one guild: whether it is unavailable, and its data as the
/// last GUILD_CREATE or GUILD_UPDATE gave it.
#[derive(Clone, Debug, PartialEq, Eq)]
pub struct GuildRecord {
    pub id: u64,
    pub unavailable: bool,
    pub snapshot: Vec<u8>,
}

/// A `GuildRecord` with its data as text.
pub ghost struct GuildEntry {
    pub id: u64,
    pub unavailable: bool,
    pub snapshot: Seq<u8>,
}

impl View for GuildRecord {
    type V = GuildEntry;

    open spec fn view(&self) -> GuildEntry {
        GuildEntry { id: self.id, unavailable: self.unavailable, snapshot: self.snapshot@ }
    }
}

/// One frame of those that follow a client's READY.
#[derive(Clone, Debug, PartialEq, Eq)]
pub enum GuildDispatch {
    /// A GUILD_CREATE with the guild's data.
    Create { s: u64, id: u64, snapshot: Vec<u8> },
    /// A GUILD_DELETE that marks the guild unavailable.
    Delete { s: u64, id: u64 },
}

/// A `GuildDispatch` with its data as text.
pub ghost enum GuildFrame {
    Create { s: u64, id: u64, snapshot: Seq<u8> },
    Delete { s: u64, id: u64 },
}

impl View for GuildDispatch {
    type V = GuildFrame;

    open spec fn view(&self) -> GuildFrame {
        match *self {
            GuildDispatch::Create { s, id, snapshot } => GuildFrame::Create {
                s,
                id,
                snapshot: snapshot@,
            },
            GuildDispatch::Delete { s, id } => GuildFrame::Delete { s, id },
        }
    }
}

/// No guild has two entries.
pub open spec fn distinct(entries: Seq<GuildEntry>) -> bool {
    forall|i: int, j: int|
        0 <= i < j < entries.len() ==> (#[trigger] entries[i]).id != (#[trigger] entries[j]).id
}

/// The guild has an entry.
pub open spec fn tracks(entries: Seq<GuildEntry>, id: u64) -> bool {
    exists|i: int| 0 <= i < entries.len() && (#[trigger] entries[i]).id == id
}

/// Where the guild's entry stands.
pub open spec fn index_of(entries: Seq<GuildEntry>, id: u64) -> int {
    choose|i: int| 0 <= i < entries.len() && (#[trigger] entries[i]).id == id
}

/// The entries after a GUILD_CREATE: the guild's entry holds the new data and
/// is available; a guild not known before comes last.
pub open spec fn created(entries: Seq<GuildEntry>, id: u64, snapshot: Seq<u8>) -> Seq<GuildEntry> {
    let entry = GuildEntry { id, unavailable: false, snapshot };
    if tracks(entries, id) {
        entries.update(index_of(entries, id), entry)
    } else {
        entries.push(entry)
    }
}

/// The entries after a GUILD_UPDATE: the guild's entry holds the new data and
/// is as available as before; for a guild not known nothing changes.
pub open spec fn updated(entries: Seq<GuildEntry>, id: u64, snapshot: Seq<u8>) -> Seq<GuildEntry> {
    if tracks(entries, id) {
        let at = index_of(entries, id);
        entries.update(at, GuildEntry { id, unavailable: entries[at].unavailable, snapshot })
    } else {
        entries
    }
}

/// The entries after a GUILD_DELETE. One that reports the guild unavailable
/// marks its entry and keeps the data; a guild not known before gets an entry
/// without data. Any other takes the guild's entry away.
pub open spec fn deleted(entries: Seq<GuildEntry>, id: u64, unavailable: bool) -> Seq<GuildEntry> {
    if unavailable {
        if tracks(entries, id) {
            let at = index_of(entries, id);
            entries.update(at, GuildEntry { id, unavailable: true, snapshot: entries[at].snapshot })
        } else {
            entries.push(GuildEntry { id, unavailable: true, snapshot: Seq::empty() })
        }
    } else {
        if tracks(entries, id) {
            entries.remove(index_of(entries, id))
        } else {
            entries
        }
    }
}

/// The guilds that have an entry, in the entries' order.
pub open spec fn ids_of(entries: Seq<GuildEntry>) -> Seq<u64> {
    entries.map_values(|e: GuildEntry| e.id)
}

/// The frame that tells a new client of one guild: a GUILD_CREATE with the
/// kept data if the guild is available, a GUILD_DELETE if it is not.
pub open spec fn guild_frame(entry: GuildEntry, s: u64) -> GuildFrame {
    if entry.unavailable {
        GuildFrame::Delete { s, id: entry.id }
    } else {
        GuildFrame::Create { s, id: entry.id, snapshot: entry.snapshot }
    }
}

/// The guild that a frame tells of.
pub open spec fn guild_of(frame: GuildFrame) -> u64 {
    match frame {
        GuildFrame::Create { id, .. } => id,
        GuildFrame::Delete { id, .. } => id,
    }
}

/// The frames that follow a client's READY when the first of them is numbered
/// `first`: one for each entry, in the entries' order.
pub open spec fn burst(entries: Seq<GuildEntry>, first: u64) -> Seq<GuildFrame> {
    Seq::new(entries.len(), |i: int| guild_frame(entries[i], (first + i) as u64))
}

/// The entries as a mapping from each guild to what is kept of it.
pub open spec fn as_map(entries: Seq<GuildEntry>) -> Map<u64, GuildEntry> {
    Map::new(|id: u64| tracks(entries, id), |id: u64| entries[index_of(entries, id)])
}

/// The text of such a frame.
pub open spec fn guild_text(frame: GuildFrame) -> Seq<u8> {
    match frame {
        GuildFrame::Create { s, id, snapshot } => frame_text(
            Some(GUILD_CREATE@),
            Some(s),
            DISPATCH,
            snapshot,
        ),
        GuildFrame::Delete { s, id } => frame_text(
            Some(GUILD_DELETE@),
            Some(s),
            DISPATCH,
            guild_stub(id),
        ),
    }
}

/// Where no guild has two entries, a guild's entry is where `index_of` says.
pub proof fn lemma_index_of(entries: Seq<GuildEntry>, id: u64, at: int)
    requires
        distinct(entries),
        0 <= at < entries.len(),
        entries[at].id == id,
    ensures
        tracks(entries, id),
        index_of(entries, id) == at,
{
    let found = index_of(entries, id);
    if found < at {
        assert(entries[found].id != entries[at].id);
    } else if at < found {
        assert(entries[at].id != entries[found].id);
    }
}

/// The guilds of a shard: one entry for each guild that the shard was told of
/// and that was not taken away since.
pub struct GuildTracker {
    records: Vec<GuildRecord>,
}

impl View for GuildTracker {
    type V = Seq<GuildEntry>;

    closed spec fn view(&self) -> Seq<GuildEntry> {
        self.records@.map_values(|r: GuildRecord| r@)
    }
}

impl GuildTracker {
    /// A tracker that knows of no guild.
    pub fn new() -> (r: GuildTracker)
        ensures
            r@ == Seq::<GuildEntry>::empty(),
            distinct(r@),
    {
        let r = GuildTracker { records: Vec::new() };
        assert(r@ =~= Seq::<GuildEntry>::empty());
        r
    }

    /// How many guilds have an entry.
    pub fn len(&self) -> (r: usize)
        ensures
            r == self@.len(),
    {
        self.records.len()
    }

    /// The entry that stands at `at`.
    pub fn record(&self, at: usize) -> (r: &GuildRecord)
        requires
            at < self@.len(),
        ensures
            r@ == self@[at as int],
    {
        &self.records[at]
    }

    /// Where the guild's entry stands, if it has one.
    pub fn position(&self, id: u64) -> (r: Option<usize>)
        ensures
            match r {
                Some(at) => at < self@.len() && self@[at as int].id == id,
                None => !tracks(self@, id),
            },
    {
        let mut i: usize = 0;
        while i < self.records.len()
            invariant
                i <= self.records@.len(),
                forall|k: int| 0 <= k < i ==> (#[trigger] self@[k]).id != id,
            decreases self.records@.len() - i,
        {
            if self.records[i].id == id {
                return Some(i);
            }
            i = i + 1;
        }
        None
    }

    /// Takes in a GUILD_CREATE: the guild's data is kept, in place of what was
    /// kept of the guild before.
    pub fn insert(&mut self, id: u64, snapshot: Vec<u8>)
        requires
            distinct(old(self)@),
        ensures
            final(self)@ == created(old(self)@, id, snapshot@),
            distinct(final(self)@),
    {
        let record = GuildRecord { id, unavailable: false, snapshot };
        match self.position(id) {
            Some(at) => {
                proof {
                    lemma_index_of(self@, id, at as int);
                }
                self.records.set(at, record);
                assert(self@ =~= old(self)@.update(at as int, record@));
            },
            None => {
                self.records.push(record);
                assert(self@ =~= old(self)@.push(record@));
            },
        }
    }

    /// Takes in a GUILD_UPDATE: the data kept of the guild is replaced. Of a
    /// guild without an entry nothing is kept.
    pub fn update(&mut self, id: u64, snapshot: Vec<u8>)
        requires
            distinct(old(self)@),
        ensures
            final(self)@ == updated(old(self)@, id, snapshot@),
            distinct(final(self)@),
    {
        match self.position(id) {
            Some(at) => {
                proof {
                    lemma_index_of(self@, id, at as int);
                }
                let unavailable = self.records[at].unavailable;
                let record = GuildRecord { id, unavailable, snapshot };
                self.records.set(at, record);
                assert(self@ =~= old(self)@.update(at as int, record@));
            },
            None => {},
        }
    }

    /// Takes in a GUILD_DELETE; `unavailable` says whether it reports the
    /// guild as unavailable rather than gone.
    pub fn remove(&mut self, id: u64, unavailable: bool)
        requires
            distinct(old(self)@),
        ensures
            final(self)@ == deleted(old(self)@, id, unavailable),
            distinct(final(self)@),
    {
        match self.position(id) {
            Some(at) => {
                proof {
                    lemma_index_of(self@, id, at as int);
                }
                let record = self.records.remove(at);
                assert(self@ =~= old(self)@.remove(at as int));
                if unavailable {
                    let marked = GuildRecord { id, unavailable: true, snapshot: record.snapshot };
                    self.records.insert(at, marked);
                    assert(self@ =~= old(self)@.update(at as int, marked@));
                }
            },
            None => {
                if unavailable {
                    let marked = GuildRecord { id, unavailable: true, snapshot: Vec::new() };
                    self.records.push(marked);
                    assert(self@ =~= old(self)@.push(marked@));
                }
            },
        }
    }

    /// The READY for a client: the shard's READY with every guild that has an
    /// entry listed as unavailable, numbered `seq`, which then moves on by one.
    pub fn get_ready_payload(&self, ready: &ReadySnapshot, seq: &mut u64) -> (payload: ReadyPayload)
        requires
            *old(seq) < u64::MAX,
        ensures
            payload.s == *old(seq),
            crate::ready::members_of(payload.fields@) == ready@,
            payload.guilds@ == ids_of(self@),
            *final(seq) == *old(seq) + 1,
    {
        let mut guilds: Vec<u64> = Vec::new();
        let mut i: usize = 0;
        while i < self.records.len()
            invariant
                i <= self.records@.len(),
                guilds@ == ids_of(self@).take(i as int),
            decreases self.records@.len() - i,
        {
            guilds.push(self.records[i].id);
            assert(guilds@ =~= ids_of(self@).take(i + 1));
            i = i + 1;
        }
        assert(ids_of(self@).take(i as int) =~= ids_of(self@));
        let s = *seq;
        *seq = s + 1;
        ReadyPayload { s, fields: copy_members(ready.fields()), guilds }
    }

    /// The frames that follow a client's READY: one for each guild that has an
    /// entry, in the entries' order, numbered from `seq` on, which moves on by
    /// one with each.
    pub fn get_guild_payloads(&self, seq: &mut u64) -> (frames: Vec<GuildDispatch>)
        requires
            *old(seq) + self@.len() <= u64::MAX,
        ensures
            frames@.len() == self@.len(),
            forall|i: int|
                0 <= i < self@.len() ==> (#[trigger] frames@[i])@ == guild_frame(
                    self@[i],
                    (*old(seq) + i) as u64,
                ),
            frames@.map_values(|frame: GuildDispatch| frame@) == burst(self@, *old(seq)),
            *final(seq) == *old(seq) + self@.len(),
    {
        let mut frames: Vec<GuildDispatch> = Vec::new();
        let mut i: usize = 0;
        while i < self.records.len()
            invariant
                i <= self.records@.len(),
                *old(seq) + self@.len() <= u64::MAX,
                self@.len() == self.records@.len(),
                *seq == *old(seq) + i,
                frames@.len() == i,
                forall|k: int|
                    0 <= k < i ==> (#[trigger] frames@[k])@ == guild_frame(
                        self@[k],
                        (*old(seq) + k) as u64,
                    ),
            decreases self.records@.len() - i,
        {
            let record = &self.records[i];
            let s = *seq;
            let frame = if record.unavailable {
                GuildDispatch::Delete { s, id: record.id }
            } else {
                GuildDispatch::Create {
                    s,
                    id: record.id,
                    snapshot: vstd::slice::slice_to_vec(record.snapshot.as_slice()),
                }
            };
            assert(frame@ == guild_frame(self@[i as int], s));
            frames.push(frame);
            *seq = s + 1;
            i = i + 1;
        }
        assert(frames@.map_values(|frame: GuildDispatch| frame@) =~= burst(self@, *old(seq)));
        frames
    }
}

impl GuildDispatch {
    /// Writes the frame out.
    pub fn to_json(&self) -> (r: Vec<u8>)
        ensures
            r@ == guild_text(self@),
    {
        match self {
            GuildDispatch::Create { s, id: _, snapshot } => {
                let name = GUILD_CREATE;
                write_frame(Some(name.as_slice()), Some(*s), DISPATCH, snapshot.as_slice())
            },
            GuildDispatch::Delete { s, id } => {
                let mut data: Vec<u8> = Vec::new();
                push_guild_stub(&mut data, *id);
                assert(data@ =~= guild_stub(*id));
                let name = GUILD_DELETE;
                write_frame(Some(name.as_slice()), Some(*s), DISPATCH, data.as_slice())
            },
        }
    }
}

/// The guilds that a client's READY lists are the guilds that have an entry,
/// each of them once.
pub proof fn lemma_ready_lists_the_tracked(entries: Seq<GuildEntry>)
    requires
        distinct(entries),
    ensures
        forall|id: u64| ids_of(entries).contains(id) <==> tracks(entries, id),
        ids_of(entries).no_duplicates(),
{
    let ids = ids_of(entries);
    assert forall|id: u64| ids.contains(id) <==> tracks(entries, id) by {
        if ids.contains(id) {
            let i = choose|i: int| 0 <= i < ids.len() && ids[i] == id;
            assert(entries[i].id == id);
        }
        if tracks(entries, id) {
            let i = index_of(entries, id);
            assert(ids[i] == id);
        }
    }
    assert forall|i: int, j: int| 0 <= i < ids.len() && 0 <= j < ids.len() && i != j implies ids[i]
        != ids[j] by {
        if i < j {
            assert(entries[i].id != entries[j].id);
        } else {
            assert(entries[j].id != entries[i].id);
        }
    }
}

/// After its READY a client gets one frame for each guild that has an entry
/// and no other: the frames tell of the guilds that the READY listed, in the
/// same order, a GUILD_DELETE of each that is unavailable and a GUILD_CREATE of
/// each other, and they are numbered one after the other.
pub proof fn lemma_one_frame_for_each_guild(entries: Seq<GuildEntry>, first: u64)
    requires
        distinct(entries),
        first + entries.len() <= u64::MAX,
    ensures
        burst(entries, first).map_values(|frame: GuildFrame| guild_of(frame)) == ids_of(entries),
        ids_of(entries).no_duplicates(),
        forall|i: int|
            0 <= i < entries.len() ==> (#[trigger] burst(entries, first)[i] is Delete)
                == entries[i].unavailable,
        forall|i: int|
            0 <= i < entries.len() ==> match #[trigger] burst(entries, first)[i] {
                GuildFrame::Create { s, .. } => s == first + i,
                GuildFrame::Delete { s, .. } => s == first + i,
            },
{
    lemma_ready_lists_the_tracked(entries);
    assert(burst(entries, first).map_values(|frame: GuildFrame| guild_of(frame)) =~= ids_of(
        entries,
    ));
}

/// Where no guild has two entries, changing the entry at `at` for one of the
/// same guild leaves every guild's entry where it was.
proof fn lemma_update_keeps_places(entries: Seq<GuildEntry>, at: int, entry: GuildEntry)
    requires
        distinct(entries),
        0 <= at < entries.len(),
        entry.id == entries[at].id,
    ensures
        distinct(entries.update(at, entry)),
        forall|id: u64| tracks(entries.update(at, entry), id) <==> tracks(entries, id),
        forall|id: u64|
            tracks(entries, id) ==> index_of(entries.update(at, entry), id) == index_of(entries, id),
{
    let after = entries.update(at, entry);
    assert forall|i: int, j: int| 0 <= i < j < after.len() implies (#[trigger] after[i]).id != (
    #[trigger] after[j]).id by {
        assert(entries[i].id != entries[j].id);
    }
    assert forall|id: u64| tracks(after, id) <==> tracks(entries, id) by {
        if tracks(after, id) {
            let i = choose|i: int| 0 <= i < after.len() && (#[trigger] after[i]).id == id;
            assert(entries[i].id == id);
        }
        if tracks(entries, id) {
            let i = index_of(entries, id);
            assert(after[i].id == id);
        }
    }
    assert forall|id: u64| tracks(entries, id) implies index_of(after, id) == index_of(
        entries,
        id,
    ) by {
        let i = index_of(entries, id);
        assert(after[i].id == id);
        lemma_index_of(after, id, i);
    }
}

/// Where no guild has two entries, an entry added for a guild that had none
/// leaves every other guild's entry where it was.
proof fn lemma_push_keeps_places(entries: Seq<GuildEntry>, entry: GuildEntry)
    requires
        distinct(entries),
        !tracks(entries, entry.id),
    ensures
        distinct(entries.push(entry)),
        forall|id: u64| tracks(entries.push(entry), id) <==> tracks(entries, id) || id == entry.id,
        forall|id: u64|
            tracks(entries, id) ==> index_of(entries.push(entry), id) == index_of(entries, id),
        index_of(entries.push(entry), entry.id) == entries.len(),
{
    let after = entries.push(entry);
    assert forall|i: int, j: int| 0 <= i < j < after.len() implies (#[trigger] after[i]).id != (
    #[trigger] after[j]).id by {
        if j < entries.len() {
            assert(entries[i].id != entries[j].id);
        } else {
            assert(entries[i].id != entry.id);
        }
    }
    assert(after[entries.len() as int].id == entry.id);
    lemma_index_of(after, entry.id, entries.len() as int);
    assert forall|id: u64| tracks(after, id) <==> tracks(entries, id) || id == entry.id by {
        if tracks(after, id) && id != entry.id {
            let i = choose|i: int| 0 <= i < after.len() && (#[trigger] after[i]).id == id;
            assert(entries[i].id == id);
        }
        if tracks(entries, id) {
            let i = index_of(entries, id);
            assert(after[i].id == id);
        }
    }
    assert forall|id: u64| tracks(entries, id) implies index_of(after, id) == index_of(
        entries,
        id,
    ) by {
        let i = index_of(entries, id);
        assert(after[i].id == id);
        lemma_index_of(after, id, i);
    }
}

/// Where no guild has two entries, taking the entry at `at` away leaves the
/// other guilds with the entries they had.
proof fn lemma_remove_keeps_entries(entries: Seq<GuildEntry>, at: int)
    requires
        distinct(entries),
        0 <= at < entries.len(),
    ensures
        distinct(entries.remove(at)),
        forall|id: u64|
            tracks(entries.remove(at), id) <==> tracks(entries, id) && id != entries[at].id,
        forall|id: u64|
            tracks(entries, id) && id != entries[at].id ==> entries.remove(at)[index_of(
                entries.remove(at),
                id,
            )] == entries[index_of(entries, id)],
{
    let after = entries.remove(at);
    assert forall|i: int| 0 <= i < after.len() implies #[trigger] after[i] == entries[if i < at {
        i
    } else {
        i + 1
    }] by {}
    assert forall|i: int, j: int| 0 <= i < j < after.len() implies (#[trigger] after[i]).id != (
    #[trigger] after[j]).id by {
        let a = if i < at {
            i
        } else {
            i + 1
        };
        let b = if j < at {
            j
        } else {
            j + 1
        };
        assert(entries[a].id != entries[b].id);
    }
    assert forall|id: u64| tracks(after, id) <==> tracks(entries, id) && id != entries[at].id by {
        if tracks(after, id) {
            let i = choose|i: int| 0 <= i < after.len() && (#[trigger] after[i]).id == id;
            let a = if i < at {
                i
            } else {
                i + 1
            };
            assert(entries[a].id == id);
            if a < at {
                assert(entries[a].id != entries[at].id);
            } else {
                assert(entries[at].id != entries[a].id);
            }
        }
        if tracks(entries, id) && id != entries[at].id {
            let a = index_of(entries, id);
            let i = if a < at {
                a
            } else {
                a - 1
            };
            assert(after[i].id == id);
        }
    }
    assert forall|id: u64| tracks(entries, id) && id != entries[at].id implies after[index_of(
        after,
        id,
    )] == entries[index_of(entries, id)] by {
        let a = index_of(entries, id);
        let i = if a < at {
            a
        } else {
            a - 1
        };
        assert(after[i].id == id);
        lemma_index_of(after, id, i);
    }
}

/// A GUILD_CREATE inserts or replaces: afterwards the guild is available with
/// the new data, and every other guild is as it was.
pub proof fn lemma_create_inserts(entries: Seq<GuildEntry>, id: u64, snapshot: Seq<u8>)
    requires
        distinct(entries),
    ensures
        distinct(created(entries, id, snapshot)),
        as_map(created(entries, id, snapshot)) == as_map(entries).insert(
            id,
            GuildEntry { id, unavailable: false, snapshot },
        ),
{
    let entry = GuildEntry { id, unavailable: false, snapshot };
    if tracks(entries, id) {
        lemma_update_keeps_places(entries, index_of(entries, id), entry);
    } else {
        lemma_push_keeps_places(entries, entry);
    }
    assert(as_map(created(entries, id, snapshot)) =~= as_map(entries).insert(id, entry));
}

/// A GUILD_UPDATE changes the data of a guild that has an entry, and nothing
/// else: the guild is as available as before, every other guild is as it was,
/// and a guild without an entry gets none.
pub proof fn lemma_update_in_place(entries: Seq<GuildEntry>, id: u64, snapshot: Seq<u8>)
    requires
        distinct(entries),
    ensures
        distinct(updated(entries, id, snapshot)),
        updated(entries, id, snapshot).len() == entries.len(),
        as_map(updated(entries, id, snapshot)) == if tracks(entries, id) {
            as_map(entries).insert(
                id,
                GuildEntry { id, unavailable: as_map(entries)[id].unavailable, snapshot },
            )
        } else {
            as_map(entries)
        },
{
    if tracks(entries, id) {
        let at = index_of(entries, id);
        let entry = GuildEntry { id, unavailable: entries[at].unavailable, snapshot };
        lemma_update_keeps_places(entries, at, entry);
        assert(as_map(updated(entries, id, snapshot)) =~= as_map(entries).insert(id, entry));
    }
}

/// A GUILD_DELETE that reports the guild unavailable marks it and keeps its
/// data; any other takes the guild away. Every other guild is as it was.
pub proof fn lemma_delete_marks_or_removes(entries: Seq<GuildEntry>, id: u64, unavailable: bool)
    requires
        distinct(entries),
    ensures
        distinct(deleted(entries, id, unavailable)),
        as_map(deleted(entries, id, unavailable)) == if unavailable {
            as_map(entries).insert(
                id,
                GuildEntry {
                    id,
                    unavailable: true,
                    snapshot: if tracks(entries, id) {
                        as_map(entries)[id].snapshot
                    } else {
                        Seq::empty()
                    },
                },
            )
        } else {
            as_map(entries).remove(id)
        },
{
    if unavailable {
        if tracks(entries, id) {
            let at = index_of(entries, id);
            let entry = GuildEntry { id, unavailable: true, snapshot: entries[at].snapshot };
            lemma_update_keeps_places(entries, at, entry);
            assert(as_map(deleted(entries, id, unavailable)) =~= as_map(entries).insert(id, entry));
        } else {
            let entry = GuildEntry { id, unavailable: true, snapshot: Seq::empty() };
            lemma_push_keeps_places(entries, entry);
            assert(as_map(deleted(entries, id, unavailable)) =~= as_map(entries).insert(id, entry));
        }
    } else {
        if tracks(entries, id) {
            let at = index_of(entries, id);
            lemma_remove_keeps_entries(entries, at);
            assert(as_map(deleted(entries, id, unavailable)) =~= as_map(entries).remove(id));
        } else {
            assert(as_map(deleted(entries, id, unavailable)) =~= as_map(entries).remove(id));
        }
    }
}

} // verus!
