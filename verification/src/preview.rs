//! The preview frames of the guide: which are kept, which are being captured, and which
//! captures failed. Times are nanoseconds of a clock that does not run backwards.

use crate::text::same_text;
use crate::text_map::TextMap;
use vstd::prelude::*;

verus! {

/// Frames are captured and stored at this size.
pub const PREVIEW_WIDTH: usize = 256;

pub const PREVIEW_HEIGHT: usize = 144;

/// How many channels' frames are kept.
pub const CAPACITY: usize = 40;

#[derive(Debug)]
struct Entry<T> {
    id: String,
    texture: T,
    captured_at: u64,
}

/// A kept frame.
pub struct EntryView<T> {
    pub id: Seq<char>,
    pub texture: T,
    pub captured_at: u64,
}

impl<T> Entry<T> {
    spec fn view(&self) -> EntryView<T> {
        EntryView { id: self.id@, texture: self.texture, captured_at: self.captured_at }
    }
}

/// The preview frames, each held as a texture.
#[derive(Debug)]
pub struct PreviewCache<T> {
    /// From the one used longest ago to the one used last.
    entries: Vec<Entry<T>>,
    in_flight: Vec<String>,
    failures: TextMap<u32>,
    last_attempt: TextMap<u64>,
}

/// What is known of a `PreviewCache`.
#[verifier::ext_equal]
pub struct PreviewView<T> {
    /// The frames kept, from the one used longest ago to the one used last.
    pub entries: Seq<EntryView<T>>,
    /// The channels whose capture has not ended.
    pub in_flight: Seq<Seq<char>>,
    /// How many captures in a row failed, by channel.
    pub failures: Map<Seq<char>, u32>,
    /// When a capture was last begun, by channel.
    pub last_attempt: Map<Seq<char>, u64>,
}

/// The frames of the other channels.
pub open spec fn without<T>(entries: Seq<EntryView<T>>, id: Seq<char>) -> Seq<EntryView<T>> {
    entries.filter(|e: EntryView<T>| e.id != id)
}

/// The identifiers other than `id`.
pub open spec fn others(ids: Seq<Seq<char>>, id: Seq<char>) -> Seq<Seq<char>> {
    ids.filter(|x: Seq<char>| x != id)
}

/// As many frames as are kept, those used last.
pub open spec fn newest<T>(entries: Seq<EntryView<T>>) -> Seq<EntryView<T>> {
    if entries.len() > CAPACITY {
        entries.skip(entries.len() - CAPACITY)
    } else {
        entries
    }
}

impl<T> PreviewView<T> {
    /// The frame kept for a channel.
    pub open spec fn has(self, id: Seq<char>, e: EntryView<T>) -> bool {
        self.entries.contains(e) && e.id == id
    }

    /// Whether no frame is kept for a channel.
    pub open spec fn lacks(self, id: Seq<char>) -> bool {
        forall|i: int| 0 <= i < self.entries.len() ==> (#[trigger] self.entries[i]).id != id
    }

    /// How many captures of a channel failed in a row.
    pub open spec fn failed(self, id: Seq<char>) -> u32 {
        if self.failures.contains_key(id) {
            self.failures[id]
        } else {
            0
        }
    }

    /// A frame is kept, in place of the channel's last one. The capture has ended, and
    /// earlier failures are forgotten. What was used longest ago goes where there are too
    /// many.
    pub open spec fn captured(self, e: EntryView<T>) -> PreviewView<T> {
        PreviewView {
            entries: newest(without(self.entries, e.id).push(e)),
            in_flight: others(self.in_flight, e.id),
            failures: self.failures.remove(e.id),
            last_attempt: self.last_attempt,
        }
    }

    /// A capture is begun.
    pub open spec fn requested(self, id: Seq<char>, now: u64) -> PreviewView<T> {
        PreviewView {
            in_flight: if self.in_flight.contains(id) {
                self.in_flight
            } else {
                self.in_flight.push(id)
            },
            last_attempt: self.last_attempt.insert(id, now),
            ..self
        }
    }

    /// A capture has failed.
    pub open spec fn failed_again(self, id: Seq<char>) -> PreviewView<T> {
        PreviewView {
            in_flight: others(self.in_flight, id),
            failures: self.failures.insert(
                id,
                if self.failed(id) < u32::MAX {
                    (self.failed(id) + 1) as u32
                } else {
                    u32::MAX
                },
            ),
            ..self
        }
    }

    /// At most one frame for each channel, and no more than are kept; no channel twice
    /// among those being captured.
    pub open spec fn wf(self) -> bool {
        &&& self.entries.len() <= CAPACITY
        &&& forall|i: int, j: int|
            0 <= i < j < self.entries.len() ==> (#[trigger] self.entries[i]).id != (
            #[trigger] self.entries[j]).id
        &&& self.in_flight.no_duplicates()
    }
}

/// Leaving out what does not occur changes nothing.
proof fn filter_keeps<A>(s: Seq<A>, p: spec_fn(A) -> bool)
    requires
        forall|i: int| 0 <= i < s.len() ==> p(#[trigger] s[i]),
    ensures
        s.filter(p) == s,
    decreases s.len(),
{
    reveal(Seq::filter);
    if s.len() > 0 {
        assert(p(s.last()));
        filter_keeps(s.drop_last(), p);
        assert(s.drop_last().push(s.last()) =~= s);
    }
}

/// Leaving out the one element at `i`.
proof fn filter_removes<A>(s: Seq<A>, i: int, p: spec_fn(A) -> bool)
    requires
        0 <= i < s.len(),
        !p(s[i]),
        forall|j: int| 0 <= j < s.len() && j != i ==> p(#[trigger] s[j]),
    ensures
        s.filter(p) == s.remove(i),
{
    let a = s.take(i);
    let b = s.skip(i + 1);
    let one = seq![s[i]];
    assert(s =~= (a + one) + b);
    Seq::filter_distributes_over_add(a + one, b, p);
    Seq::filter_distributes_over_add(a, one, p);
    assert forall|j: int| 0 <= j < a.len() implies p(#[trigger] a[j]) by {
        assert(a[j] == s[j]);
    }
    assert forall|j: int| 0 <= j < b.len() implies p(#[trigger] b[j]) by {
        assert(b[j] == s[i + 1 + j]);
    }
    filter_keeps(a, p);
    filter_keeps(b, p);
    reveal_with_fuel(Seq::filter, 2);
    assert(one.drop_last() =~= Seq::<A>::empty());
    assert(one.filter(p) =~= Seq::<A>::empty());
    assert(s.remove(i) =~= a + b);
}

impl<T> PreviewCache<T> {
    pub closed spec fn view(&self) -> PreviewView<T> {
        PreviewView {
            entries: self.entries@.map_values(|e: Entry<T>| e@),
            in_flight: self.in_flight@.map_values(|s: String| s@),
            failures: self.failures@,
            last_attempt: self.last_attempt@,
        }
    }

    /// A cache without frames.
    pub fn new() -> (r: Self)
        ensures
            r@.wf(),
            r@ == (PreviewView {
                entries: Seq::<EntryView<T>>::empty(),
                in_flight: Seq::empty(),
                failures: Map::empty(),
                last_attempt: Map::empty(),
            }),
    {
        let r = PreviewCache {
            entries: Vec::new(),
            in_flight: Vec::new(),
            failures: TextMap::new(),
            last_attempt: TextMap::new(),
        };
        assert(r@ =~= PreviewView {
            entries: Seq::<EntryView<T>>::empty(),
            in_flight: Seq::empty(),
            failures: Map::empty(),
            last_attempt: Map::empty(),
        });
        r
    }

    /// Where the frame of a channel is kept.
    fn index_of(&self, id: &str) -> (r: Option<usize>)
        requires
            self@.wf(),
        ensures
            match r {
                Some(i) => {
                    &&& i < self@.entries.len()
                    &&& self@.entries[i as int].id == id@
                    &&& without(self@.entries, id@) == self@.entries.remove(i as int)
                },
                None => {
                    &&& self@.lacks(id@)
                    &&& without(self@.entries, id@) == self@.entries
                },
            },
    {
        let p: Ghost<spec_fn(EntryView<T>) -> bool> = Ghost(|e: EntryView<T>| e.id != id@);
        let mut i: usize = 0;
        while i < self.entries.len()
            invariant
                i <= self.entries@.len(),
                self@.wf(),
                p@ == (|e: EntryView<T>| e.id != id@),
                forall|j: int| 0 <= j < i ==> (#[trigger] self@.entries[j]).id != id@,
            decreases self.entries@.len() - i,
        {
            assert(self@.entries[i as int].id == self.entries@[i as int].id@);
            if same_text(self.entries[i].id.as_str(), id) {
                proof {
                    assert forall|j: int| 0 <= j < self@.entries.len() && j != i implies p@(
                        #[trigger] self@.entries[j],
                    ) by {
                        if j < i {
                            assert(self@.entries[j].id != self@.entries[i as int].id);
                        } else {
                            assert(self@.entries[i as int].id != self@.entries[j].id);
                        }
                    }
                    filter_removes(self@.entries, i as int, p@);
                }
                return Some(i);
            }
            i += 1;
        }
        proof {
            assert forall|j: int| 0 <= j < self@.entries.len() implies p@(
                #[trigger] self@.entries[j],
            ) by {}
            filter_keeps(self@.entries, p@);
        }
        None
    }

    /// The frame of a channel, which counts as used now.
    pub fn get(&mut self, channel_id: &str) -> (r: Option<T>) where T: Clone
        requires
            old(self)@.wf(),
        ensures
            final(self)@.wf(),
            match r {
                Some(t) => exists|e: EntryView<T>| #[trigger]
                    old(self)@.has(channel_id@, e) && cloned(e.texture, t) && final(self)@ == (
                    PreviewView {
                        entries: without(old(self)@.entries, channel_id@).push(e),
                        ..old(self)@
                    }),
                None => old(self)@.lacks(channel_id@) && final(self)@ == old(self)@,
            },
    {
        match self.index_of(channel_id) {
            None => None,
            Some(i) => {
                let entry = self.entries.remove(i);
                let t = entry.texture.clone();
                let ghost e = entry@;
                self.entries.push(entry);
                proof {
                    let before = old(self)@;
                    assert(before.entries[i as int] == e);
                    assert(before.has(channel_id@, e));
                    assert(self@.entries =~= before.entries.remove(i as int).push(e));
                    assert(self@ =~= PreviewView {
                        entries: without(before.entries, channel_id@).push(e),
                        ..before
                    });
                    assert(self@.wf()) by {
                        moved_to_the_end(before.entries, i as int);
                    }
                }
                Some(t)
            },
        }
    }

    /// The frame of a channel.
    pub fn peek(&self, channel_id: &str) -> (r: Option<&T>)
        requires
            self@.wf(),
        ensures
            match r {
                Some(t) => exists|e: EntryView<T>| #[trigger]
                    self@.has(channel_id@, e) && e.texture == *t,
                None => self@.lacks(channel_id@),
            },
    {
        match self.index_of(channel_id) {
            None => None,
            Some(i) => {
                assert(self@.has(channel_id@, self@.entries[i as int]));
                Some(&self.entries[i].texture)
            },
        }
    }

    /// Takes a channel off those being captured.
    fn land(&mut self, channel_id: &str)
        requires
            old(self)@.wf(),
        ensures
            final(self)@.wf(),
            final(self)@ == (PreviewView {
                in_flight: others(old(self)@.in_flight, channel_id@),
                ..old(self)@
            }),
    {
        let ghost before = self@;
        let ghost p = |x: Seq<char>| x != channel_id@;
        let mut i: usize = 0;
        while i < self.in_flight.len()
            invariant
                i <= self.in_flight@.len(),
                self@ == before,
                before == old(self)@,
                before.wf(),
                p == (|x: Seq<char>| x != channel_id@),
                forall|j: int| 0 <= j < i ==> #[trigger] self@.in_flight[j] != channel_id@,
            decreases self.in_flight@.len() - i,
        {
            assert(self@.in_flight[i as int] == self.in_flight@[i as int]@);
            if same_text(self.in_flight[i].as_str(), channel_id) {
                let _gone = self.in_flight.remove(i);
                proof {
                    filter_removes(before.in_flight, i as int, p);
                    assert(self@.in_flight =~= before.in_flight.remove(i as int));
                    assert(self@ =~= PreviewView {
                        in_flight: others(before.in_flight, channel_id@),
                        ..before
                    });
                }
                return;
            }
            i += 1;
        }
        proof {
            filter_keeps(before.in_flight, p);
        }
    }

    /// Keeps a frame captured at `now`.
    pub fn insert(&mut self, channel_id: &str, texture: T, now: u64)
        requires
            old(self)@.wf(),
        ensures
            final(self)@.wf(),
            final(self)@ == old(self)@.captured(
                EntryView { id: channel_id@, texture, captured_at: now },
            ),
    {
        self.land(channel_id);
        self.failures.remove(channel_id);
        let ghost kept = without(old(self)@.entries, channel_id@);
        let ghost p = |e: EntryView<T>| e.id != channel_id@;
        assert(self@.entries == old(self)@.entries);
        match self.index_of(channel_id) {
            Some(i) => {
                let _gone = self.entries.remove(i);
                assert(self@.entries =~= kept);
            },
            None => {},
        }
        proof {
            let all = old(self)@.entries;
            assert forall|i: int, j: int| 0 <= i < j < kept.len() implies (
            #[trigger] kept[i]).id != (#[trigger] kept[j]).id by {
                if kept.len() < all.len() {
                    let k = choose|k: int| 0 <= k < all.len() && kept == all.remove(k);
                    let a = if i < k { i } else { i + 1 };
                    let b = if j < k { j } else { j + 1 };
                    assert(kept[i] == all[a]);
                    assert(kept[j] == all[b]);
                }
            }
            assert forall|i: int| 0 <= i < kept.len() implies (
            #[trigger] kept[i]).id != channel_id@ by {
                all.lemma_filter_pred(p, i);
            }
        }
        let entry = Entry { id: channel_id.to_owned(), texture, captured_at: now };
        let ghost e = EntryView { id: channel_id@, texture, captured_at: now };
        self.entries.push(entry);
        assert(self@.entries =~= kept.push(e));
        if self.entries.len() > CAPACITY {
            let _oldest = self.entries.remove(0);
            assert(self@.entries =~= newest(kept.push(e)));
        }
        assert(self@ =~= PreviewView {
            entries: newest(kept.push(e)),
            in_flight: others(old(self)@.in_flight, channel_id@),
            failures: old(self)@.failures.remove(channel_id@),
            last_attempt: old(self)@.last_attempt,
        });
    }

    /// A capture of a channel is begun at `now`.
    pub fn mark_requested(&mut self, channel_id: &str, now: u64)
        requires
            old(self)@.wf(),
        ensures
            final(self)@.wf(),
            final(self)@ == old(self)@.requested(channel_id@, now),
    {
        let begun = self.in_flight(channel_id);
        self.last_attempt.insert(channel_id, now);
        if !begun {
            self.in_flight.push(channel_id.to_owned());
            assert(self@.in_flight =~= old(self)@.in_flight.push(channel_id@));
        }
    }

    /// The capture of a channel failed.
    pub fn mark_failed(&mut self, channel_id: &str)
        requires
            old(self)@.wf(),
        ensures
            final(self)@.wf(),
            final(self)@ == old(self)@.failed_again(channel_id@),
    {
        self.land(channel_id);
        let failures: u32 = self.failures(channel_id);
        self.failures.insert(channel_id, failures.saturating_add(1));
    }

    /// No capture is waited for any longer.
    pub fn clear_in_flight(&mut self)
        requires
            old(self)@.wf(),
        ensures
            final(self)@.wf(),
            final(self)@ == (PreviewView { in_flight: Seq::empty(), ..old(self)@ }),
    {
        self.in_flight = Vec::new();
        assert(self@.in_flight =~= Seq::<Seq<char>>::empty());
    }

    /// How many captures are waited for.
    pub fn in_flight_count(&self) -> (n: usize)
        ensures
            n == self@.in_flight.len(),
    {
        self.in_flight.len()
    }

    /// When the frame of a channel was captured.
    pub fn captured_at(&self, id: &str) -> (r: Option<u64>)
        requires
            self@.wf(),
        ensures
            match r {
                Some(at) => exists|e: EntryView<T>| #[trigger]
                    self@.has(id@, e) && e.captured_at == at,
                None => self@.lacks(id@),
            },
    {
        match self.index_of(id) {
            None => None,
            Some(i) => {
                assert(self@.has(id@, self@.entries[i as int]));
                Some(self.entries[i].captured_at)
            },
        }
    }

    /// Whether a capture of a channel is waited for.
    pub fn in_flight(&self, id: &str) -> (r: bool)
        ensures
            r == self@.in_flight.contains(id@),
    {
        let mut i: usize = 0;
        while i < self.in_flight.len()
            invariant
                i <= self.in_flight@.len(),
                forall|j: int| 0 <= j < i ==> #[trigger] self@.in_flight[j] != id@,
            decreases self.in_flight@.len() - i,
        {
            assert(self@.in_flight[i as int] == self.in_flight@[i as int]@);
            if same_text(self.in_flight[i].as_str(), id) {
                return true;
            }
            i += 1;
        }
        false
    }

    /// How many captures of a channel failed in a row.
    pub fn failures(&self, id: &str) -> (n: u32)
        ensures
            n == self@.failed(id@),
    {
        match self.failures.get(id) {
            Some(n) => *n,
            None => 0,
        }
    }

    /// When a capture of a channel was last begun.
    pub fn last_attempt_at(&self, id: &str) -> (r: Option<u64>)
        ensures
            match r {
                Some(at) => self@.last_attempt.contains_key(id@) && self@.last_attempt[id@] == at,
                None => !self@.last_attempt.contains_key(id@),
            },
    {
        match self.last_attempt.get(id) {
            Some(at) => Some(*at),
            None => None,
        }
    }
}

/// Identifiers stay apart when one entry is moved to the end.
proof fn moved_to_the_end<T>(entries: Seq<EntryView<T>>, k: int)
    requires
        0 <= k < entries.len(),
        forall|i: int, j: int|
            0 <= i < j < entries.len() ==> (#[trigger] entries[i]).id != (
            #[trigger] entries[j]).id,
    ensures
        forall|i: int, j: int|
            0 <= i < j < entries.len() ==> (#[trigger] entries.remove(k).push(entries[k])[i]).id
                != (#[trigger] entries.remove(k).push(entries[k])[j]).id,
{
    let moved = entries.remove(k).push(entries[k]);
    assert forall|i: int, j: int| 0 <= i < j < entries.len() implies (#[trigger] moved[i]).id != (
    #[trigger] moved[j]).id by {
        let a = if i < k { i } else { i + 1 };
        let b = if j == entries.len() - 1 {
            k
        } else if j < k {
            j
        } else {
            j + 1
        };
        assert(moved[i] == entries[a]);
        assert(moved[j] == entries[b]);
        if a < b {
            assert(entries[a].id != entries[b].id);
        } else {
            assert(entries[b].id != entries[a].id);
        }
    }
}

/// A new frame is kept, and so is the frame of every other channel that is among the
/// `CAPACITY - 1` used last; no frame is given up while there is room.
pub proof fn recent_frames_stay<T>(entries: Seq<EntryView<T>>, new: EntryView<T>, i: int)
    requires
        0 <= i < without(entries, new.id).len(),
    ensures
        newest(without(entries, new.id).push(new)).len() <= CAPACITY,
        newest(without(entries, new.id).push(new)).last() == new,
        newest(without(entries, new.id).push(new)).contains(without(entries, new.id)[i])
            <== without(entries, new.id).len() - i < CAPACITY,
{
    let kept = without(entries, new.id);
    let after = newest(kept.push(new));
    if kept.len() - i < CAPACITY {
        let gone = kept.push(new).len() - after.len();
        assert(after[i - gone] == kept[i]);
    }
}

/// A frame that goes was used before every frame that stays.
pub proof fn oldest_frames_go<T>(entries: Seq<EntryView<T>>, i: int, j: int)
    requires
        0 <= i < entries.len(),
        0 <= j < entries.len(),
        !newest(entries).contains(entries[i]),
        newest(entries).contains(entries[j]),
        forall|a: int, b: int|
            0 <= a < b < entries.len() ==> (#[trigger] entries[a]).id != (#[trigger] entries[b]).id,
    ensures
        i < j,
{
    let gone = entries.len() - newest(entries).len();
    if i >= gone {
        assert(newest(entries)[i - gone] == entries[i]);
    }
    let k = choose|k: int| 0 <= k < newest(entries).len() && newest(entries)[k] == entries[j];
    assert(newest(entries)[k] == entries[k + gone]);
    if j < k + gone {
        assert(entries[j].id != entries[k + gone].id);
    } else if k + gone < j {
        assert(entries[k + gone].id != entries[j].id);
    }
}

/// Leaving out an identifier leaves it out, and no other.
proof fn others_lack(ids: Seq<Seq<char>>, id: Seq<char>, other: Seq<char>)
    ensures
        !others(ids, id).contains(id),
        other != id ==> others(ids, id).contains(other) == ids.contains(other),
    decreases ids.len(),
{
    reveal(Seq::filter);
    if ids.len() > 0 {
        let front = ids.drop_last();
        let kept = others(front, id);
        others_lack(front, id, other);
        assert(ids.contains(other) == (front.contains(other) || ids.last() == other)) by {
            if ids.contains(other) {
                let k = choose|k: int| 0 <= k < ids.len() && ids[k] == other;
                if k < front.len() {
                    assert(front[k] == other);
                }
            }
            if front.contains(other) {
                let k = choose|k: int| 0 <= k < front.len() && front[k] == other;
                assert(ids[k] == other);
            }
            assert(ids[ids.len() - 1] == ids.last());
        }
        if ids.last() != id {
            let after = kept.push(ids.last());
            assert(others(ids, id) =~= after);
            assert(after.contains(other) == (kept.contains(other) || ids.last() == other)) by {
                if kept.contains(other) {
                    let k = choose|k: int| 0 <= k < kept.len() && kept[k] == other;
                    assert(after[k] == other);
                }
                assert(after[kept.len() as int] == ids.last());
            }
            assert(!after.contains(id)) by {
                if after.contains(id) {
                    let k = choose|k: int| 0 <= k < after.len() && after[k] == id;
                    assert(k < kept.len() ==> kept[k] == id);
                }
            }
        }
    }
}

/// A capture that was begun ends with a frame or with a failure, and with nothing else that
/// happens to another channel.
pub proof fn captures_come_to_an_end<T>(
    v: PreviewView<T>,
    e: EntryView<T>,
    id: Seq<char>,
    now: u64,
)
    ensures
        v.requested(id, now).in_flight.contains(id),
        !v.captured(e).in_flight.contains(e.id),
        !v.failed_again(id).in_flight.contains(id),
        e.id != id ==> v.captured(e).in_flight.contains(id) == v.in_flight.contains(id),
        e.id != id ==> v.failed_again(e.id).in_flight.contains(id) == v.in_flight.contains(id),
{
    others_lack(v.in_flight, e.id, id);
    others_lack(v.in_flight, id, e.id);
    if !v.in_flight.contains(id) {
        let after = v.in_flight.push(id);
        assert(after[v.in_flight.len() as int] == id);
    }
}

/// Asking twice is one capture.
pub proof fn repeated_requests_are_one<T>(v: PreviewView<T>, id: Seq<char>, now: u64, later: u64)
    ensures
        v.requested(id, now).requested(id, later).in_flight == v.requested(id, now).in_flight,
{
    let once = v.requested(id, now).in_flight;
    if !v.in_flight.contains(id) {
        assert(once[v.in_flight.len() as int] == id);
    }
    assert(once.contains(id));
}

/// A frame makes up for all failures before it; each failure counts.
pub proof fn failures_are_counted<T>(v: PreviewView<T>, e: EntryView<T>)
    ensures
        v.captured(e).failed(e.id) == 0,
        v.failed(e.id) < u32::MAX ==> v.failed_again(e.id).failed(e.id) == v.failed(e.id) + 1,
{
}

} // verus!
