//! How the audio segments of a manifest come to be addressed by number.

use crate::numbers;
use crate::numbers::{MappingView, NumbersView, ScanView};
use crate::text;
use crate::text_laws;
use crate::xml::{XmlAttrView, XmlEventView, XmlStepView};
use vstd::prelude::*;

verus! {

// ---------------------------------------------------------------------------
// Mappings
// ---------------------------------------------------------------------------

/// Segment one starts where the numbering starts, and each of the others one duration behind
/// the one before it.
pub proof fn segments_follow_one_another(m: MappingView, n: int)
    requires
        n >= 1,
    ensures
        m.time_of(1) == m.epoch_t,
        m.time_of(n + 1) == m.time_of(n) + m.duration,
{
    let d = m.duration as int;
    assert(n * d == (n - 1) * d + d) by (nonlinear_arith);
    assert(0 * d == 0);
}

/// The URL of a segment: its representation's id and its time, each in its place.
#[verifier::rlimit(80)]
#[verifier::spinoff_prover]
pub proof fn segment_url_is_filled_in(
    m: MappingView,
    a: Seq<char>,
    b: Seq<char>,
    c: Seq<char>,
    repid: Seq<char>,
    n: int,
)
    requires
        m.media_pattern == a + "$RepresentationID$"@ + b + "$Time$"@ + c,
        text_laws::apart_from('$', a),
        text_laws::apart_from('$', b),
        text_laws::apart_from('$', c),
        text_laws::apart_from('$', repid),
    ensures
        m.url_of(repid, n) == a + repid + b + text::decimal(m.time_of(n) as nat) + c,
{
    reveal_strlit("$RepresentationID$");
    reveal_strlit("$Time$");
    let rep = "$RepresentationID$"@;
    let time = "$Time$"@;
    let digits = text::decimal(m.time_of(n) as nat);
    let tail = b + time + c;
    let s = a + rep + tail;
    assert(m.media_pattern =~= s);
    place_is_found(a, rep, tail);
    text_laws::replacing_first_place(s, rep, repid, a.len() as int);
    assert(s.skip(a.len() + rep.len() as int) =~= tail);
    assert(s.take(a.len() as int) =~= a);
    assert(!text::contains(tail, rep)) by {
        if text::contains(tail, rep) {
            let p = choose|p: int| text::occurs_at(tail, rep, p);
            let here = tail.subrange(p, p + rep.len());
            assert(here[0] == '$' && here[1] == 'R');
            if p < b.len() {
                assert(tail[p] == b[p]);
            } else if p < b.len() + time.len() {
                assert(tail[p] == time[p - b.len()]);
                assert(tail[p + 1] == here[1]);
                if p == b.len() {
                    assert(tail[p + 1] == time[1]);
                } else {
                    assert(p == b.len() + 5);
                    assert(tail[p + 1] == c[0]);
                    assert(here[17] == '$');
                    assert(tail[p + 17] == c[16]);
                }
            } else {
                assert(tail[p] == c[p - b.len() - time.len()]);
            }
        }
    }
    text_laws::replacing_nothing(tail, rep, repid);
    let front = a + repid + b;
    let once = front + time + c;
    assert(text::replace_all(s, rep, repid) =~= once);
    assert forall|k: int| 0 <= k < front.len() implies front[k] != '$' by {
        if k < a.len() {
            assert(front[k] == a[k]);
        } else if k < a.len() + repid.len() {
            assert(front[k] == repid[k - a.len()]);
        } else {
            assert(front[k] == b[k - a.len() - repid.len()]);
        }
    }
    place_is_found(front, time, c);
    text_laws::replacing_first_place(once, time, digits, front.len() as int);
    assert(once.skip(front.len() + time.len() as int) =~= c);
    assert(once.take(front.len() as int) =~= front);
    assert(!text::contains(c, time)) by {
        if text::contains(c, time) {
            let p = choose|p: int| text::occurs_at(c, time, p);
            assert(c.subrange(p, p + time.len())[0] == c[p]);
        }
    }
    text_laws::replacing_nothing(c, time, digits);
}

proof fn place_is_found(a: Seq<char>, pat: Seq<char>, b: Seq<char>)
    requires
        pat.len() > 0,
        text_laws::apart_from(pat[0], a),
    ensures
        text::occurs_at(a + pat + b, pat, a.len() as int),
        forall|j: int| 0 <= j < a.len() ==> !text::occurs_at(a + pat + b, pat, j),
{
    let s = a + pat + b;
    let n = a.len() as int;
    assert(s.subrange(n, n + pat.len()) =~= pat);
    assert forall|j: int| 0 <= j < n implies !text::occurs_at(s, pat, j) by {
        if text::occurs_at(s, pat, j) {
            assert(s.subrange(j, j + pat.len())[0] == a[j]);
        }
    }
}

/// Whether a representation can be addressed by number: it was not given up, and what was
/// established for it fits.
pub open spec fn fits(st: NumbersView, r: Seq<char>, d: u64, pattern: Seq<char>) -> bool {
    &&& !st.given_up.contains(r)
    &&& st.map.contains_key(r) ==> st.map[r].duration == d && st.map[r].media_pattern == pattern
}

/// Representations that fit are all established: what was there stays, and what is new starts
/// at the first time of the timeline.
pub proof fn fitting_representations_are_established(
    st: NumbersView,
    reps: Seq<Seq<char>>,
    d: u64,
    t: u64,
    pattern: Seq<char>,
)
    requires
        forall|i: int| 0 <= i < reps.len() ==> fits(st, #[trigger] reps[i], d, pattern),
    ensures
        ({
            let (after, ok) = numbers::establish(st, reps, d, t, pattern);
            &&& ok
            &&& after.given_up == st.given_up
            &&& forall|i: int|
                0 <= i < reps.len() ==> after.map.contains_key(#[trigger] reps[i])
                    && after.map[reps[i]] == if st.map.contains_key(reps[i]) {
                    st.map[reps[i]]
                } else {
                    MappingView { duration: d, epoch_t: t, media_pattern: pattern }
                }
        }),
    decreases reps.len(),
{
    if reps.len() > 0 {
        let r = reps[0];
        let rest = reps.drop_first();
        assert(fits(st, r, d, pattern));
        let new = MappingView { duration: d, epoch_t: t, media_pattern: pattern };
        let next = if st.map.contains_key(r) {
            st
        } else {
            NumbersView { map: st.map.insert(r, new), given_up: st.given_up }
        };
        assert forall|i: int| 0 <= i < rest.len() implies fits(
            next,
            #[trigger] rest[i],
            d,
            pattern,
        ) by {
            assert(rest[i] == reps[i + 1]);
            assert(fits(st, reps[i + 1], d, pattern));
        }
        fitting_representations_are_established(next, rest, d, t, pattern);
        numbers::established_mappings_stay(next, rest, d, t, pattern, r);
        let (after, ok) = numbers::establish(st, reps, d, t, pattern);
        assert forall|i: int| 0 <= i < reps.len() implies after.map.contains_key(#[trigger] reps[i])
            && after.map[reps[i]] == (if st.map.contains_key(reps[i]) {
            st.map[reps[i]]
        } else {
            new
        }) by {
            if i > 0 {
                assert(rest[i - 1] == reps[i]);
            }
        }
    }
}

/// A representation whose segments change is given up: its mapping stays, and it is never
/// addressed by number again.
pub proof fn changed_representation_is_given_up(
    st: NumbersView,
    r: Seq<char>,
    d: u64,
    t: u64,
    pattern: Seq<char>,
)
    requires
        st.map.contains_key(r),
        st.map[r].duration != d || st.map[r].media_pattern != pattern,
        !st.given_up.contains(r),
    ensures
        ({
            let (after, ok) = numbers::establish(st, seq![r], d, t, pattern);
            !ok && after.given_up.contains(r) && after.map == st.map
        }),
{
}

// ---------------------------------------------------------------------------
// Attributes
// ---------------------------------------------------------------------------

/// The first attribute of a name is the one read.
pub proof fn first_attribute_counts(attrs: Seq<XmlAttrView>, k: int)
    requires
        0 <= k < attrs.len(),
        forall|j: int| 0 <= j < k ==> (#[trigger] attrs[j]).key != attrs[k].key,
    ensures
        numbers::attr_of(attrs, attrs[k].key) == Some(attrs[k]),
    decreases k,
{
    if k > 0 {
        let t = attrs.drop_first();
        assert(attrs[0].key != attrs[k].key);
        assert forall|j: int| 0 <= j < k - 1 implies (#[trigger] t[j]).key != t[k - 1].key by {
            assert(t[j] == attrs[j + 1]);
        }
        first_attribute_counts(t, k - 1);
    }
}

/// An attribute that is not there is not read.
pub proof fn missing_attribute_is_none(attrs: Seq<XmlAttrView>, key: Seq<char>)
    requires
        forall|j: int| 0 <= j < attrs.len() ==> (#[trigger] attrs[j]).key != key,
    ensures
        numbers::attr_of(attrs, key) is None,
    decreases attrs.len(),
{
    if attrs.len() > 0 {
        let t = attrs.drop_first();
        assert(attrs[0].key != key);
        assert forall|j: int| 0 <= j < t.len() implies (#[trigger] t[j]).key != key by {
            assert(t[j] == attrs[j + 1]);
        }
        missing_attribute_is_none(t, key);
    }
}

/// A set is an audio one by its content type, in any case, or by its media type; without
/// either attribute it is none.
pub proof fn audio_sets_say_so(attrs: Seq<XmlAttrView>, k: int)
    ensures
        0 <= k < attrs.len() && (forall|j: int|
            0 <= j < k ==> (#[trigger] attrs[j]).key != attrs[k].key) ==> {
            &&& attrs[k].key == "contentType"@ && text::lower(attrs[k].raw) == "audio"@
                ==> numbers::is_audio_set(attrs)
            &&& attrs[k].key == "mimeType"@ && (exists|rest: Seq<char>|
                attrs[k].raw == "audio/"@ + rest) ==> numbers::is_audio_set(attrs)
        },
        (forall|j: int|
            0 <= j < attrs.len() ==> (#[trigger] attrs[j]).key != "contentType"@ && attrs[j].key
                != "mimeType"@) ==> !numbers::is_audio_set(attrs),
{
    if 0 <= k < attrs.len() && (forall|j: int|
        0 <= j < k ==> (#[trigger] attrs[j]).key != attrs[k].key) {
        first_attribute_counts(attrs, k);
        if exists|rest: Seq<char>| attrs[k].raw == "audio/"@ + rest {
            let rest = choose|rest: Seq<char>| attrs[k].raw == "audio/"@ + rest;
            assert(attrs[k].raw.take("audio/"@.len() as int) =~= "audio/"@);
        }
    }
    if forall|j: int|
        0 <= j < attrs.len() ==> (#[trigger] attrs[j]).key != "contentType"@ && attrs[j].key
            != "mimeType"@ {
        missing_attribute_is_none(attrs, "contentType"@);
        missing_attribute_is_none(attrs, "mimeType"@);
    }
}

// ---------------------------------------------------------------------------
// An audio set
// ---------------------------------------------------------------------------

/// An opening tag.
pub open spec fn tag(start: u64, end: u64, name: Seq<char>, attrs: Seq<XmlAttrView>) -> XmlStepView {
    XmlStepView { start, end, event: XmlEventView::Tag { empty: false, name, attrs } }
}

/// A closing tag.
pub open spec fn closing(start: u64, end: u64, name: Seq<char>) -> XmlStepView {
    XmlStepView { start, end, event: XmlEventView::End(name) }
}

/// The tags of the entries of a timeline, or of representations.
pub open spec fn tags(name: Seq<char>, list: Seq<Seq<XmlAttrView>>) -> Seq<XmlStepView> {
    list.map_values(
        |attrs: Seq<XmlAttrView>|
            XmlStepView { start: 0, end: 0, event: XmlEventView::Tag { empty: true, name, attrs } },
    )
}

/// What the entries of a timeline say: the time where there is one, and the duration.
pub open spec fn entries(list: Seq<Seq<XmlAttrView>>) -> Seq<(Option<u64>, u64)> {
    list.map_values(
        |attrs: Seq<XmlAttrView>|
            (numbers::attr_number(attrs, "t"@), numbers::attr_number(attrs, "d"@)->0),
    )
}

/// The ids of representations.
pub open spec fn ids(list: Seq<Seq<XmlAttrView>>) -> Seq<Seq<char>> {
    list.map_values(|attrs: Seq<XmlAttrView>| numbers::attr_raw(attrs, "id"@)->0)
}

/// The names of the elements are no two the same.
proof fn names_differ()
    ensures
        "S"@ != "BaseURL"@,
        "S"@ != "AdaptationSet"@,
        "S"@ != "SegmentTemplate"@,
        "S"@ != "Representation"@,
        "BaseURL"@ != "AdaptationSet"@,
        "BaseURL"@ != "SegmentTemplate"@,
        "BaseURL"@ != "Representation"@,
        "AdaptationSet"@ != "SegmentTemplate"@,
        "AdaptationSet"@ != "Representation"@,
        "SegmentTemplate"@ != "Representation"@,
{
    reveal_strlit("S");
    reveal_strlit("BaseURL");
    reveal_strlit("AdaptationSet");
    reveal_strlit("SegmentTemplate");
    reveal_strlit("Representation");
    assert("S"@.len() == 1 && "BaseURL"@.len() == 7 && "AdaptationSet"@.len() == 13
        && "SegmentTemplate"@.len() == 15 && "Representation"@.len() == 14);
}

proof fn entries_are_read(
    st: ScanView,
    manifest: Seq<char>,
    list: Seq<Seq<XmlAttrView>>,
    rest: Seq<XmlStepView>,
)
    requires
        !st.stopped,
        st.set.is_audio,
        forall|i: int|
            0 <= i < list.len() ==> numbers::attr_number(#[trigger] list[i], "d"@) is Some,
    ensures
        numbers::scan(st, manifest, tags("S"@, list) + rest) == numbers::scan(
            ScanView {
                set: numbers::SetView {
                    s_entries: st.set.s_entries + entries(list),
                    ..st.set
                },
                ..st
            },
            manifest,
            rest,
        ),
    decreases list.len(),
{
    names_differ();
    let steps = tags("S"@, list) + rest;
    if list.len() == 0 {
        assert(steps =~= rest);
        assert(st.set.s_entries + entries(list) =~= st.set.s_entries);
    } else {
        let t = list.drop_first();
        assert(numbers::attr_number(list[0], "d"@) is Some);
        assert forall|i: int| 0 <= i < t.len() implies numbers::attr_number(
            #[trigger] t[i],
            "d"@,
        ) is Some by {
            assert(t[i] == list[i + 1]);
        }
        assert(steps.drop_first() =~= tags("S"@, t) + rest);
        let one = entries(list)[0];
        let next = ScanView {
            set: numbers::SetView { s_entries: st.set.s_entries.push(one), ..st.set },
            ..st
        };
        assert(numbers::scan_step(st, manifest, steps[0]) == next);
        entries_are_read(next, manifest, t, rest);
        assert(st.set.s_entries.push(one) + entries(t) =~= st.set.s_entries + entries(list));
    }
}

proof fn ids_are_read(
    st: ScanView,
    manifest: Seq<char>,
    list: Seq<Seq<XmlAttrView>>,
    rest: Seq<XmlStepView>,
)
    requires
        !st.stopped,
        st.set.is_audio,
        forall|i: int|
            0 <= i < list.len() ==> numbers::attr_raw(#[trigger] list[i], "id"@) is Some,
    ensures
        numbers::scan(st, manifest, tags("Representation"@, list) + rest) == numbers::scan(
            ScanView {
                set: numbers::SetView { rep_ids: st.set.rep_ids + ids(list), ..st.set },
                ..st
            },
            manifest,
            rest,
        ),
    decreases list.len(),
{
    names_differ();
    let steps = tags("Representation"@, list) + rest;
    if list.len() == 0 {
        assert(steps =~= rest);
        assert(st.set.rep_ids + ids(list) =~= st.set.rep_ids);
    } else {
        let t = list.drop_first();
        assert(numbers::attr_raw(list[0], "id"@) is Some);
        assert forall|i: int| 0 <= i < t.len() implies numbers::attr_raw(
            #[trigger] t[i],
            "id"@,
        ) is Some by {
            assert(t[i] == list[i + 1]);
        }
        assert(steps.drop_first() =~= tags("Representation"@, t) + rest);
        let one = ids(list)[0];
        let next = ScanView {
            set: numbers::SetView { rep_ids: st.set.rep_ids.push(one), ..st.set },
            ..st
        };
        assert(numbers::scan_step(st, manifest, steps[0]) == next);
        ids_are_read(next, manifest, t, rest);
        assert(st.set.rep_ids.push(one) + ids(t) =~= st.set.rep_ids + ids(list));
    }
}

/// An audio set: its tag, the tag of its template, the entries of its timeline, and its
/// representations.
pub struct AudioSet {
    pub attrs: Seq<XmlAttrView>,
    pub from: u64,
    pub template: Seq<XmlAttrView>,
    pub timeline: Seq<Seq<XmlAttrView>>,
    pub to: u64,
    pub representations: Seq<Seq<XmlAttrView>>,
}

/// The events of an audio set.
pub open spec fn set_events(a: AudioSet) -> Seq<XmlStepView> {
    seq![tag(0, 0, "AdaptationSet"@, a.attrs), tag(a.from, 0, "SegmentTemplate"@, a.template)]
        + (tags("S"@, a.timeline) + (seq![closing(0, a.to, "SegmentTemplate"@)] + (tags(
        "Representation"@,
        a.representations,
    ) + seq![closing(0, 0, "AdaptationSet"@)])))
}

/// Whether an audio set says all that is needed: every entry has a duration, every
/// representation an id, and the template its attributes.
pub open spec fn is_complete(a: AudioSet) -> bool {
    &&& numbers::is_audio_set(a.attrs)
    &&& numbers::attr_number(a.template, "timescale"@) is Some
    &&& numbers::attr_unescaped(a.template, "media"@) is Some
    &&& numbers::attr_raw(a.template, "initialization"@) is Some
    &&& forall|i: int|
        0 <= i < a.timeline.len() ==> numbers::attr_number(#[trigger] a.timeline[i], "d"@) is Some
    &&& a.representations.len() > 0
    &&& forall|i: int|
        0 <= i < a.representations.len() ==> numbers::attr_raw(
            #[trigger] a.representations[i],
            "id"@,
        ) is Some
    &&& a.to != 0
}

/// The state behind an audio set.
#[verifier::rlimit(80)]
#[verifier::spinoff_prover]
proof fn set_is_read(st: ScanView, manifest: Seq<char>, a: AudioSet)
    requires
        !st.stopped,
        is_complete(a),
    ensures
        ({
            let set = numbers::SetView {
                is_audio: true,
                template_span: Some((a.from, a.to)),
                timescale: numbers::attr_number(a.template, "timescale"@),
                media_raw: numbers::attr_unescaped(a.template, "media"@),
                init_raw: numbers::attr_raw(a.template, "initialization"@),
                s_entries: entries(a.timeline),
                rep_ids: ids(a.representations),
            };
            numbers::scan(st, manifest, set_events(a)) == numbers::scan_set_end(
                ScanView { set, ..st },
                manifest,
            )
        }),
{
    names_differ();
    let end = seq![closing(0, 0, "AdaptationSet"@)];
    let reps = tags("Representation"@, a.representations) + end;
    let rest = seq![closing(0, a.to, "SegmentTemplate"@)] + reps;
    let line = tags("S"@, a.timeline) + rest;
    let first = tag(0, 0, "AdaptationSet"@, a.attrs);
    let second = tag(a.from, 0, "SegmentTemplate"@, a.template);
    let steps = set_events(a);
    assert(steps[0] == first);
    assert(steps.drop_first()[0] == second);
    assert(steps.drop_first().drop_first() =~= line);
    let st1 = ScanView { set: numbers::blank_set(true), ..st };
    assert(numbers::scan_step(st, manifest, first) == st1);
    let st2 = numbers::scan_step(st1, manifest, second);
    assert(numbers::scan(st, manifest, steps) == numbers::scan(
        st1,
        manifest,
        steps.drop_first(),
    ));
    assert(numbers::scan(st1, manifest, steps.drop_first()) == numbers::scan(
        st2,
        manifest,
        line,
    ));
    entries_are_read(st2, manifest, a.timeline, rest);
    assert(st2.set.s_entries + entries(a.timeline) =~= entries(a.timeline));
    let st3 = ScanView {
        set: numbers::SetView { s_entries: entries(a.timeline), ..st2.set },
        ..st2
    };
    assert(rest[0] == closing(0, a.to, "SegmentTemplate"@));
    assert(rest.drop_first() =~= reps);
    let st4 = numbers::scan_step(st3, manifest, rest[0]);
    ids_are_read(st4, manifest, a.representations, end);
    assert(st4.set.rep_ids + ids(a.representations) =~= ids(a.representations));
    let st5 = ScanView {
        set: numbers::SetView { rep_ids: ids(a.representations), ..st4.set },
        ..st4
    };
    let st6 = numbers::scan_step(st5, manifest, end[0]);
    assert(end.drop_first() =~= Seq::empty());
    assert(numbers::scan(st6, manifest, end.drop_first()) == st6);
    assert(numbers::scan(st5, manifest, end) == st6);
}

/// An audio set with segments of one duration gets a template by number in the place of its
/// own, and nothing else of the manifest changes: the number at which it starts is one for a
/// representation that is new, and otherwise the one that its time has by the mapping that is
/// there.
#[verifier::rlimit(80)]
#[verifier::spinoff_prover]
pub proof fn even_audio_set_is_numbered(
    st: ScanView,
    base: Seq<char>,
    a: AudioSet,
    pre: Seq<char>,
    template: Seq<char>,
    post: Seq<char>,
)
    requires
        !st.stopped,
        st.copied == 0,
        st.out == Seq::<char>::empty(),
        st.base_url == Some(base),
        is_complete(a),
        a.timeline.len() == 1,
        numbers::attr_number(a.timeline[0], "t"@) is Some,
        numbers::attr_number(a.timeline[0], "d"@)->0 > 0,
        text::byte_len(pre) == a.from,
        text::byte_len(pre + template) == a.to,
        ({
            let d = numbers::attr_number(a.timeline[0], "d"@)->0;
            let pattern = base + numbers::attr_unescaped(a.template, "media"@)->0;
            forall|i: int|
                0 <= i < a.representations.len() ==> fits(
                    st.numbers,
                    #[trigger] ids(a.representations)[i],
                    d,
                    pattern,
                )
        }),
        ({
            let t = numbers::attr_number(a.timeline[0], "t"@)->0;
            let r = ids(a.representations)[0];
            st.numbers.map.contains_key(r) ==> st.numbers.map[r].number_of(t as int) <= u64::MAX
        }),
    ensures
        ({
            let manifest = pre + template + post;
            let d = numbers::attr_number(a.timeline[0], "d"@)->0;
            let t = numbers::attr_number(a.timeline[0], "t"@)->0;
            let r = ids(a.representations)[0];
            let start = if st.numbers.map.contains_key(r) {
                let epoch = st.numbers.map[r].epoch_t as int;
                1 + (if t > epoch {
                    t - epoch
                } else {
                    0
                }) / d as int
            } else {
                1
            };
            numbers::scanned(numbers::scan(st, manifest, set_events(a)), manifest) == pre
                + numbers::number_template(
                numbers::attr_number(a.template, "timescale"@)->0,
                numbers::attr_raw(a.template, "initialization"@)->0,
                d,
                start,
            ) + post
        }),
{
    let manifest = pre + template + post;
    let d = numbers::attr_number(a.timeline[0], "d"@)->0;
    let t = numbers::attr_number(a.timeline[0], "t"@)->0;
    let reps = ids(a.representations);
    let r = reps[0];
    let pattern = base + numbers::attr_unescaped(a.template, "media"@)->0;
    set_is_read(st, manifest, a);
    assert(entries(a.timeline)[0] == (Some(t), d));
    fitting_representations_are_established(st.numbers, reps, d, t, pattern);
    let after = numbers::establish(st.numbers, reps, d, t, pattern).0;
    assert(after.map.contains_key(r));
    assert(fits(st.numbers, r, d, pattern));
    assert(0int / (d as int) == 0) by (nonlinear_arith)
        requires
            d > 0,
    ;
    let i = pre.len() as int;
    let j = (pre + template).len() as int;
    assert(manifest.take(i) =~= pre);
    assert(manifest.take(j) =~= pre + template);
    assert(text::is_offset(manifest, a.from as int, i));
    assert(text::is_offset(manifest, a.to as int, j));
    text::offset_is_unique(
        manifest,
        a.from as int,
        i,
        text::index_at(manifest, a.from as int)->0,
    );
    text::offset_is_unique(manifest, a.to as int, j, text::index_at(manifest, a.to as int)->0);
    assert(manifest.subrange(0, i) =~= pre);
    assert(manifest.skip(j) =~= post);
    assert(Seq::<char>::empty() + pre =~= pre);
}

/// An audio set whose segments differ in duration, or whose timeline does not say where it
/// starts, keeps its template.
pub proof fn uneven_audio_set_stays(st: ScanView, a: AudioSet, manifest: Seq<char>)
    requires
        !st.stopped,
        st.copied == 0,
        st.out == Seq::<char>::empty(),
        is_complete(a),
        a.timeline.len() != 1 || numbers::attr_number(a.timeline[0], "t"@) is None
            || numbers::attr_number(a.timeline[0], "d"@)->0 == 0,
    ensures
        numbers::scanned(numbers::scan(st, manifest, set_events(a)), manifest) == manifest,
        numbers::scan(st, manifest, set_events(a)).numbers == st.numbers,
{
    set_is_read(st, manifest, a);
    if a.timeline.len() == 1 {
        assert(entries(a.timeline)[0].0 == numbers::attr_number(a.timeline[0], "t"@));
    }
    assert(Seq::<char>::empty() + manifest.skip(0) =~= manifest);
}

/// The first base URL with any text in it is the one that counts.
pub proof fn first_base_url_counts(
    st: ScanView,
    manifest: Seq<char>,
    attrs: Seq<XmlAttrView>,
    base: Seq<char>,
)
    requires
        !st.stopped,
    ensures
        ({
            let text_step = XmlStepView {
                start: 0,
                end: 0,
                event: XmlEventView::Text(Some(base)),
            };
            let after = numbers::scan(
                st,
                manifest,
                seq![tag(0, 0, "BaseURL"@, attrs), text_step],
            );
            &&& st.base_url is None && text::trimmed(base).len() > 0 ==> after.base_url == Some(
                text::trimmed(base),
            )
            &&& st.base_url is Some ==> after.base_url == st.base_url
            &&& st.base_url is None && text::trimmed(base).len() == 0 ==> after.base_url is None
        }),
{
    let text_step = XmlStepView { start: 0, end: 0, event: XmlEventView::Text(Some(base)) };
    let steps = seq![tag(0, 0, "BaseURL"@, attrs), text_step];
    let st1 = numbers::scan_step(st, manifest, steps[0]);
    assert(steps.drop_first()[0] == text_step);
    assert(steps.drop_first().drop_first() =~= Seq::empty());
    let st2 = numbers::scan_step(st1, manifest, text_step);
    assert(numbers::scan(st2, manifest, steps.drop_first().drop_first()) == st2);
    assert(numbers::scan(st1, manifest, steps.drop_first()) == st2);
}

/// A set that does not say all that is needed keeps its template, and nothing is established
/// for it.
pub proof fn incomplete_set_stays(
    set: numbers::SetView,
    base_url: Option<Seq<char>>,
    st: NumbersView,
)
    requires
        set.template_span is None || (set.template_span matches Some((_, end)) && end == 0)
            || set.timescale is None
            || set.media_raw is None || set.init_raw is None || base_url is None
            || set.rep_ids.len() == 0 || set.s_entries.len() != 1,
    ensures
        numbers::set_template(set, base_url, st) == (st, None::<Seq<char>>),
{
}

/// Tags that say nothing change nothing: an entry without a duration, a representation without
/// an id, an empty template, and any tag outside of an audio set but one that opens a set or a
/// base URL.
pub proof fn idle_tags_change_nothing(
    st: ScanView,
    start: u64,
    empty: bool,
    name: Seq<char>,
    attrs: Seq<XmlAttrView>,
)
    ensures
        numbers::attr_number(attrs, "d"@) is None ==> numbers::scan_tag(
            st,
            start,
            empty,
            "S"@,
            attrs,
        ) == st,
        numbers::attr_raw(attrs, "id"@) is None ==> numbers::scan_tag(
            st,
            start,
            empty,
            "Representation"@,
            attrs,
        ) == st,
        numbers::scan_tag(st, start, true, "SegmentTemplate"@, attrs) == st,
        numbers::scan_tag(st, start, true, "AdaptationSet"@, attrs) == st,
        !st.set.is_audio && name != "BaseURL"@ && name != "AdaptationSet"@ ==> numbers::scan_tag(
            st,
            start,
            empty,
            name,
            attrs,
        ) == st,
{
    names_differ();
}

} // verus!
