//! What holds of a manifest whose audio segments are addressed by number.

use crate::numbers;
use crate::numbers::{NumbersView, ScanView, SetView};
use crate::text;
use crate::xml::{XmlAttrView, XmlEventView, XmlStepView};
use vstd::prelude::*;

verus! {

/// A part of a manifest, from one place to another, and the text put in its place.
pub struct Edit {
    pub from: int,
    pub to: int,
    pub text: Seq<char>,
}

/// Where the last part ends.
pub open spec fn edits_end(edits: Seq<Edit>) -> int {
    if edits.len() == 0 {
        0
    } else {
        edits.last().to
    }
}

/// A manifest up to the end of the last part: the new texts, and between them what stood
/// there.
pub open spec fn edited_front(manifest: Seq<char>, edits: Seq<Edit>) -> Seq<char>
    decreases edits.len(),
{
    if edits.len() == 0 {
        Seq::empty()
    } else {
        let before = edits.drop_last();
        edited_front(manifest, before) + manifest.subrange(edits_end(before), edits.last().from)
            + edits.last().text
    }
}

/// A manifest with parts of it replaced.
pub open spec fn edited(manifest: Seq<char>, edits: Seq<Edit>) -> Seq<char> {
    edited_front(manifest, edits) + manifest.skip(edits_end(edits))
}

/// Whether the parts lie one behind the other, without overlap, in the manifest.
pub open spec fn in_order(manifest: Seq<char>, edits: Seq<Edit>) -> bool {
    forall|k: int|
        0 <= k < edits.len() ==> edits_end(edits.take(k)) <= (#[trigger] edits[k]).from
            <= edits[k].to <= manifest.len()
}

/// Whether an event opens an audio set.
pub open spec fn opens_audio_set(step: XmlStepView) -> bool {
    match step.event {
        XmlEventView::Tag { empty, name, attrs } => !empty && name == "AdaptationSet"@
            && numbers::is_audio_set(attrs),
        _ => false,
    }
}

/// Whether an event closes a set.
pub open spec fn closes_set(step: XmlStepView) -> bool {
    match step.event {
        XmlEventView::End(name) => name == "AdaptationSet"@,
        _ => false,
    }
}

/// Whether a set begins or ends with an event.
pub open spec fn bounds_set(step: XmlStepView) -> bool {
    match step.event {
        XmlEventView::Tag { empty, name, attrs } => !empty && name == "AdaptationSet"@,
        _ => closes_set(step),
    }
}

/// Whether an event opens a template.
pub open spec fn opens_template(step: XmlStepView) -> bool {
    match step.event {
        XmlEventView::Tag { empty, name, attrs } => !empty && name == "SegmentTemplate"@,
        _ => false,
    }
}

/// Whether an event closes a template.
pub open spec fn closes_template(step: XmlStepView) -> bool {
    match step.event {
        XmlEventView::End(name) => name == "SegmentTemplate"@,
        _ => false,
    }
}

/// The attributes of a tag.
pub open spec fn attrs_of(step: XmlStepView) -> Seq<XmlAttrView> {
    match step.event {
        XmlEventView::Tag { empty, name, attrs } => attrs,
        _ => Seq::empty(),
    }
}

/// The runs listed between two events: time and duration of each.
pub open spec fn runs_between(steps: Seq<XmlStepView>, from: int, to: int) -> Seq<
    (Option<u64>, u64),
>
    decreases to - from,
{
    if to <= from + 1 {
        Seq::empty()
    } else {
        let before = runs_between(steps, from, to - 1);
        match steps[to - 1].event {
            XmlEventView::Tag { empty, name, attrs } => match numbers::attr_number(attrs, "d"@) {
                Some(d) if name == "S"@ => before.push((numbers::attr_number(attrs, "t"@), d)),
                _ => before,
            },
            _ => before,
        }
    }
}

/// The representations listed between two events.
pub open spec fn ids_between(steps: Seq<XmlStepView>, from: int, to: int) -> Seq<Seq<char>>
    decreases to - from,
{
    if to <= from + 1 {
        Seq::empty()
    } else {
        let before = ids_between(steps, from, to - 1);
        match steps[to - 1].event {
            XmlEventView::Tag { empty, name, attrs } => match numbers::attr_raw(attrs, "id"@) {
                Some(id) if name == "Representation"@ => before.push(id),
                _ => before,
            },
            _ => before,
        }
    }
}

/// Whether a part is a template inside the audio set from event `set` to event `end`: it
/// runs from the tag that event `open` reads to the end of the one that event `close` reads,
/// the last of their kind in the set. The set lists a representation, and one run with a
/// time and a duration; the template names a scale, the segments and the init segment; and
/// the new text is the template by number with that duration.
pub open spec fn replaces_template(
    manifest: Seq<char>,
    steps: Seq<XmlStepView>,
    edit: Edit,
    set: int,
    open: int,
    close: int,
    end: int,
) -> bool {
    let attrs = attrs_of(steps[open]);
    let runs = runs_between(steps, set, end);
    &&& 0 <= set < open < close < end < steps.len()
    &&& opens_audio_set(steps[set])
    &&& opens_template(steps[open])
    &&& closes_template(steps[close])
    &&& closes_set(steps[end])
    &&& forall|k: int| set < k < end ==> !bounds_set(#[trigger] steps[k])
    &&& forall|k: int| open < k < end ==> !opens_template(#[trigger] steps[k])
    &&& forall|k: int| close < k < end ==> !closes_template(#[trigger] steps[k])
    &&& text::index_at(manifest, steps[open].start as int) == Some(edit.from)
    &&& text::index_at(manifest, steps[close].end as int) == Some(edit.to)
    &&& ids_between(steps, set, end).len() > 0
    &&& runs.len() == 1
    &&& runs[0].0 is Some
    &&& runs[0].1 > 0
    &&& numbers::attr_unescaped(attrs, "media"@) is Some
    &&& numbers::attr_number(attrs, "timescale"@) is Some
    &&& numbers::attr_raw(attrs, "initialization"@) is Some
    &&& exists|number: int|
        edit.text == #[trigger] numbers::number_template(
            numbers::attr_number(attrs, "timescale"@)->0,
            numbers::attr_raw(attrs, "initialization"@)->0,
            runs[0].1,
            number,
        )
}

/// Whether a part is a template of some audio set.
pub open spec fn is_audio_template(
    manifest: Seq<char>,
    steps: Seq<XmlStepView>,
    edit: Edit,
) -> bool {
    exists|set: int, open: int, close: int, end: int|
        replaces_template(manifest, steps, edit, set, open, close, end)
}

/// What has been read of a set after `n` events: the set was opened by event `set`, its
/// template by event `open`, and closed by event `close`.
spec fn set_is_read(
    v: SetView,
    steps: Seq<XmlStepView>,
    n: int,
    set: int,
    open: int,
    close: int,
) -> bool {
    v.is_audio ==> {
        &&& 0 <= set < n
        &&& opens_audio_set(steps[set])
        &&& forall|k: int| set < k < n ==> !bounds_set(#[trigger] steps[k])
        &&& v.s_entries == runs_between(steps, set, n)
        &&& v.rep_ids == ids_between(steps, set, n)
        &&& match v.template_span {
            None => true,
            Some(span) => {
                &&& set < open < n
                &&& opens_template(steps[open])
                &&& span.0 == steps[open].start
                &&& forall|k: int| open < k < n ==> !opens_template(#[trigger] steps[k])
                &&& v.timescale == numbers::attr_number(attrs_of(steps[open]), "timescale"@)
                &&& v.media_raw == numbers::attr_unescaped(attrs_of(steps[open]), "media"@)
                &&& v.init_raw == numbers::attr_raw(attrs_of(steps[open]), "initialization"@)
                &&& span.1 != 0 ==> {
                    &&& open < close < n
                    &&& closes_template(steps[close])
                    &&& span.1 == steps[close].end
                    &&& forall|k: int| close < k < n ==> !closes_template(#[trigger] steps[k])
                }
            },
        }
    }
}

/// What has been written after some events: the manifest with parts replaced, each of them
/// a template.
spec fn is_edited(
    st: ScanView,
    manifest: Seq<char>,
    steps: Seq<XmlStepView>,
    edits: Seq<Edit>,
) -> bool {
    &&& st.out == edited_front(manifest, edits)
    &&& st.copied == edits_end(edits)
    &&& in_order(manifest, edits)
    &&& forall|k: int|
        0 <= k < edits.len() ==> is_audio_template(manifest, steps, #[trigger] edits[k])
}

/// One event, as far as the set is concerned.
proof fn event_is_read(
    st: ScanView,
    manifest: Seq<char>,
    steps: Seq<XmlStepView>,
    n: int,
    set: int,
    open: int,
    close: int,
) -> (next: (int, int, int))
    requires
        0 <= n < steps.len(),
        !closes_set(steps[n]),
        set_is_read(st.set, steps, n, set, open, close),
    ensures
        set_is_read(
            numbers::scan_step(st, manifest, steps[n]).set,
            steps,
            n + 1,
            next.0,
            next.1,
            next.2,
        ),
        numbers::scan_step(st, manifest, steps[n]).out == st.out,
        numbers::scan_step(st, manifest, steps[n]).copied == st.copied,
{
    reveal_strlit("BaseURL");
    reveal_strlit("AdaptationSet");
    reveal_strlit("SegmentTemplate");
    reveal_strlit("Representation");
    reveal_strlit("S");
    assert("BaseURL"@.len() == 7 && "AdaptationSet"@.len() == 13 && "SegmentTemplate"@.len() == 15);
    assert("Representation"@.len() == 14 && "S"@.len() == 1);
    let step = steps[n];
    if st.set.is_audio && set < n {
        assert(runs_between(steps, set, n + 1) == match step.event {
            XmlEventView::Tag { empty, name, attrs } => match numbers::attr_number(attrs, "d"@) {
                Some(d) if name == "S"@ => runs_between(steps, set, n).push(
                    (numbers::attr_number(attrs, "t"@), d),
                ),
                _ => runs_between(steps, set, n),
            },
            _ => runs_between(steps, set, n),
        });
        assert(ids_between(steps, set, n + 1) == match step.event {
            XmlEventView::Tag { empty, name, attrs } => match numbers::attr_raw(attrs, "id"@) {
                Some(id) if name == "Representation"@ => ids_between(steps, set, n).push(id),
                _ => ids_between(steps, set, n),
            },
            _ => ids_between(steps, set, n),
        });
    }
    if bounds_set(step) {
        assert(runs_between(steps, n, n + 1) =~= Seq::empty());
        assert(ids_between(steps, n, n + 1) =~= Seq::empty());
        (n, open, close)
    } else if opens_template(step) {
        (set, n, close)
    } else if closes_template(step) {
        (set, open, n)
    } else {
        (set, open, close)
    }
}

/// The end of a set.
#[verifier::rlimit(80)]
#[verifier::spinoff_prover]
proof fn set_end_is_read(
    st: ScanView,
    manifest: Seq<char>,
    steps: Seq<XmlStepView>,
    n: int,
    set: int,
    open: int,
    close: int,
    edits: Seq<Edit>,
) -> (more: Seq<Edit>)
    requires
        0 <= n < steps.len(),
        closes_set(steps[n]),
        set_is_read(st.set, steps, n, set, open, close),
        is_edited(st, manifest, steps, edits),
    ensures
        ({
            let after = numbers::scan_step(st, manifest, steps[n]);
            &&& !after.set.is_audio
            &&& !after.stopped ==> is_edited(after, manifest, steps, more)
        }),
{
    reveal_strlit("AdaptationSet");
    reveal_strlit("SegmentTemplate");
    assert("AdaptationSet"@.len() == 13 && "SegmentTemplate"@.len() == 15);
    let after = numbers::scan_step(st, manifest, steps[n]);
    let (nums, made) = numbers::set_template(st.set, st.base_url, st.numbers);
    if st.set.is_audio && made is Some && !after.stopped {
        let span = st.set.template_span->0;
        let from = text::index_at(manifest, span.0 as int);
        let to = text::index_at(manifest, span.1 as int);
        if from is Some && to is Some && st.copied <= from->0 <= to->0 {
            let edit = Edit { from: from->0, to: to->0, text: made->0 };
            let more = edits.push(edit);
            assert(text::is_offset(manifest, span.1 as int, to->0));
            assert(more.drop_last() =~= edits);
            let (t, d) = numbers::single_run(st.set, st.base_url)->0;
            let number = nums.map[st.set.rep_ids[0]].number_of(t as int);
            assert(edit.text == numbers::number_template(
                st.set.timescale->0,
                st.set.init_raw->0,
                d,
                number,
            ));
            assert(replaces_template(manifest, steps, edit, set, open, close, n));
            assert forall|k: int| 0 <= k < more.len() implies is_audio_template(
                manifest,
                steps,
                #[trigger] more[k],
            ) by {
                if k < edits.len() {
                    assert(more[k] == edits[k]);
                }
            }
            assert forall|k: int| 0 <= k < more.len() implies edits_end(more.take(k)) <= (
            #[trigger] more[k]).from <= more[k].to <= manifest.len() by {
                if k < edits.len() {
                    assert(more[k] == edits[k]);
                    assert(more.take(k) =~= edits.take(k));
                } else {
                    assert(more.take(k) =~= edits);
                }
            }
            more
        } else {
            edits
        }
    } else {
        edits
    }
}

/// All events from `n` on.
proof fn rest_is_read(
    st: ScanView,
    manifest: Seq<char>,
    steps: Seq<XmlStepView>,
    n: int,
    set: int,
    open: int,
    close: int,
    edits: Seq<Edit>,
) -> (all: Seq<Edit>)
    requires
        0 <= n <= steps.len(),
        set_is_read(st.set, steps, n, set, open, close),
        is_edited(st, manifest, steps, edits),
    ensures
        ({
            let after = numbers::scan(st, manifest, steps.skip(n));
            !after.stopped ==> is_edited(after, manifest, steps, all)
        }),
    decreases steps.len() - n,
{
    if st.stopped || n == steps.len() {
        edits
    } else {
        let next = numbers::scan_step(st, manifest, steps[n]);
        assert(steps.skip(n)[0] == steps[n]);
        assert(steps.skip(n).drop_first() =~= steps.skip(n + 1));
        if closes_set(steps[n]) {
            let more = set_end_is_read(st, manifest, steps, n, set, open, close, edits);
            if next.stopped {
                edits
            } else {
                rest_is_read(next, manifest, steps, n + 1, set, open, close, more)
            }
        } else {
            let (s, o, c) = event_is_read(st, manifest, steps, n, set, open, close);
            rest_is_read(next, manifest, steps, n + 1, s, o, c, edits)
        }
    }
}

/// Only templates of audio sets that were fully understood are replaced; every other
/// character of the manifest is kept, in its place.
pub proof fn only_audio_templates_are_replaced(
    manifest: Seq<char>,
    steps: Seq<XmlStepView>,
    st: NumbersView,
) -> (edits: Seq<Edit>)
    ensures
        numbers::scanned(
            numbers::scan(numbers::scan_start(st), manifest, steps),
            manifest,
        ) == edited(manifest, edits),
        in_order(manifest, edits),
        forall|k: int|
            0 <= k < edits.len() ==> is_audio_template(manifest, steps, #[trigger] edits[k]),
{
    let start = numbers::scan_start(st);
    let none = Seq::<Edit>::empty();
    assert(steps.skip(0) =~= steps);
    let all = rest_is_read(start, manifest, steps, 0, 0, 0, 0, none);
    if numbers::scan(start, manifest, steps).stopped {
        assert(edited(manifest, none) =~= manifest);
        none
    } else {
        all
    }
}

/// A manifest that cannot be read to its end comes back unchanged.
pub proof fn malformed_manifest_stays(
    manifest: Seq<char>,
    steps: Seq<XmlStepView>,
    st: NumbersView,
    k: int,
)
    requires
        0 <= k < steps.len(),
        steps[k].event is Malformed,
    ensures
        numbers::scanned(
            numbers::scan(numbers::scan_start(st), manifest, steps),
            manifest,
        ) == manifest,
{
    malformed_stops(numbers::scan_start(st), manifest, steps, k);
}

proof fn malformed_stops(st: ScanView, manifest: Seq<char>, steps: Seq<XmlStepView>, k: int)
    requires
        0 <= k < steps.len(),
        steps[k].event is Malformed,
    ensures
        numbers::scan(st, manifest, steps).stopped,
    decreases steps.len(),
{
    if !st.stopped {
        let next = numbers::scan_step(st, manifest, steps[0]);
        if k > 0 {
            assert(steps.drop_first()[k - 1] == steps[k]);
            malformed_stops(next, manifest, steps.drop_first(), k - 1);
        } else {
            assert(next.stopped);
            assert(numbers::scan(next, manifest, steps.drop_first()) == next);
        }
    }
}

} // verus!
