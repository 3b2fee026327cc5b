//! Addressing audio segments by number instead of by time.
//!
//! A live manifest lists audio segments by time, in a timeline that moves with
//! every refresh. A player that loses track of the moving timeline repeats or skips
//! audio. Addressed by number, with a fixed duration, segments keep their names
//! from one refresh to the next; the proxy turns a number back into a time.

use crate::text;
use crate::text::{
    behind, char_index, chars_of, find_one, front, has_prefix, parse_u64, push_chars, push_number,
    push_text, replace, replace_once, same_text, text_of, to_lower, trim,
};
use crate::text_map::{TextMap, TextSet};
use crate::xml;
use crate::xml::{read_document, XmlAttr, XmlAttrView, XmlEvent, XmlEventView, XmlStep, XmlStepView};
use vstd::prelude::*;

verus! {

// ---------------------------------------------------------------------------
// Numbers and times
// ---------------------------------------------------------------------------

/// How the segment numbers of a representation relate to times.
pub struct MappingView {
    pub duration: u64,
    pub epoch_t: u64,
    pub media_pattern: Seq<char>,
}

/// How the segment numbers of a representation relate to times. Established once,
/// from the first manifest that lists the representation, then held fixed.
#[derive(Debug)]
pub struct NumberMapping {
    /// Segment duration in units of the representation's time scale.
    pub duration: u64,
    /// The time of segment number 1.
    pub epoch_t: u64,
    /// Media URL pattern, with `$RepresentationID$` and `$Time$` in it.
    pub media_pattern: String,
}

impl View for NumberMapping {
    type V = MappingView;

    open spec fn view(&self) -> MappingView {
        MappingView {
            duration: self.duration,
            epoch_t: self.epoch_t,
            media_pattern: self.media_pattern@,
        }
    }
}

impl MappingView {
    /// The time of segment `number`; number 0 counts as number 1.
    pub open spec fn time_of(self, number: int) -> int {
        self.epoch_t + (if number > 1 {
            number - 1
        } else {
            0
        }) * self.duration
    }

    /// The number of the segment that a time falls into; a time before segment 1
    /// counts as its start.
    pub open spec fn number_of(self, t: int) -> int {
        1 + (if t > self.epoch_t {
            t - self.epoch_t
        } else {
            0
        }) / self.duration as int
    }

    /// The URL of segment `number` of representation `repid`.
    pub open spec fn url_of(self, repid: Seq<char>, number: int) -> Seq<char> {
        text::replace_all(
            text::replace_all(self.media_pattern, "$RepresentationID$"@, repid),
            "$Time$"@,
            text::decimal(self.time_of(number) as nat),
        )
    }
}

impl NumberMapping {
    /// The time of segment `number`, counted from 1.
    pub fn time_for_number(&self, number: u64) -> (t: u64)
        requires
            self@.time_of(number as int) <= u64::MAX,
        ensures
            t == self@.time_of(number as int),
    {
        let steps: u64 = if number > 1 {
            number - 1
        } else {
            0
        };
        assert(0 <= steps * self.duration) by (nonlinear_arith);
        self.epoch_t + steps * self.duration
    }

    /// The number of the segment that a time falls into, rounding down.
    pub fn number_for_time(&self, t: u64) -> (number: u64)
        requires
            self.duration > 0,
            self@.number_of(t as int) <= u64::MAX,
        ensures
            number == self@.number_of(t as int),
    {
        1 + t.saturating_sub(self.epoch_t) / self.duration
    }

    /// Builds the URL of segment `number`.
    pub fn resolve_url(&self, repid: &str, number: u64) -> (url: String)
        requires
            self@.time_of(number as int) <= u64::MAX,
        ensures
            url@ == self@.url_of(repid@, number as int),
    {
        proof {
            reveal_strlit("$RepresentationID$");
            reveal_strlit("$Time$");
        }
        let t: u64 = self.time_for_number(number);
        let pattern = chars_of(self.media_pattern.as_str());
        let id = chars_of(repid);
        let named = replace(pattern.as_slice(), "$RepresentationID$", id.as_slice());
        let mut digits: Vec<char> = Vec::new();
        push_number(&mut digits, t);
        assert(digits@ =~= text::decimal(t as nat));
        let url = replace(named.as_slice(), "$Time$", digits.as_slice());
        text_of(url.as_slice())
    }
}

/// The segment at the time of number `n` is number `n`.
pub proof fn number_and_time_round_trip(m: MappingView, n: int)
    requires
        m.duration > 0,
        n >= 1,
    ensures
        m.number_of(m.time_of(n)) == n,
{
    let d = m.duration as int;
    let k = n - 1;
    assert(k * d / d == k) by (nonlinear_arith)
        requires
            d > 0,
            k >= 0,
    ;
    assert(k * d >= 0) by (nonlinear_arith)
        requires
            d > 0,
            k >= 0,
    ;
    if k * d == 0 {
        assert(k == 0) by (nonlinear_arith)
            requires
                k * d == 0,
                d > 0,
        ;
    }
}

/// A time falls into the segment with its number: it is not before the segment's
/// start, and before the start of the next.
pub proof fn time_falls_into_its_segment(m: MappingView, t: int)
    requires
        m.duration > 0,
        t >= m.epoch_t,
    ensures
        m.time_of(m.number_of(t)) <= t < m.time_of(m.number_of(t) + 1),
{
    let d = m.duration as int;
    let x = t - m.epoch_t;
    let q = x / d;
    assert(q * d <= x < (q + 1) * d && q >= 0) by (nonlinear_arith)
        requires
            d > 0,
            x >= 0,
            q == x / d,
    ;
    assert(m.number_of(t) == 1 + q);
    if q == 0 {
        assert(0 * d == 0) by (nonlinear_arith);
    }
}

// ---------------------------------------------------------------------------
// The mappings of a session
// ---------------------------------------------------------------------------

/// The mappings of a session, and the representations that were given up.
pub struct NumbersView {
    pub map: Map<Seq<char>, MappingView>,
    pub given_up: Set<Seq<char>>,
}

/// The mappings of a session, by representation, and the representations whose
/// segments turned out not to fit their mapping any more.
#[derive(Debug)]
pub struct NumberMappings {
    map: TextMap<NumberMapping>,
    given_up: TextSet,
}

impl View for NumberMappings {
    type V = NumbersView;

    closed spec fn view(&self) -> NumbersView {
        NumbersView {
            map: self.map@.map_values(|m: NumberMapping| m@),
            given_up: self.given_up@,
        }
    }
}

impl NumberMappings {
    /// No mapping yet.
    pub fn new() -> (r: Self)
        ensures
            r@ == (NumbersView { map: Map::empty(), given_up: Set::empty() }),
    {
        let r = NumberMappings { map: TextMap::new(), given_up: TextSet::new() };
        assert(r@.map =~= Map::empty());
        r
    }

    /// The mapping of a representation.
    pub fn get(&self, repid: &str) -> (r: Option<&NumberMapping>)
        ensures
            match r {
                Some(m) => self@.map.contains_key(repid@) && self@.map[repid@] == m@,
                None => !self@.map.contains_key(repid@),
            },
    {
        self.map.get(repid)
    }

    /// Whether there is no mapping.
    pub fn is_empty(&self) -> (r: bool)
        ensures
            r == (self@.map == Map::<Seq<char>, MappingView>::empty()),
    {
        proof {
            if self@.map == Map::<Seq<char>, MappingView>::empty() {
                assert forall|k: Seq<char>| !(#[trigger] self.map@.contains_key(k)) by {
                    assert(self@.map.contains_key(k) == self.map@.contains_key(k));
                }
                assert(self.map@ =~= Map::empty());
            }
            if self.map@ == Map::<Seq<char>, NumberMapping>::empty() {
                assert(self@.map =~= Map::<Seq<char>, MappingView>::empty());
            }
        }
        self.map.is_empty()
    }
}

/// Holds the representations `reps` to segments of duration `d` at URLs of the
/// given pattern, the current window starting at `t`. One that is new is mapped;
/// one that is mapped otherwise is given up, and ends the matter.
pub open spec fn establish(
    st: NumbersView,
    reps: Seq<Seq<char>>,
    d: u64,
    t: u64,
    pattern: Seq<char>,
) -> (NumbersView, bool)
    decreases reps.len(),
{
    if reps.len() == 0 {
        (st, true)
    } else {
        let r = reps[0];
        if st.given_up.contains(r) {
            (st, false)
        } else if !st.map.contains_key(r) {
            establish(
                NumbersView {
                    map: st.map.insert(
                        r,
                        MappingView { duration: d, epoch_t: t, media_pattern: pattern },
                    ),
                    given_up: st.given_up,
                },
                reps.drop_first(),
                d,
                t,
                pattern,
            )
        } else if st.map[r].duration != d || st.map[r].media_pattern != pattern {
            (NumbersView { map: st.map, given_up: st.given_up.insert(r) }, false)
        } else {
            establish(st, reps.drop_first(), d, t, pattern)
        }
    }
}

/// A mapping, once established, stays; and what was given up stays given up.
pub proof fn established_mappings_stay(
    st: NumbersView,
    reps: Seq<Seq<char>>,
    d: u64,
    t: u64,
    pattern: Seq<char>,
    k: Seq<char>,
)
    ensures
        st.map.contains_key(k) ==> establish(st, reps, d, t, pattern).0.map.contains_key(k)
            && establish(st, reps, d, t, pattern).0.map[k] == st.map[k],
        st.given_up.contains(k) ==> establish(st, reps, d, t, pattern).0.given_up.contains(k),
    decreases reps.len(),
{
    if reps.len() > 0 {
        let r = reps[0];
        if !st.given_up.contains(r) {
            let next = if st.map.contains_key(r) {
                st
            } else {
                NumbersView {
                    map: st.map.insert(
                        r,
                        MappingView { duration: d, epoch_t: t, media_pattern: pattern },
                    ),
                    given_up: st.given_up,
                }
            };
            established_mappings_stay(next, reps.drop_first(), d, t, pattern, k);
        }
    }
}

/// Where all goes well, every representation is mapped with this duration and
/// pattern.
pub proof fn established_mappings_fit(
    st: NumbersView,
    reps: Seq<Seq<char>>,
    d: u64,
    t: u64,
    pattern: Seq<char>,
    i: int,
)
    requires
        establish(st, reps, d, t, pattern).1,
        0 <= i < reps.len(),
    ensures
        establish(st, reps, d, t, pattern).0.map.contains_key(reps[i]),
        establish(st, reps, d, t, pattern).0.map[reps[i]].duration == d,
        establish(st, reps, d, t, pattern).0.map[reps[i]].media_pattern == pattern,
    decreases reps.len(),
{
    let r = reps[0];
    let next = if st.map.contains_key(r) {
        st
    } else {
        NumbersView {
            map: st.map.insert(
                r,
                MappingView { duration: d, epoch_t: t, media_pattern: pattern },
            ),
            given_up: st.given_up,
        }
    };
    if i == 0 {
        established_mappings_stay(next, reps.drop_first(), d, t, pattern, r);
    } else {
        established_mappings_fit(next, reps.drop_first(), d, t, pattern, i - 1);
    }
}

/// The texts of a list of strings.
pub open spec fn texts(v: Seq<String>) -> Seq<Seq<char>> {
    v.map_values(|s: String| s@)
}

impl NumberMappings {
    /// Holds representations to a duration and a URL pattern.
    fn establish_all(&mut self, reps: &Vec<String>, d: u64, t: u64, pattern: &str) -> (ok: bool)
        ensures
            (final(self)@, ok) == establish(old(self)@, texts(reps@), d, t, pattern@),
    {
        let mut i: usize = 0;
        assert(texts(reps@).skip(0) =~= texts(reps@));
        while i < reps.len()
            invariant
                i <= reps@.len(),
                establish(self@, texts(reps@).skip(i as int), d, t, pattern@) == establish(
                    old(self)@,
                    texts(reps@),
                    d,
                    t,
                    pattern@,
                ),
            decreases reps@.len() - i,
        {
            let r = reps[i].as_str();
            assert(texts(reps@).skip(i as int)[0] == r@);
            assert(texts(reps@).skip(i as int).drop_first() =~= texts(reps@).skip(i + 1));
            if self.given_up.contains(r) {
                return false;
            }
            let fits: Option<bool> = match self.map.get(r) {
                None => None,
                Some(m) => Some(m.duration == d && same_text(m.media_pattern.as_str(), pattern)),
            };
            match fits {
                None => {
                    let ghost before = self@;
                    let m = NumberMapping {
                        duration: d,
                        epoch_t: t,
                        media_pattern: pattern.to_owned(),
                    };
                    let ghost mv = m@;
                    self.map.insert(r, m);
                    assert(self@.map =~= before.map.insert(r@, mv));
                },
                Some(fits) => {
                    if !fits {
                        let ghost before = self@;
                        self.given_up.insert(r);
                        assert(self@.map =~= before.map);
                        return false;
                    }
                },
            }
            i += 1;
        }
        true
    }
}

// ---------------------------------------------------------------------------
// One set of representations
// ---------------------------------------------------------------------------

/// What is known of an `AdaptationSet` while it is read.
pub struct SetView {
    pub is_audio: bool,
    pub template_span: Option<(u64, u64)>,
    pub timescale: Option<u64>,
    pub media_raw: Option<Seq<char>>,
    pub init_raw: Option<Seq<char>>,
    pub s_entries: Seq<(Option<u64>, u64)>,
    pub rep_ids: Seq<Seq<char>>,
}

/// What is known of an `AdaptationSet` while it is read.
#[derive(Debug)]
pub struct SetScratch {
    is_audio: bool,
    /// Byte offsets of the `SegmentTemplate` element; its end is 0 until it is seen.
    template_span: Option<(u64, u64)>,
    timescale: Option<u64>,
    /// The `media` attribute, unescaped, since URLs are built from it.
    media_raw: Option<String>,
    /// The `initialization` attribute as it is written, since it is written again.
    init_raw: Option<String>,
    /// Time and duration of each `S` element.
    s_entries: Vec<(Option<u64>, u64)>,
    rep_ids: Vec<String>,
}

impl View for SetScratch {
    type V = SetView;

    closed spec fn view(&self) -> SetView {
        SetView {
            is_audio: self.is_audio,
            template_span: self.template_span,
            timescale: self.timescale,
            media_raw: text::opt_text(self.media_raw),
            init_raw: text::opt_text(self.init_raw),
            s_entries: self.s_entries@,
            rep_ids: texts(self.rep_ids@),
        }
    }
}

/// A set of which nothing is known.
pub open spec fn blank_set(is_audio: bool) -> SetView {
    SetView {
        is_audio,
        template_span: None,
        timescale: None,
        media_raw: None,
        init_raw: None,
        s_entries: Seq::empty(),
        rep_ids: Seq::empty(),
    }
}

impl SetScratch {
    fn blank(is_audio: bool) -> (r: Self)
        ensures
            r@ == blank_set(is_audio),
    {
        let r = SetScratch {
            is_audio,
            template_span: None,
            timescale: None,
            media_raw: None,
            init_raw: None,
            s_entries: Vec::new(),
            rep_ids: Vec::new(),
        };
        assert(r@.s_entries =~= Seq::empty());
        assert(r@.rep_ids =~= Seq::empty());
        r
    }
}

/// The time and duration of the one run that a set's timeline consists of. A set
/// qualifies if its template is there from end to end with all of its attributes,
/// and it has a representation and exactly one run, with a time and a duration.
pub open spec fn single_run(set: SetView, base_url: Option<Seq<char>>) -> Option<(u64, u64)> {
    match set.template_span {
        Some(span) => if span.1 != 0 && set.timescale is Some && set.media_raw is Some
            && set.init_raw is Some && base_url is Some && set.rep_ids.len() > 0
            && set.s_entries.len() == 1 && set.s_entries[0].1 > 0 {
            match set.s_entries[0].0 {
                Some(t) => Some((t, set.s_entries[0].1)),
                None => None,
            }
        } else {
            None
        },
        None => None,
    }
}

/// The template that addresses segments by number.
pub open spec fn number_template(
    timescale: u64,
    init: Seq<char>,
    d: u64,
    start_number: int,
) -> Seq<char> {
    "<SegmentTemplate timescale=\""@ + text::decimal(timescale as nat) + "\" initialization=\""@
        + init + "\" media=\"/cdnnum/$RepresentationID$/$Number$\" duration=\""@ + text::decimal(
        d as nat,
    ) + "\" startNumber=\""@ + text::decimal(start_number as nat) + "\"/>"@
}

/// What becomes of the mappings when a set has been read, and its new template, if
/// it gets one.
pub open spec fn set_template(set: SetView, base_url: Option<Seq<char>>, st: NumbersView) -> (
    NumbersView,
    Option<Seq<char>>,
) {
    match single_run(set, base_url) {
        None => (st, None),
        Some(run) => {
            let (t, d) = run;
            let (after, ok) = establish(
                st,
                set.rep_ids,
                d,
                t,
                base_url->0 + set.media_raw->0,
            );
            let n = after.map[set.rep_ids[0]].number_of(t as int);
            if ok && n <= u64::MAX {
                (after, Some(number_template(set.timescale->0, set.init_raw->0, d, n)))
            } else {
                (after, None)
            }
        },
    }
}

/// Makes the template that addresses a set's segments by number, if the set
/// qualifies and its representations fit their mappings.
fn build_number_template(
    set: &SetScratch,
    base_url: &Option<String>,
    mappings: &mut NumberMappings,
) -> (r: Option<String>)
    ensures
        (final(mappings)@, text::opt_text(r)) == set_template(
            set@,
            text::opt_text(*base_url),
            old(mappings)@,
        ),
        r is Some ==> set.template_span is Some,
{
    match set.template_span {
        None => {
            return None;
        },
        Some(span) => {
            if span.1 == 0 {
                return None;
            }
        },
    }
    let timescale: u64 = match set.timescale {
        Some(n) => n,
        None => return None,
    };
    let media = match &set.media_raw {
        Some(s) => s,
        None => return None,
    };
    let init = match &set.init_raw {
        Some(s) => s,
        None => return None,
    };
    let base = match base_url {
        Some(s) => s,
        None => return None,
    };
    assert(texts(set.rep_ids@).len() == set.rep_ids@.len());
    if set.rep_ids.len() == 0 || set.s_entries.len() != 1 {
        return None;
    }
    let d: u64 = set.s_entries[0].1;
    let t: u64 = match set.s_entries[0].0 {
        Some(t) => t,
        None => return None,
    };
    if d == 0 {
        return None;
    }
    let mut pattern = chars_of(base.as_str());
    push_text(&mut pattern, media.as_str());
    let pattern = text_of(pattern.as_slice());
    let ok = mappings.establish_all(&set.rep_ids, d, t, pattern.as_str());
    if !ok {
        return None;
    }
    proof {
        established_mappings_fit(old(mappings)@, texts(set.rep_ids@), d, t, pattern@, 0);
        assert(texts(set.rep_ids@)[0] == set.rep_ids@[0]@);
    }
    let first = match mappings.get(set.rep_ids[0].as_str()) {
        Some(m) => m,
        None => return None,
    };
    if t.saturating_sub(first.epoch_t) / first.duration == u64::MAX {
        return None;
    }
    let start_number: u64 = first.number_for_time(t);
    let mut out = chars_of("<SegmentTemplate timescale=\"");
    push_number(&mut out, timescale);
    push_text(&mut out, "\" initialization=\"");
    push_text(&mut out, init.as_str());
    push_text(&mut out, "\" media=\"/cdnnum/$RepresentationID$/$Number$\" duration=\"");
    push_number(&mut out, d);
    push_text(&mut out, "\" startNumber=\"");
    push_number(&mut out, start_number);
    push_text(&mut out, "\"/>");
    Some(text_of(out.as_slice()))
}

// ---------------------------------------------------------------------------
// A whole manifest
// ---------------------------------------------------------------------------

/// The first attribute with a key.
pub open spec fn attr_of(attrs: Seq<XmlAttrView>, key: Seq<char>) -> Option<XmlAttrView>
    decreases attrs.len(),
{
    if attrs.len() == 0 {
        None
    } else if attrs[0].key == key {
        Some(attrs[0])
    } else {
        attr_of(attrs.drop_first(), key)
    }
}

/// The value of an attribute, as it is written.
pub open spec fn attr_raw(attrs: Seq<XmlAttrView>, key: Seq<char>) -> Option<Seq<char>> {
    match attr_of(attrs, key) {
        Some(a) => Some(a.raw),
        None => None,
    }
}

/// The value of an attribute, with its escapes resolved.
pub open spec fn attr_unescaped(attrs: Seq<XmlAttrView>, key: Seq<char>) -> Option<Seq<char>> {
    match attr_of(attrs, key) {
        Some(a) => a.unescaped,
        None => None,
    }
}

/// The number that an attribute writes.
pub open spec fn attr_number(attrs: Seq<XmlAttrView>, key: Seq<char>) -> Option<u64> {
    match attr_raw(attrs, key) {
        Some(s) => text::u64_value(s),
        None => None,
    }
}

/// Whether the attributes of an `AdaptationSet` say that it is an audio one.
pub open spec fn is_audio_set(attrs: Seq<XmlAttrView>) -> bool {
    ||| match attr_raw(attrs, "contentType"@) {
        Some(s) => text::lower(s) == "audio"@,
        None => false,
    }
    ||| match attr_raw(attrs, "mimeType"@) {
        Some(s) => text::starts_with(s, "audio/"@),
        None => false,
    }
}

/// Where the reading of a manifest stands.
pub struct ScanView {
    /// The text written so far, for the first `copied` characters of the manifest.
    pub out: Seq<char>,
    pub copied: int,
    /// The first base URL.
    pub base_url: Option<Seq<char>>,
    /// Whether the next text is a base URL.
    pub capturing: bool,
    pub set: SetView,
    pub numbers: NumbersView,
    /// Whether the manifest turned out not to be understood.
    pub stopped: bool,
}

/// Before the first event.
pub open spec fn scan_start(numbers: NumbersView) -> ScanView {
    ScanView {
        out: Seq::empty(),
        copied: 0,
        base_url: None,
        capturing: false,
        set: blank_set(false),
        numbers,
        stopped: false,
    }
}

/// An opening tag.
pub open spec fn scan_tag(
    st: ScanView,
    start: u64,
    empty: bool,
    name: Seq<char>,
    attrs: Seq<XmlAttrView>,
) -> ScanView {
    if name == "BaseURL"@ {
        ScanView { capturing: st.base_url is None && !empty, ..st }
    } else if !empty && name == "AdaptationSet"@ {
        ScanView { set: blank_set(is_audio_set(attrs)), ..st }
    } else if !st.set.is_audio {
        st
    } else if !empty && name == "SegmentTemplate"@ {
        ScanView {
            set: SetView {
                template_span: Some((start, 0)),
                timescale: attr_number(attrs, "timescale"@),
                media_raw: attr_unescaped(attrs, "media"@),
                init_raw: attr_raw(attrs, "initialization"@),
                ..st.set
            },
            ..st
        }
    } else if name == "S"@ {
        match attr_number(attrs, "d"@) {
            Some(d) => ScanView {
                set: SetView {
                    s_entries: st.set.s_entries.push((attr_number(attrs, "t"@), d)),
                    ..st.set
                },
                ..st
            },
            None => st,
        }
    } else if name == "Representation"@ {
        match attr_raw(attrs, "id"@) {
            Some(id) => ScanView {
                set: SetView { rep_ids: st.set.rep_ids.push(id), ..st.set },
                ..st
            },
            None => st,
        }
    } else {
        st
    }
}

/// The new template in place of the old one, if the offsets of the old one make
/// sense.
pub open spec fn splice(st: ScanView, manifest: Seq<char>, template: Seq<char>) -> ScanView {
    let span = st.set.template_span->0;
    match (
        text::index_at(manifest, span.0 as int),
        text::index_at(manifest, span.1 as int),
    ) {
        (Some(i), Some(j)) => if st.copied <= i <= j {
            ScanView {
                out: st.out + manifest.subrange(st.copied, i) + template,
                copied: j,
                ..st
            }
        } else {
            ScanView { stopped: true, ..st }
        },
        _ => ScanView { stopped: true, ..st },
    }
}

/// The end of an `AdaptationSet`.
pub open spec fn scan_set_end(st: ScanView, manifest: Seq<char>) -> ScanView {
    let after = if st.set.is_audio {
        let (numbers, template) = set_template(st.set, st.base_url, st.numbers);
        let next = ScanView { numbers, ..st };
        match template {
            Some(t) => splice(next, manifest, t),
            None => next,
        }
    } else {
        st
    };
    ScanView { set: blank_set(false), ..after }
}

/// A closing tag.
pub open spec fn scan_end(st: ScanView, manifest: Seq<char>, end: u64, name: Seq<char>) -> ScanView {
    if st.set.is_audio && name == "SegmentTemplate"@ {
        match st.set.template_span {
            Some(span) => ScanView {
                set: SetView { template_span: Some((span.0, end)), ..st.set },
                ..st
            },
            None => st,
        }
    } else if name == "AdaptationSet"@ {
        scan_set_end(st, manifest)
    } else {
        st
    }
}

/// Text; the first that is not blank behind a `BaseURL` tag is the base URL.
pub open spec fn scan_text(st: ScanView, content: Option<Seq<char>>) -> ScanView {
    if !st.capturing {
        st
    } else {
        match content {
            Some(s) => if text::trimmed(s).len() > 0 {
                ScanView { base_url: Some(text::trimmed(s)), capturing: false, ..st }
            } else {
                ScanView { capturing: false, ..st }
            },
            None => ScanView { capturing: false, ..st },
        }
    }
}

/// One event.
pub open spec fn scan_step(st: ScanView, manifest: Seq<char>, step: XmlStepView) -> ScanView {
    match step.event {
        XmlEventView::Tag { empty, name, attrs } => scan_tag(st, step.start, empty, name, attrs),
        XmlEventView::End(name) => scan_end(st, manifest, step.end, name),
        XmlEventView::Text(content) => scan_text(st, content),
        XmlEventView::Other => st,
        XmlEventView::Malformed => ScanView { stopped: true, ..st },
    }
}

/// One event after the other, until the manifest turns out not to be understood.
pub open spec fn scan(st: ScanView, manifest: Seq<char>, steps: Seq<XmlStepView>) -> ScanView
    decreases steps.len(),
{
    if st.stopped || steps.len() == 0 {
        st
    } else {
        scan(scan_step(st, manifest, steps[0]), manifest, steps.drop_first())
    }
}

/// The manifest after the last event: rewritten, or unchanged if it was not
/// understood.
pub open spec fn scanned(st: ScanView, manifest: Seq<char>) -> Seq<char> {
    if st.stopped {
        manifest
    } else {
        st.out + manifest.skip(st.copied)
    }
}

/// Where the reading of a manifest stands; the mappings are kept beside it.
struct Scan {
    out: Vec<char>,
    copied: usize,
    base_url: Option<String>,
    capturing: bool,
    set: SetScratch,
}

impl Scan {
    spec fn state(self, numbers: NumbersView, stopped: bool) -> ScanView {
        ScanView {
            out: self.out@,
            copied: self.copied as int,
            base_url: text::opt_text(self.base_url),
            capturing: self.capturing,
            set: self.set@,
            numbers,
            stopped,
        }
    }

    fn tag(
        &mut self,
        start: u64,
        empty: bool,
        name: &String,
        attrs: &Vec<XmlAttr>,
        Ghost(numbers): Ghost<NumbersView>,
    )
        ensures
            final(self).state(numbers, false) == scan_tag(
                old(self).state(numbers, false),
                start,
                empty,
                name@,
                xml::attr_views(attrs@),
            ),
            final(self).copied == old(self).copied,
    {
        let name = name.as_str();
        if same_text(name, "BaseURL") {
            self.capturing = self.base_url.is_none() && !empty;
        } else if !empty && same_text(name, "AdaptationSet") {
            self.set = SetScratch::blank(audio_attrs(attrs));
        } else if !self.set.is_audio {
        } else if !empty && same_text(name, "SegmentTemplate") {
            self.set.template_span = Some((start, 0));
            self.set.timescale = find_number(attrs, "timescale");
            self.set.media_raw = match find_attr(attrs, "media") {
                Some(a) => a.unescaped.clone(),
                None => None,
            };
            self.set.init_raw = match find_attr(attrs, "initialization") {
                Some(a) => Some(a.raw.clone()),
                None => None,
            };
        } else if same_text(name, "S") {
            match find_number(attrs, "d") {
                Some(d) => {
                    self.set.s_entries.push((find_number(attrs, "t"), d));
                },
                None => {},
            }
        } else if same_text(name, "Representation") {
            match find_attr(attrs, "id") {
                Some(a) => {
                    let ghost before = texts(self.set.rep_ids@);
                    self.set.rep_ids.push(a.raw.clone());
                    assert(texts(self.set.rep_ids@) =~= before.push(a.raw@));
                },
                None => {},
            }
        }
    }

    fn set_end(&mut self, manifest: &[char], mappings: &mut NumberMappings) -> (stopped: bool)
        requires
            old(self).copied <= manifest@.len(),
        ensures
            final(self).state(final(mappings)@, stopped) == scan_set_end(
                old(self).state(old(mappings)@, false),
                manifest@,
            ),
            final(self).copied <= manifest@.len(),
    {
        let mut stopped = false;
        if self.set.is_audio {
            match build_number_template(&self.set, &self.base_url, mappings) {
                Some(template) => {
                    let span = match self.set.template_span {
                        Some(span) => span,
                        None => (0, 0),
                    };
                    match (char_index(manifest, span.0), char_index(manifest, span.1)) {
                        (Some(i), Some(j)) => {
                            if self.copied <= i && i <= j {
                                let ghost before = self.out@;
                                push_chars(
                                    &mut self.out,
                                    vstd::slice::slice_subrange(manifest, self.copied, i),
                                );
                                push_text(&mut self.out, template.as_str());
                                self.copied = j;
                            } else {
                                stopped = true;
                            }
                        },
                        _ => {
                            stopped = true;
                        },
                    }
                },
                None => {},
            }
        }
        self.set = SetScratch::blank(false);
        stopped
    }

    fn end(
        &mut self,
        manifest: &[char],
        end: u64,
        name: &String,
        mappings: &mut NumberMappings,
    ) -> (stopped: bool)
        requires
            old(self).copied <= manifest@.len(),
        ensures
            final(self).state(final(mappings)@, stopped) == scan_end(
                old(self).state(old(mappings)@, false),
                manifest@,
                end,
                name@,
            ),
            final(self).copied <= manifest@.len(),
    {
        if self.set.is_audio && same_text(name.as_str(), "SegmentTemplate") {
            match self.set.template_span {
                Some(span) => {
                    self.set.template_span = Some((span.0, end));
                },
                None => {},
            }
            false
        } else if same_text(name.as_str(), "AdaptationSet") {
            self.set_end(manifest, mappings)
        } else {
            false
        }
    }

    fn text(&mut self, content: &Option<String>, Ghost(numbers): Ghost<NumbersView>)
        ensures
            final(self).state(numbers, false) == scan_text(
                old(self).state(numbers, false),
                text::opt_text(*content),
            ),
            final(self).copied == old(self).copied,
    {
        if self.capturing {
            self.capturing = false;
            match content {
                Some(s) => {
                    let all = chars_of(s.as_str());
                    let inner = trim(all.as_slice());
                    if inner.len() > 0 {
                        self.base_url = Some(text_of(inner));
                    }
                },
                None => {},
            }
        }
    }
}

/// Finds the first attribute with a key.
fn find_attr<'a>(attrs: &'a Vec<XmlAttr>, key: &str) -> (r: Option<&'a XmlAttr>)
    ensures
        match r {
            Some(a) => attr_of(xml::attr_views(attrs@), key@) == Some(a@),
            None => attr_of(xml::attr_views(attrs@), key@) is None,
        },
{
    let ghost views = xml::attr_views(attrs@);
    let mut i: usize = 0;
    assert(views.skip(0) =~= views);
    while i < attrs.len()
        invariant
            i <= attrs@.len(),
            views == xml::attr_views(attrs@),
            attr_of(views.skip(i as int), key@) == attr_of(views, key@),
        decreases attrs@.len() - i,
    {
        assert(views.skip(i as int)[0] == attrs@[i as int]@);
        assert(views.skip(i as int).drop_first() =~= views.skip(i + 1));
        if same_text(attrs[i].key.as_str(), key) {
            return Some(&attrs[i]);
        }
        i += 1;
    }
    None
}

/// Reads the number that an attribute writes.
fn find_number(attrs: &Vec<XmlAttr>, key: &str) -> (r: Option<u64>)
    ensures
        r == attr_number(xml::attr_views(attrs@), key@),
{
    match find_attr(attrs, key) {
        Some(a) => {
            let raw = chars_of(a.raw.as_str());
            parse_u64(raw.as_slice())
        },
        None => None,
    }
}

fn audio_attrs(attrs: &Vec<XmlAttr>) -> (r: bool)
    ensures
        r == is_audio_set(xml::attr_views(attrs@)),
{
    let by_content: bool = match find_attr(attrs, "contentType") {
        Some(a) => {
            let raw = chars_of(a.raw.as_str());
            let low = to_lower(raw.as_slice());
            let low = text_of(low.as_slice());
            same_text(low.as_str(), "audio")
        },
        None => false,
    };
    let by_mime: bool = match find_attr(attrs, "mimeType") {
        Some(a) => {
            let raw = chars_of(a.raw.as_str());
            has_prefix(raw.as_slice(), "audio/")
        },
        None => false,
    };
    by_content || by_mime
}

/// Rewrites the audio templates of a manifest whose events have been read: segments
/// addressed by time are addressed by number, where the timeline of a set is one
/// run of equal segments. A manifest that is not understood comes back unchanged.
pub fn rewrite_audio_templates(
    mpd_abs: &str,
    steps: &Vec<XmlStep>,
    mappings: &mut NumberMappings,
) -> (r: String)
    ensures
        ({
            let st = scan(scan_start(old(mappings)@), mpd_abs@, xml::step_views(steps@));
            &&& r@ == scanned(st, mpd_abs@)
            &&& final(mappings)@ == st.numbers
        }),
{
    let manifest = chars_of(mpd_abs);
    let mut sc = Scan {
        out: Vec::new(),
        copied: 0,
        base_url: None,
        capturing: false,
        set: SetScratch::blank(false),
    };
    let ghost views = xml::step_views(steps@);
    let ghost goal = scan(scan_start(old(mappings)@), mpd_abs@, views);
    let mut i: usize = 0;
    assert(views.skip(0) =~= views);
    assert(sc.state(mappings@, false) == scan_start(mappings@)) by {
        assert(sc.out@ =~= Seq::empty());
    }
    while i < steps.len()
        invariant
            i <= steps@.len(),
            manifest@ == mpd_abs@,
            sc.copied <= manifest@.len(),
            views == xml::step_views(steps@),
            goal == scan(scan_start(old(mappings)@), mpd_abs@, xml::step_views(steps@)),
            scan(sc.state(mappings@, false), mpd_abs@, views.skip(i as int)) == goal,
        decreases steps@.len() - i,
    {
        assert(views.skip(i as int)[0] == steps@[i as int]@);
        assert(views.skip(i as int).drop_first() =~= views.skip(i + 1));
        let step = &steps[i];
        let mut stopped: bool = false;
        let ghost before = sc.state(mappings@, false);
        match &step.event {
            XmlEvent::Tag { empty, name, attrs } => {
                sc.tag(step.start, *empty, name, attrs, Ghost(mappings@));
            },
            XmlEvent::End(name) => {
                stopped = sc.end(manifest.as_slice(), step.end, name, mappings);
            },
            XmlEvent::Text(content) => {
                sc.text(content, Ghost(mappings@));
            },
            XmlEvent::Other => {},
            XmlEvent::Malformed => {
                stopped = true;
            },
        }
        assert(sc.state(mappings@, stopped) == scan_step(before, mpd_abs@, step@));
        if stopped {
            proof {
                let after = sc.state(mappings@, true);
                assert(scan(before, mpd_abs@, views.skip(i as int)) == scan(
                    after,
                    mpd_abs@,
                    views.skip(i + 1),
                ));
                assert(scan(after, mpd_abs@, views.skip(i + 1)) == after);
                assert(goal == after);
            }
            return mpd_abs.to_owned();
        }
        i += 1;
    }
    push_chars(&mut sc.out, behind(manifest.as_slice(), sc.copied));
    text_of(sc.out.as_slice())
}

/// Rewrites the audio templates of a manifest, as `rewrite_audio_templates` does on
/// the events read from it.
pub fn derive_and_rewrite_audio_number_mappings(
    mpd_abs: &str,
    mappings: &mut NumberMappings,
) -> (r: String)
    ensures
        ({
            let st = scan(scan_start(old(mappings)@), mpd_abs@, xml::document_events(mpd_abs@));
            &&& r@ == scanned(st, mpd_abs@)
            &&& final(mappings)@ == st.numbers
        }),
{
    let steps = read_document(mpd_abs);
    rewrite_audio_templates(mpd_abs, &steps, mappings)
}

// ---------------------------------------------------------------------------
// From a number back to a path
// ---------------------------------------------------------------------------

/// The path that `repid/number` stands for, if the representation is mapped and the
/// time of the segment fits.
pub open spec fn numbered_path(rest: Seq<char>, st: NumbersView) -> Option<Seq<char>> {
    match text::find_char(rest, '/') {
        None => None,
        Some(i) => {
            let repid = rest.take(i);
            match text::u64_value(rest.skip(i + 1)) {
                None => None,
                Some(n) => if st.map.contains_key(repid) && st.map[repid].time_of(n as int)
                    <= u64::MAX {
                    Some(
                        text::replace_first(
                            st.map[repid].url_of(repid, n as int),
                            "://"@,
                            "/"@,
                        ),
                    )
                } else {
                    None
                },
            }
        },
    }
}

/// Turns `repid/number` back into a path with scheme and host.
pub fn number_route_to_cdn_path(rest: &str, mappings: &NumberMappings) -> (r: Option<String>)
    ensures
        text::opt_text(r) == numbered_path(rest@, mappings@),
{
    let all = chars_of(rest);
    assert(all.len() == all@.len());
    let i = match find_one(all.as_slice(), '/') {
        Some(i) => i,
        None => return None,
    };
    let repid = text_of(front(all.as_slice(), i));
    let number: u64 = match parse_u64(behind(all.as_slice(), i + 1)) {
        Some(n) => n,
        None => return None,
    };
    match mappings.get(repid.as_str()) {
        None => None,
        Some(m) => {
            let steps: u64 = if number > 1 {
                number - 1
            } else {
                0
            };
            assert(steps as u128 * m.duration as u128 <= u64::MAX as u128 * u64::MAX as u128)
                by (nonlinear_arith)
                requires
                    steps <= u64::MAX,
                    m.duration <= u64::MAX,
            ;
            let t: u128 = m.epoch_t as u128 + steps as u128 * m.duration as u128;
            if t > u64::MAX as u128 {
                return None;
            }
            let url = m.resolve_url(repid.as_str(), number);
            let url = chars_of(url.as_str());
            let path = replace_once(url.as_slice(), "://", "/");
            Some(text_of(path.as_slice()))
        },
    }
}

} // verus!
