//! What a request asks for, and what is done with the samples of a segment.

use crate::drm_startup;
use crate::fmp4::boxes;
use crate::fmp4::boxes::MDAT;
use crate::fmp4::init::InitView;
use crate::fmp4::media;
use crate::fmp4::media::SampleView;
use crate::fmp4::Fmp4Error;
use crate::mpd_laws;
use crate::numbers;
use crate::numbers::NumbersView;
use crate::proxy;
use crate::proxy_state;
use crate::proxy_state::{RouteView, SampleStepView};
use crate::segment_flow;
use crate::startup_laws;
use crate::text;
use crate::text_laws;
use vstd::prelude::*;

verus! {

// ---------------------------------------------------------------------------
// Requests
// ---------------------------------------------------------------------------

/// The path of a request line is what stands between the method and the version, whatever
/// ends the line.
pub proof fn request_line_names_its_path(
    method: Seq<char>,
    path: Seq<char>,
    version: Seq<char>,
    end: Seq<char>,
)
    requires
        method.len() > 0,
        !text::is_white(method[0]),
        text_laws::apart_from(' ', method),
        text_laws::apart_from(' ', path),
        version.len() > 0,
        !text::is_white(version.last()),
        mpd_laws::is_blank(end),
    ensures
        proxy_state::requested(method + " "@ + path + " "@ + version + end) == Some(path),
{
    reveal_strlit(" ");
    let s = method + " "@ + path + " "@ + version;
    let none = Seq::<char>::empty();
    assert(s[0] == method[0]);
    assert(s.last() == version.last());
    mpd_laws::blanks_are_cut_off(none, s, end);
    assert(none + s + end =~= s + end);
    let i = method.len() as int;
    assert(s[i] == ' ');
    assert forall|j: int| 0 <= j < i implies s[j] != ' ' by {
        assert(s[j] == method[j]);
    }
    text_laws::find_char_at(s, ' ', i);
    let rest = s.skip(i + 1);
    assert(rest =~= path + " "@ + version);
    let k = path.len() as int;
    assert(rest[k] == ' ');
    assert forall|j: int| 0 <= j < k implies rest[j] != ' ' by {
        assert(rest[j] == path[j]);
    }
    text_laws::find_char_at(rest, ' ', k);
    assert(rest.take(k) =~= path);
}

/// A line of one word asks for nothing.
pub proof fn one_word_asks_for_nothing(w: Seq<char>, word: Seq<char>, v: Seq<char>)
    requires
        mpd_laws::is_blank(w),
        mpd_laws::is_blank(v),
        text_laws::apart_from(' ', word),
        word.len() > 0 ==> !text::is_white(word[0]) && !text::is_white(word.last()),
    ensures
        proxy_state::requested(w + word + v) is None,
{
    mpd_laws::blanks_are_cut_off(w, word, v);
    text::find_is_first(word, seq![' '], 0);
    if let Some(i) = text::find_char(word, ' ') {
        assert(word.subrange(i, i + 1)[0] == ' ');
    }
}

/// The manifest is asked for by its path, with or without a query, and by no longer path.
pub proof fn manifest_is_asked_for(q: Seq<char>, st: NumbersView)
    ensures
        proxy_state::route_of("/manifest.mpd"@, st) is Manifest,
        proxy_state::route_of("/manifest.mpd?"@ + q, st) is Manifest,
        q.len() > 0 && q[0] != '?' ==> proxy_state::route_of("/manifest.mpd"@ + q, st) is NotFound,
{
    reveal_strlit("/manifest.mpd");
    reveal_strlit("/manifest.mpd?");
    reveal_strlit("/cdnnum/");
    reveal_strlit("/cdn/");
    let p = "/manifest.mpd?"@ + q;
    assert(p.take(14) =~= "/manifest.mpd?"@);
    let r = "/manifest.mpd"@ + q;
    assert(r[1] == 'm');
    if q.len() > 0 && q[0] != '?' {
        assert(r[13] == q[0]);
        assert(r.len() > 13);
        if text::starts_with(r, "/manifest.mpd?"@) {
            assert(r.take(14)[13] == '?');
        }
        if text::starts_with(r, "/cdnnum/"@) {
            assert(r.take(8)[1] == 'c');
        }
        if text::starts_with(r, "/cdn/"@) {
            assert(r.take(5)[1] == 'c');
        }
    }
}

/// What is neither the manifest nor a segment is not found: a path with another first
/// letter, and a numbered segment of a representation that is not known.
pub proof fn other_paths_are_not_found(path: Seq<char>, rest: Seq<char>, st: NumbersView)
    ensures
        path.len() < 2 || path[0] != '/' || path[1] != 'm' && path[1] != 'c'
            ==> proxy_state::route_of(path, st) is NotFound,
        numbers::numbered_path(rest, st) is None ==> proxy_state::route_of(
            "/cdnnum/"@ + rest,
            st,
        ) is NotFound,
{
    reveal_strlit("/manifest.mpd");
    reveal_strlit("/manifest.mpd?");
    reveal_strlit("/cdnnum/");
    reveal_strlit("/cdn/");
    if path.len() < 2 || path[0] != '/' || path[1] != 'm' && path[1] != 'c' {
        if text::starts_with(path, "/manifest.mpd?"@) {
            assert(path.take(14)[0] == '/' && path.take(14)[1] == 'm');
        }
        if path == "/manifest.mpd"@ {
            assert(path[0] == '/' && path[1] == 'm');
        }
        if text::starts_with(path, "/cdnnum/"@) {
            assert(path.take(8)[0] == '/' && path.take(8)[1] == 'c');
        }
        if text::starts_with(path, "/cdn/"@) {
            assert(path.take(5)[0] == '/' && path.take(5)[1] == 'c');
        }
    }
    let p = "/cdnnum/"@ + rest;
    assert(p[1] == 'c' && p[4] == 'n');
    assert(p.skip(8) =~= rest);
    if text::starts_with(p, "/manifest.mpd?"@) {
        assert(p.take(14)[1] == 'm');
    }
    if p == "/manifest.mpd"@ {
        assert(p[1] == 'm');
    }
    if text::starts_with(p, "/cdn/"@) {
        assert(p.take(5)[4] == '/');
    }
}

/// A numbered path needs a representation that is known, and a number.
pub proof fn numbered_path_needs_its_parts(repid: Seq<char>, tail: Seq<char>, st: NumbersView)
    requires
        text_laws::apart_from('/', repid),
    ensures
        !st.map.contains_key(repid) ==> numbers::numbered_path(repid + "/"@ + tail, st) is None,
        text::u64_value(tail) is None ==> numbers::numbered_path(repid + "/"@ + tail, st) is None,
        numbers::numbered_path(repid, st) is None,
{
    reveal_strlit("/");
    let s = repid + "/"@ + tail;
    let i = repid.len() as int;
    assert(s[i] == '/');
    assert forall|j: int| 0 <= j < i implies s[j] != '/' by {
        assert(s[j] == repid[j]);
    }
    text_laws::find_char_at(s, '/', i);
    assert(s.take(i) =~= repid);
    assert(s.skip(i + 1) =~= tail);
    text::find_is_first(repid, seq!['/'], 0);
    if let Some(k) = text::find_char(repid, '/') {
        assert(repid.subrange(k, k + 1)[0] == '/');
    }
}

// ---------------------------------------------------------------------------
// Samples
// ---------------------------------------------------------------------------

/// The data of steps, one behind the other.
pub open spec fn data_of(steps: Seq<SampleStepView>) -> Seq<u8>
    decreases steps.len(),
{
    if steps.len() == 0 {
        Seq::empty()
    } else {
        data_of(steps.drop_last()) + steps.last().data
    }
}

/// The samples that are decrypted are the data box cut into pieces, one behind the other from
/// its start on: nothing is left out and nothing is taken twice.
pub proof fn samples_are_cut_from_the_data(s: Seq<u8>, iv_size: int, steps: Seq<SampleStepView>)
    requires
        proxy_state::planned(s, iv_size) == Ok::<Seq<SampleStepView>, Option<Fmp4Error>>(steps),
    ensures
        boxes::child(s, MDAT@) is Some,
        ({
            let mdat = (boxes::child(s, MDAT@)->0).payload;
            &&& data_of(steps).len() <= mdat.len()
            &&& data_of(steps) == mdat.take(data_of(steps).len() as int)
        }),
{
    let samples = media::media_samples(s, iv_size)->Ok_0;
    let mdat = (boxes::child(s, MDAT@)->0).payload;
    assert forall|i: int| 0 <= i < samples.len() implies (#[trigger] samples[i]).mdat_offset
        + samples[i].size <= mdat.len() && samples[i].size >= 0 && samples[i].mdat_offset == (if i
        == 0 {
        0
    } else {
        samples[i - 1].mdat_offset + samples[i - 1].size
    }) by {
        samples_touch(s, iv_size, i);
    }
    pieces_join(mdat, samples, samples.len() as int);
    assert(samples.take(samples.len() as int) =~= samples);
}

/// Each sample starts where the one before it ends.
proof fn samples_touch(s: Seq<u8>, iv_size: int, i: int)
    requires
        media::media_samples(s, iv_size) is Ok,
        0 <= i < (media::media_samples(s, iv_size)->Ok_0).len(),
    ensures
        ({
            let samples = media::media_samples(s, iv_size)->Ok_0;
            &&& samples[i].size >= 0
            &&& samples[i].mdat_offset == if i == 0 {
                0
            } else {
                samples[i - 1].mdat_offset + samples[i - 1].size
            }
        }),
{
    let moof = boxes::child(s, boxes::MOOF@)->0;
    let traf = (boxes::child(moof.payload, boxes::TRAF@)->0).payload;
    let trun = (boxes::child(traf, boxes::TRUN@)->0).payload;
    let sizes = media::trun_sizes(trun)->Ok_0;
    if i > 0 {
        assert(sizes.take(i).drop_last() =~= sizes.take(i - 1));
        assert(sizes.take(i).last() == sizes[i - 1]);
    } else {
        assert(sizes.take(0) =~= Seq::empty());
    }
}

#[verifier::rlimit(80)]
#[verifier::spinoff_prover]
proof fn pieces_join(mdat: Seq<u8>, samples: Seq<SampleView>, n: int)
    requires
        0 <= n <= samples.len(),
        forall|i: int|
            0 <= i < samples.len() ==> (#[trigger] samples[i]).mdat_offset + samples[i].size
                <= mdat.len() && samples[i].size >= 0 && samples[i].mdat_offset == (if i == 0 {
                0
            } else {
                samples[i - 1].mdat_offset + samples[i - 1].size
            }),
    ensures
        ({
            let steps = samples.take(n).map_values(
                |x: SampleView| proxy_state::step_of(mdat, x),
            );
            let end = if n == 0 {
                0
            } else {
                samples[n - 1].mdat_offset + samples[n - 1].size
            };
            0 <= end <= mdat.len() && data_of(steps) == mdat.take(end)
        }),
    decreases n,
{
    let steps = samples.take(n).map_values(|x: SampleView| proxy_state::step_of(mdat, x));
    if n == 0 {
        assert(data_of(steps) =~= mdat.take(0));
    } else {
        pieces_join(mdat, samples, n - 1);
        let x = samples[n - 1];
        let from = x.mdat_offset;
        let to = from + x.size;
        let before = samples.take(n - 1).map_values(
            |x: SampleView| proxy_state::step_of(mdat, x),
        );
        assert(samples[n - 1].size >= 0 && to <= mdat.len());
        assert(steps.drop_last() =~= before);
        assert(steps.last() == proxy_state::step_of(mdat, x));
        assert(data_of(steps) == data_of(before) + mdat.subrange(from, to));
        assert(data_of(before) == mdat.take(from));
        assert(mdat.take(from) + mdat.subrange(from, to) =~= mdat.take(to));
    }
}

// ---------------------------------------------------------------------------
// File names
// ---------------------------------------------------------------------------

/// A number in five digits is read back, and has at least five of them.
pub proof fn five_digits_read_back(n: nat)
    ensures
        segment_flow::five_digits(n).len() >= 5,
        n < 100000 ==> segment_flow::five_digits(n).len() == 5,
        text::all_digits(segment_flow::five_digits(n)),
        text::dec_value(segment_flow::five_digits(n)) == n,
{
    let d = text::decimal(n);
    let s = segment_flow::five_digits(n);
    text::decimal_reads_back(n);
    let k = s.len() - d.len();
    let zeros = Seq::new(k as nat, |i: int| '0');
    assert(s =~= zeros + d);
    assert forall|i: int| 0 <= i < s.len() implies text::is_digit(#[trigger] s[i]) by {
        if i >= k {
            assert(s[i] == d[i - k]);
        }
    }
    leading_zeros(k as nat, d);
    digits_needed(n);
}

proof fn leading_zeros(k: nat, d: Seq<char>)
    ensures
        text::dec_value(Seq::new(k, |i: int| '0') + d) == text::dec_value(d),
    decreases k + d.len(),
{
    let zeros = Seq::new(k, |i: int| '0');
    let s = zeros + d;
    if d.len() > 0 {
        leading_zeros(k, d.drop_last());
        assert(s.drop_last() =~= zeros + d.drop_last());
        assert(s.last() == d.last());
    } else if k > 0 {
        let fewer = Seq::new((k - 1) as nat, |i: int| '0');
        leading_zeros((k - 1) as nat, d);
        assert(s.drop_last() =~= fewer + d);
        assert(s.last() == '0');
    } else {
        assert(s =~= d);
    }
}

proof fn digits_needed(n: nat)
    ensures
        n < 10 ==> text::decimal(n).len() == 1,
        10 <= n < 100 ==> text::decimal(n).len() == 2,
        100 <= n < 1000 ==> text::decimal(n).len() == 3,
        1000 <= n < 10000 ==> text::decimal(n).len() == 4,
        10000 <= n < 100000 ==> text::decimal(n).len() == 5,
        n >= 10000 ==> text::decimal(n).len() >= 5,
    decreases n,
{
    if n >= 10 {
        digits_needed(n / 10);
    }
}

/// The last part of a path is what stands behind its last slash.
pub proof fn last_part_stands_behind_the_slash(dir: Seq<char>, file: Seq<char>)
    requires
        text_laws::apart_from('/', file),
    ensures
        segment_flow::last_part(dir + "/"@ + file) == file,
{
    reveal_strlit("/");
    let s = dir + "/"@ + file;
    let n = dir.len() as int;
    assert(s[n] == '/');
    assert forall|j: int| n < j < s.len() implies s[j] != '/' by {
        assert(s[j] == file[j - n - 1]);
    }
    text_laws::rfind_char_at(s, '/', n);
    assert(s.skip(n + 1) =~= file);
}

// ---------------------------------------------------------------------------
// Keys and hosts
// ---------------------------------------------------------------------------

/// A segment is decrypted as its init segment says, and by the manifest's scheme alone where
/// there is none.
pub proof fn init_segment_decides_on_the_key(info: InitView, scheme: u32, other: u32)
    ensures
        proxy_state::key_of(Some(info), scheme) == proxy_state::key_of(Some(info), other),
        proxy_state::key_of(Some(info), scheme).key_id == info.default_kid,
        proxy_state::key_of(Some(info), scheme).iv_size == info.default_iv_size,
        proxy_state::key_of(Some(info), scheme).scheme == info.encryption_scheme,
        proxy_state::key_of(None, scheme).scheme == scheme,
        proxy_state::key_of(None, scheme).iv_size == 8,
        proxy_state::key_of(None, scheme).key_id == seq![0u8; 16],
{
    assert(proxy_state::key_of(None, scheme).key_id =~= seq![0u8; 16]);
}

/// Hosts are compared without regard to case, schemes and hosts both count, and a URL without
/// a host has none.
pub proof fn hosts_are_compared_in_lower_case(
    scheme: Seq<char>,
    host: Seq<char>,
    other: Seq<char>,
)
    requires
        text::lower(host) == text::lower(other),
    ensures
        proxy::scheme_host(Some((scheme, Some(host)))) == proxy::scheme_host(
            Some((scheme, Some(other))),
        ),
        proxy::scheme_host(Some((scheme, Some(host)))) == Some(
            scheme + "://"@ + text::lower(host),
        ),
        proxy::scheme_host(Some((scheme, None))) is None,
        proxy::scheme_host(None) is None,
{
}

/// The decode time is read as a signed number.
pub proof fn decode_time_has_a_sign(n: int)
    requires
        -0x8000_0000_0000_0000 <= n < 0x8000_0000_0000_0000,
    ensures
        proxy_state::signed(n % 0x1_0000_0000_0000_0000) == n,
{
}

/// What a sample is decrypted with is what the segment says of that sample.
#[verifier::rlimit(80)]
#[verifier::spinoff_prover]
pub proof fn steps_belong_to_their_samples(
    s: Seq<u8>,
    iv_size: int,
    steps: Seq<SampleStepView>,
    i: int,
)
    requires
        proxy_state::planned(s, iv_size) == Ok::<Seq<SampleStepView>, Option<Fmp4Error>>(steps),
        0 <= i < steps.len(),
    ensures
        ({
            let samples = media::media_samples(s, iv_size)->Ok_0;
            &&& steps.len() == samples.len()
            &&& steps[i].enc == samples[i].enc
            &&& steps[i].data.len() == samples[i].size
            &&& steps[i].time % 0x1_0000_0000_0000_0000 == samples[i].decode_time
                % 0x1_0000_0000_0000_0000
        }),
{
    samples_touch(s, iv_size, i);
    offset_is_not_negative(s, iv_size, i);
    let samples = media::media_samples(s, iv_size)->Ok_0;
    let mdat = (boxes::child(s, MDAT@)->0).payload;
    step_of_a_sample(mdat, samples, steps, i);
}

proof fn step_of_a_sample(
    mdat: Seq<u8>,
    samples: Seq<SampleView>,
    steps: Seq<SampleStepView>,
    i: int,
)
    requires
        0 <= i < samples.len(),
        proxy_state::all_inside(samples, mdat),
        steps == samples.map_values(|x: SampleView| proxy_state::step_of(mdat, x)),
        samples[i].mdat_offset >= 0,
        samples[i].size >= 0,
    ensures
        steps.len() == samples.len(),
        steps[i].enc == samples[i].enc,
        steps[i].data.len() == samples[i].size,
        steps[i].time % 0x1_0000_0000_0000_0000 == samples[i].decode_time
            % 0x1_0000_0000_0000_0000,
{
    let x = samples[i];
    assert(steps[i] == proxy_state::step_of(mdat, x));
    assert(x.mdat_offset + x.size <= mdat.len());
    let t = x.decode_time;
    assert((t - 0x1_0000_0000_0000_0000) % 0x1_0000_0000_0000_0000 == t % 0x1_0000_0000_0000_0000);
}

proof fn offset_is_not_negative(s: Seq<u8>, iv_size: int, i: int)
    requires
        media::media_samples(s, iv_size) is Ok,
        0 <= i < (media::media_samples(s, iv_size)->Ok_0).len(),
    ensures
        (media::media_samples(s, iv_size)->Ok_0)[i].mdat_offset >= 0,
    decreases i,
{
    samples_touch(s, iv_size, i);
    if i > 0 {
        offset_is_not_negative(s, iv_size, i - 1);
        samples_touch(s, iv_size, i - 1);
    }
}

/// A segment is decrypted exactly where its samples lie in its data, that is where the last of
/// them ends within it; and one that cannot be read is refused with the reason.
pub proof fn samples_must_lie_in_the_data(s: Seq<u8>, iv_size: int)
    ensures
        media::media_samples(s, iv_size) matches Err(e) ==> proxy_state::planned(s, iv_size)
            == Err::<Seq<SampleStepView>, Option<Fmp4Error>>(Some(e)),
        media::media_samples(s, iv_size) matches Ok(samples) ==> {
            let mdat = (boxes::child(s, MDAT@)->0).payload;
            let fits = samples.len() == 0 || samples.last().mdat_offset + samples.last().size
                <= mdat.len();
            &&& proxy_state::planned(s, iv_size) is Ok <==> fits
            &&& !fits ==> proxy_state::planned(s, iv_size) == Err::<
                Seq<SampleStepView>,
                Option<Fmp4Error>,
            >(None)
        },
{
    if let Ok(samples) = media::media_samples(s, iv_size) {
        let mdat = (boxes::child(s, MDAT@)->0).payload;
        if samples.len() > 0 {
            let last = samples.len() - 1;
            if samples.last().mdat_offset + samples.last().size <= mdat.len() {
                assert forall|i: int| 0 <= i < samples.len() implies (
                #[trigger] samples[i]).mdat_offset + samples[i].size <= mdat.len() by {
                    ends_grow(s, iv_size, i, last as int);
                }
            } else {
                assert(samples[last as int] == samples.last());
            }
        }
    }
}

proof fn ends_grow(s: Seq<u8>, iv_size: int, i: int, j: int)
    requires
        media::media_samples(s, iv_size) is Ok,
        0 <= i <= j < (media::media_samples(s, iv_size)->Ok_0).len(),
    ensures
        ({
            let samples = media::media_samples(s, iv_size)->Ok_0;
            samples[i].mdat_offset + samples[i].size <= samples[j].mdat_offset + samples[j].size
        }),
    decreases j - i,
{
    if i < j {
        ends_grow(s, iv_size, i, j - 1);
        samples_touch(s, iv_size, j);
    }
}

/// The head of a response tells the length of the body that follows it, and ends in an empty
/// line.
#[verifier::rlimit(80)]
#[verifier::spinoff_prover]
pub proof fn response_tells_the_length_of_its_body(
    status: Seq<char>,
    content_type: Seq<char>,
    n: u64,
)
    requires
        !text::contains(
            "HTTP/1.1 "@ + status + "\r\nContent-Type: "@ + content_type + "\r\n"@,
            "Content-Length: "@,
        ),
    ensures
        ({
            let head = proxy_state::response_head(status, content_type, n as nat);
            &&& drm_startup::between(head, "Content-Length: "@, "\r\n"@) matches Some(told)
                && text::u64_value(told) == Some(n)
            &&& text::ends_with(head, "\r\n\r\n"@)
            &&& text::starts_with(head, "HTTP/1.1 "@ + status + "\r\n"@)
        }),
{
    reveal_strlit("HTTP/1.1 ");
    reveal_strlit("\r\nContent-Type: ");
    reveal_strlit("\r\nContent-Length: ");
    reveal_strlit("Content-Length: ");
    reveal_strlit("\r\nConnection: keep-alive\r\n\r\n");
    reveal_strlit("\r\n");
    reveal_strlit("\r\n\r\n");
    let head = proxy_state::response_head(status, content_type, n as nat);
    let a = "HTTP/1.1 "@ + status + "\r\nContent-Type: "@ + content_type + "\r\n"@;
    let digits = text::decimal(n as nat);
    let open = "Content-Length: "@;
    let tail = "\r\nConnection: keep-alive\r\n\r\n"@;
    let rest = tail.skip(2);
    assert("\r\nContent-Length: "@ =~= "\r\n"@ + open);
    assert(tail =~= "\r\n"@ + rest);
    assert(head =~= a + open + digits + "\r\n"@ + rest);
    text::decimal_reads_back(n as nat);
    assert forall|k: int| 0 <= k < digits.len() implies digits[k] != '\r' by {
        assert(text::is_digit(digits[k]));
    }
    assert(a.last() == '\n');
    startup_laws::first_value_is_read(head, a, open, digits, "\r\n"@, rest);
    assert(head.skip(head.len() - 4) =~= "\r\n\r\n"@);
    let first = "HTTP/1.1 "@ + status + "\r\n"@;
    assert(head.take(first.len() as int) =~= first);
}

} // verus!
