//! Widevine initialisation data and license responses.

use crate::bytes;
use crate::bytes::{push_be32, push_bytes, read_be32};
use crate::fmp4::boxes;
use crate::fmp4::boxes::{push_iso_box, MOOV, PSSH, WV_SYSTEM_ID};
use crate::fmp4::init;
use crate::fmp4::laws;
use crate::text;
use crate::text::{
    behind, chars_of, find_one, find_text, front, has_suffix, has_text, text_of, to_lower, trim,
};
use base64::engine::general_purpose::{STANDARD, URL_SAFE_NO_PAD};
use base64::engine::Engine;
use vstd::prelude::*;

verus! {

/// The bytes of a vector that may be missing.
pub open spec fn opt_bytes(v: Option<Vec<u8>>) -> Option<Seq<u8>> {
    match v {
        Some(v) => Some(v@),
        None => None,
    }
}

// ---------------------------------------------------------------------------
// Base64
// ---------------------------------------------------------------------------

/// The bytes that a text encodes in the standard alphabet, with padding.
pub uninterp spec fn base64_standard(s: Seq<char>) -> Option<Seq<u8>>;

/// The bytes that a text encodes in the URL-safe alphabet, without padding.
pub uninterp spec fn base64_url_safe(s: Seq<char>) -> Option<Seq<u8>>;

/// `Engine::decode` of the engine `STANDARD` gives the bytes that a text encodes in the
/// standard alphabet, with padding, and fails where it encodes none. What it gives depends on
/// the text alone.
#[verifier::external_body]
fn decode_standard(s: &str) -> (r: Option<Vec<u8>>)
    ensures
        opt_bytes(r) == base64_standard(s@),
{
    STANDARD.decode(s).ok()
}

/// `Engine::decode` of the engine `URL_SAFE_NO_PAD` gives the bytes that a text encodes in the
/// URL-safe alphabet, without padding, and fails where it encodes none. What it gives depends
/// on the text alone.
#[verifier::external_body]
fn decode_url_safe(s: &str) -> (r: Option<Vec<u8>>)
    ensures
        opt_bytes(r) == base64_url_safe(s@),
{
    URL_SAFE_NO_PAD.decode(s).ok()
}

/// The first of two results that is there.
pub open spec fn either(a: Option<Seq<u8>>, b: Option<Seq<u8>>) -> Option<Seq<u8>> {
    if a is Some {
        a
    } else {
        b
    }
}

/// The bytes that a text encodes: in the standard alphabet, or else in the URL-safe
/// one.
pub open spec fn base64_value(s: Seq<char>) -> Option<Seq<u8>> {
    either(base64_standard(s), base64_url_safe(s))
}

/// Decodes base64 of either kind.
pub fn decode_base64(s: &str) -> (r: Option<Vec<u8>>)
    ensures
        opt_bytes(r) == base64_value(s@),
{
    let r = decode_standard(s);
    if r.is_some() {
        r
    } else {
        decode_url_safe(s)
    }
}

// ---------------------------------------------------------------------------
// Key ids
// ---------------------------------------------------------------------------

/// Whether a character is a hexadecimal digit.
pub open spec fn is_hex(c: char) -> bool {
    ('0' <= c && c <= '9') || ('a' <= c && c <= 'f') || ('A' <= c && c <= 'F')
}

/// The value of a hexadecimal digit.
pub open spec fn hex_value(c: char) -> int {
    if '0' <= c && c <= '9' {
        c as int - '0' as int
    } else if 'a' <= c && c <= 'f' {
        c as int - 'a' as int + 10
    } else {
        c as int - 'A' as int + 10
    }
}

/// The hexadecimal digits of a text.
pub open spec fn hex_digits(s: Seq<char>) -> Seq<char>
    decreases s.len(),
{
    if s.len() == 0 {
        Seq::empty()
    } else if is_hex(s.last()) {
        hex_digits(s.drop_last()).push(s.last())
    } else {
        hex_digits(s.drop_last())
    }
}

/// The 16 bytes that a UUID writes with its 32 hexadecimal digits, whatever stands
/// between them.
pub open spec fn uuid_bytes(s: Seq<char>) -> Option<Seq<u8>> {
    let h = hex_digits(s);
    if h.len() != 32 {
        None
    } else {
        Some(Seq::new(16, |i: int| (hex_value(h[2 * i]) * 16 + hex_value(h[2 * i + 1])) as u8))
    }
}

fn hex_digit(c: char) -> (r: Option<u8>)
    ensures
        match r {
            Some(n) => is_hex(c) && n == hex_value(c) && n < 16,
            None => !is_hex(c),
        },
{
    if '0' <= c && c <= '9' {
        Some((c as u32 - '0' as u32) as u8)
    } else if 'a' <= c && c <= 'f' {
        Some((c as u32 - 'a' as u32 + 10) as u8)
    } else if 'A' <= c && c <= 'F' {
        Some((c as u32 - 'A' as u32 + 10) as u8)
    } else {
        None
    }
}

/// Reads a UUID such as `12345678-1234-1234-1234-123456789abc` into 16 bytes.
pub fn parse_uuid_to_bytes(uuid: &str) -> (r: Option<[u8; 16]>)
    ensures
        match r {
            Some(id) => uuid_bytes(uuid@) == Some(id@),
            None => uuid_bytes(uuid@) is None,
        },
{
    let all = chars_of(uuid);
    let mut values: Vec<u8> = Vec::new();
    let mut i: usize = 0;
    assert(all@.take(0) =~= Seq::empty());
    while i < all.len()
        invariant
            i <= all@.len(),
            all@ == uuid@,
            values@.len() == hex_digits(all@.take(i as int)).len(),
            forall|k: int|
                0 <= k < values@.len() ==> values@[k] < 16 && #[trigger] values@[k] == hex_value(
                    hex_digits(all@.take(i as int))[k],
                ),
        decreases all@.len() - i,
    {
        assert(all@.take(i + 1).drop_last() =~= all@.take(i as int));
        match hex_digit(all[i]) {
            Some(n) => values.push(n),
            None => {},
        }
        i += 1;
    }
    assert(all@.take(i as int) =~= uuid@);
    if values.len() != 32 {
        return None;
    }
    let mut id: [u8; 16] = [0; 16];
    let mut k: usize = 0;
    while k < 16
        invariant
            k <= 16,
            values@.len() == 32,
            hex_digits(uuid@).len() == 32,
            forall|j: int|
                0 <= j < 32 ==> values@[j] < 16 && #[trigger] values@[j] == hex_value(
                    hex_digits(uuid@)[j],
                ),
            forall|j: int| 0 <= j < k ==> id@[j] == uuid_bytes(uuid@)->0[j],
        decreases 16 - k,
    {
        let hi: u8 = values[2 * k];
        let lo: u8 = values[2 * k + 1];
        id[k] = hi * 16 + lo;
        k += 1;
    }
    assert(id@ =~= uuid_bytes(uuid@)->0);
    Some(id)
}

/// A Widevine header for one key id, a protobuf message: the algorithm, field 1, is
/// AES-CTR; the key id is field 2.
pub open spec fn widevine_header(kid: Seq<u8>) -> Seq<u8> {
    seq![0x08u8, 0x01, 0x12, 0x10] + kid
}

/// The payload of a version 0 Widevine `pssh` box for one key id: version and flags,
/// system id, size of the header, header.
pub open spec fn pssh_payload(kid: Seq<u8>) -> Seq<u8> {
    seq![0u8, 0, 0, 0] + WV_SYSTEM_ID@ + bytes::be32_bytes(20) + widevine_header(kid)
}

fn build_widevine_cenc_header(kid: &[u8; 16]) -> (r: Vec<u8>)
    ensures
        r@ == widevine_header(kid@),
        r@.len() == 20,
{
    let mut pb: Vec<u8> = Vec::new();
    pb.push(0x08);
    pb.push(0x01);
    pb.push(0x12);
    pb.push(0x10);
    push_bytes(&mut pb, kid.as_slice());
    assert(pb@ =~= widevine_header(kid@));
    pb
}

/// Builds a version 0 Widevine `pssh` box for one key id. Version 0 carries data,
/// which license servers ask for.
pub fn build_pssh_from_kid(kid: &[u8; 16]) -> (r: Vec<u8>)
    ensures
        r@ == boxes::iso_box(PSSH@, pssh_payload(kid@)),
        r@.len() == 52,
{
    let data = build_widevine_cenc_header(kid);
    let mut payload: Vec<u8> = Vec::new();
    payload.push(0);
    payload.push(0);
    payload.push(0);
    payload.push(0);
    push_bytes(&mut payload, WV_SYSTEM_ID.as_slice());
    push_be32(&mut payload, data.len() as u32);
    push_bytes(&mut payload, data.as_slice());
    assert(payload@ =~= pssh_payload(kid@));
    let mut out: Vec<u8> = Vec::new();
    push_iso_box(&mut out, &PSSH, payload.as_slice());
    assert(out@ =~= boxes::iso_box(PSSH@, pssh_payload(kid@)));
    out
}

/// The key id of a box that was built for it is that key id.
#[verifier::rlimit(80)]
#[verifier::spinoff_prover]
pub proof fn built_pssh_holds_its_key_id(kid: Seq<u8>)
    requires
        kid.len() == 16,
    ensures
        init::pssh_kid(pssh_payload(kid)) == Some(kid),
        boxes::child(boxes::iso_box(PSSH@, pssh_payload(kid)), PSSH@) is Some,
        (boxes::child(boxes::iso_box(PSSH@, pssh_payload(kid)), PSSH@)->0).payload
            == pssh_payload(kid),
{
    let p = pssh_payload(kid);
    let h = widevine_header(kid);
    bytes::be32_round_trip(20, h);
    assert(p.subrange(4, 20) =~= WV_SYSTEM_ID@);
    let tail = bytes::be32_bytes(20) + h;
    assert(p.skip(20) =~= tail);
    assert(p[20] == tail[0] && p[21] == tail[1] && p[22] == tail[2] && p[23] == tail[3]);
    assert(bytes::be32(p, 20) == 20);
    assert(p.subrange(24, 44) =~= h);
    assert(init::varint_end(h, 1) == 2) by {
        assert(h[1] == 1);
    }
    assert(h[0] == 8);
    assert(h[2] == 18 && h[3] == 16);
    assert(h.subrange(4, 20) =~= kid);
    assert(init::header_kid(h, 2) == Some(kid));
    assert(init::header_kid(h, 0) == Some(kid));
    let x = boxes::iso_box(PSSH@, p);
    laws::written_box_reads_back(PSSH@, p);
    let b = boxes::box_at(x, 0)->0;
    assert(boxes::box_list(x)[0] == b);
}

/// An init segment whose `moov` starts with a box built for a key id gives back that
/// box, and that key id.
#[verifier::rlimit(80)]
#[verifier::spinoff_prover]
pub proof fn built_pssh_is_found_in_an_init_segment(kid: Seq<u8>, hint: u32)
    requires
        kid.len() == 16,
    ensures
        ({
            let pssh = boxes::iso_box(PSSH@, pssh_payload(kid));
            let s = boxes::iso_box(MOOV@, pssh);
            &&& init::widevine_pssh(s) == Some(pssh)
            &&& init::init_info(s, hint) == Ok::<Option<init::InitView>, crate::fmp4::Fmp4Error>(
                Some(
                    init::InitView {
                        default_kid: kid,
                        default_iv_size: 8,
                        encryption_scheme: hint,
                    },
                ),
            )
        }),
{
    let p = pssh_payload(kid);
    let pssh = boxes::iso_box(PSSH@, p);
    let s = boxes::iso_box(MOOV@, pssh);
    built_pssh_holds_its_key_id(kid);
    laws::written_box_reads_back(PSSH@, p);
    laws::written_box_reads_back(MOOV@, pssh);
    let moov = boxes::box_at(s, 0)->0;
    assert(boxes::box_list(s)[0] == moov);
    let b = boxes::box_at(pssh, 0)->0;
    let list = boxes::box_list(pssh);
    assert(boxes::box_at(pssh, b.total_size) is None);
    assert(boxes::box_list_from(pssh, b.total_size) =~= Seq::empty());
    assert(list =~= seq![b]);
    assert(p.subrange(4, 20) =~= WV_SYSTEM_ID@);
    assert(boxes::raw_box(pssh, b) =~= pssh);
    assert(PSSH@[0] != boxes::TRAK@[0]);
    assert(list.drop_first() =~= Seq::empty());
    assert(init::traks_info(list) == init::traks_info(list.drop_first()));
}

/// Every 16-byte field number 2 of a Widevine header from `pos` on.
pub open spec fn header_kids(p: Seq<u8>, pos: int) -> Seq<Seq<u8>>
    decreases p.len() - pos,
{
    if pos >= p.len() {
        Seq::empty()
    } else if p[pos] % 8 == 0 {
        let next = init::varint_end(p, pos + 1);
        if pos < next < p.len() {
            header_kids(p, next)
        } else {
            Seq::empty()
        }
    } else if p[pos] % 8 == 2 {
        if pos + 1 >= p.len() {
            Seq::empty()
        } else {
            let len = p[pos + 1];
            let here = if p[pos] / 8 == 2 && len == 16 && pos + 18 <= p.len() {
                seq![p.subrange(pos + 2, pos + 18)]
            } else {
                Seq::empty()
            };
            if pos + 2 + len < p.len() {
                here + header_kids(p, pos + 2 + len)
            } else {
                here
            }
        }
    } else {
        Seq::empty()
    }
}

/// The key ids that a whole `pssh` box carries: the list of version 1, as far as it
/// is there, or those of the Widevine header of any other version.
pub open spec fn box_kids(pssh: Seq<u8>) -> Seq<Seq<u8>> {
    if pssh.len() < 32 {
        Seq::empty()
    } else {
        let n = bytes::be32(pssh, 28);
        if pssh[8] == 1 {
            let there = (pssh.len() - 32) / 16;
            Seq::new(
                (if n < there {
                    n
                } else {
                    there
                }) as nat,
                |i: int| pssh.subrange(32 + 16 * i, 48 + 16 * i),
            )
        } else if pssh.len() < 32 + n {
            Seq::empty()
        } else {
            header_kids(pssh.subrange(32, 32 + n), 0)
        }
    }
}

/// The key ids of a list, as byte sequences.
pub open spec fn kid_views(kids: Seq<[u8; 16]>) -> Seq<Seq<u8>> {
    kids.map_values(|k: [u8; 16]| k@)
}

fn scan_header_kids(p: &[u8]) -> (kids: Vec<[u8; 16]>)
    ensures
        kid_views(kids@) == header_kids(p@, 0),
{
    let mut kids: Vec<[u8; 16]> = Vec::new();
    let mut pos: usize = 0;
    let ghost all = header_kids(p@, 0);
    assert(kid_views(kids@) + all =~= all);
    while pos < p.len()
        invariant
            pos <= p@.len(),
            all == header_kids(p@, 0),
            kid_views(kids@) + header_kids(p@, pos as int) == all,
        decreases p@.len() - pos,
    {
        let ghost before = kid_views(kids@);
        let tag: u8 = p[pos];
        if tag % 8 == 0 {
            let mut i: usize = pos + 1;
            while i < p.len() && p[i] >= 0x80
                invariant
                    pos < i <= p@.len(),
                    init::varint_end(p@, i as int) == init::varint_end(p@, pos + 1),
                decreases p@.len() - i,
            {
                i += 1;
            }
            if i < p.len() {
                i += 1;
            }
            if i >= p.len() {
                assert(kid_views(kids@) + Seq::<Seq<u8>>::empty() =~= kid_views(kids@));
                return kids;
            }
            pos = i;
        } else if tag % 8 == 2 {
            if p.len() - pos < 2 {
                assert(kid_views(kids@) + Seq::<Seq<u8>>::empty() =~= kid_views(kids@));
                return kids;
            }
            let len: usize = p[pos + 1] as usize;
            let left: usize = p.len() - pos - 2;
            let ghost here = if tag / 8 == 2 && len == 16 && left >= 16 {
                seq![p@.subrange(pos + 2, pos + 18)]
            } else {
                Seq::empty()
            };
            if tag / 8 == 2 && len == 16 && left >= 16 {
                kids.push(init::read_id(p, pos + 2));
            }
            assert(kid_views(kids@) =~= before + here);
            if len >= left {
                return kids;
            }
            pos = pos + 2 + len;
            assert(before + (here + header_kids(p@, pos as int)) =~= (before + here)
                + header_kids(p@, pos as int));
        } else {
            assert(kid_views(kids@) + Seq::<Seq<u8>>::empty() =~= kid_views(kids@));
            return kids;
        }
    }
    assert(kid_views(kids@) + Seq::<Seq<u8>>::empty() =~= kid_views(kids@));
    kids
}

/// Lists the key ids that a whole `pssh` box carries. A box that is too short or
/// malformed carries none.
pub fn pssh_kids(pssh: &[u8]) -> (kids: Vec<[u8; 16]>)
    ensures
        kid_views(kids@) == box_kids(pssh@),
{
    let mut kids: Vec<[u8; 16]> = Vec::new();
    if pssh.len() < 32 {
        assert(kid_views(kids@) =~= Seq::empty());
        return kids;
    }
    let n: u32 = read_be32(pssh, 28);
    if pssh[8] == 1 {
        let mut i: u32 = 0;
        let mut at: usize = 32;
        while i < n && pssh.len() - at >= 16
            invariant
                i <= n,
                at == 32 + 16 * i,
                at <= pssh@.len(),
                kids@.len() == i,
                forall|j: int|
                    0 <= j < i ==> (#[trigger] kids@[j])@ == pssh@.subrange(
                        32 + 16 * j,
                        48 + 16 * j,
                    ),
            decreases n - i,
        {
            kids.push(init::read_id(pssh, at));
            at += 16;
            i += 1;
        }
        assert(kid_views(kids@) =~= box_kids(pssh@));
        return kids;
    }
    if ((pssh.len() - 32) as u64) < n as u64 {
        assert(kid_views(kids@) =~= Seq::empty());
        return kids;
    }
    scan_header_kids(vstd::slice::slice_subrange(pssh, 32, 32 + n as usize))
}

// ---------------------------------------------------------------------------
// Initialisation data in a manifest
// ---------------------------------------------------------------------------

/// The contents of the Widevine `ContentProtection` elements of a manifest: of each, what
/// stands between the tag that names the Widevine system id and the closing tag. A tag that
/// closes itself has none.
pub open spec fn widevine_blocks(s: Seq<char>) -> Seq<Seq<char>>
    decreases s.len(),
{
    match text::find(text::lower(s), "edef8ba9"@) {
        None => Seq::empty(),
        Some(i) => {
            let tag = s.skip(i);
            match text::find_char(tag, '>') {
                None => Seq::empty(),
                Some(e) => {
                    let rest = tag.skip(e + 1);
                    proof {
                        widevine_tag_shrinks(s);
                    }
                    if text::ends_with(tag.take(e + 1), "/>"@) {
                        widevine_blocks(rest)
                    } else {
                        match text::find(rest, "</ContentProtection>"@) {
                            Some(c) => seq![rest.take(c)] + widevine_blocks(rest.skip(c)),
                            None => seq![rest],
                        }
                    }
                },
            }
        },
    }
}

/// The text behind a tag that names the Widevine system id is shorter.
pub proof fn widevine_tag_shrinks(s: Seq<char>)
    ensures
        match text::find(text::lower(s), "edef8ba9"@) {
            None => true,
            Some(i) => {
                let tag = s.skip(i);
                &&& 0 <= i <= s.len()
                &&& match text::find_char(tag, '>') {
                    None => true,
                    Some(e) => {
                        let rest = tag.skip(e + 1);
                        &&& 0 <= e < tag.len()
                        &&& rest.len() < s.len()
                        &&& match text::find(rest, "</ContentProtection>"@) {
                            None => true,
                            Some(c) => 0 <= c <= rest.len(),
                        }
                    },
                }
            },
        },
{
    text::find_is_first(text::lower(s), "edef8ba9"@, 0);
    if let Some(i) = text::find(text::lower(s), "edef8ba9"@) {
        let tag = s.skip(i);
        text::find_is_first(tag, seq!['>'], 0);
        if let Some(e) = text::find_char(tag, '>') {
            text::find_is_first(tag.skip(e + 1), "</ContentProtection>"@, 0);
        }
    }
}

/// The text of the first element with the given opening and closing tags, without
/// white space around it.
pub open spec fn element_text(s: Seq<char>, open: Seq<char>, close: Seq<char>) -> Option<
    Seq<char>,
> {
    match text::find(s, open) {
        None => None,
        Some(i) => {
            let content = s.skip(i + open.len());
            match text::find(content, close) {
                None => None,
                Some(e) => Some(text::trimmed(content.take(e))),
            }
        },
    }
}

/// The text of an element in the first of the given contents that has one.
pub open spec fn first_text(blocks: Seq<Seq<char>>, open: Seq<char>, close: Seq<char>) -> Option<
    Seq<char>,
>
    decreases blocks.len(),
{
    if blocks.len() == 0 {
        None
    } else if element_text(blocks[0], open, close) is Some {
        element_text(blocks[0], open, close)
    } else {
        first_text(blocks.drop_first(), open, close)
    }
}

/// The texts that may encode a manifest's `pssh` box: each from the first Widevine element
/// that holds one.
pub open spec fn encoded_pssh(s: Seq<char>) -> (Option<Seq<char>>, Option<Seq<char>>) {
    let blocks = widevine_blocks(s);
    (
        first_text(blocks, "<cenc:pssh>"@, "</cenc:pssh>"@),
        first_text(blocks, "<pssh>"@, "</pssh>"@),
    )
}

fn find_element_text(s: &[char], open: &str, close: &str) -> (r: Option<String>)
    ensures
        text::opt_text(r) == element_text(s@, open@, close@),
{
    proof {
        text::find_is_first(s@, open@, 0);
        assert(s.len() == s@.len());
    }
    match find_text(s, open) {
        None => None,
        Some(i) => {
            let content = behind(s, i + chars_of(open).len());
            match find_text(content, close) {
                None => None,
                Some(e) => Some(text_of(trim(front(content, e)))),
            }
        },
    }
}

/// The first of two texts that is there.
pub open spec fn first_there(a: Option<Seq<char>>, b: Option<Seq<char>>) -> Option<Seq<char>> {
    if a is Some {
        a
    } else {
        b
    }
}

/// The first text of what begins with a content is the one of that content, or else of the
/// rest.
proof fn first_text_step(block: Seq<char>, rest: Seq<Seq<char>>, open: Seq<char>, close: Seq<char>)
    ensures
        first_text(seq![block] + rest, open, close) == first_there(
            element_text(block, open, close),
            first_text(rest, open, close),
        ),
{
    assert((seq![block] + rest).drop_first() =~= rest);
}

/// Finds the texts that may encode a manifest's `pssh` box: the `cenc:pssh` and the
/// `pssh` element inside a Widevine `ContentProtection` element, each in the first one that
/// has it.
pub fn find_encoded_pssh(mpd_text: &str) -> (r: (Option<String>, Option<String>))
    ensures
        (text::opt_text(r.0), text::opt_text(r.1)) == encoded_pssh(mpd_text@),
{
    let all = chars_of(mpd_text);
    let mut rest: &[char] = all.as_slice();
    let mut cenc: Option<String> = None;
    let mut plain: Option<String> = None;
    let ghost want = encoded_pssh(mpd_text@);
    loop
        invariant
            want == encoded_pssh(mpd_text@),
            first_there(text::opt_text(cenc), encoded_pssh(rest@).0) == want.0,
            first_there(text::opt_text(plain), encoded_pssh(rest@).1) == want.1,
        decreases rest@.len(),
    {
        let low = to_lower(rest);
        proof {
            widevine_tag_shrinks(rest@);
            assert(low@.len() == rest@.len());
            assert(rest.len() == rest@.len());
        }
        let i = match find_text(low.as_slice(), "edef8ba9") {
            Some(i) => i,
            None => return (cenc, plain),
        };
        let tag = behind(rest, i);
        assert(tag.len() == tag@.len());
        let e = match find_one(tag, '>') {
            Some(e) => e,
            None => return (cenc, plain),
        };
        let inner = behind(tag, e + 1);
        if has_suffix(front(tag, e + 1), "/>") {
            rest = inner;
            continue;
        }
        let end = find_text(inner, "</ContentProtection>");
        let block = match end {
            Some(c) => front(inner, c),
            None => inner,
        };
        proof {
            let later = match end {
                Some(c) => widevine_blocks(inner@.skip(c as int)),
                None => Seq::empty(),
            };
            assert(seq![block@] + Seq::<Seq<char>>::empty() =~= seq![block@]);
            assert(widevine_blocks(rest@) == seq![block@] + later);
            first_text_step(block@, later, "<cenc:pssh>"@, "</cenc:pssh>"@);
            first_text_step(block@, later, "<pssh>"@, "</pssh>"@);
        }
        if cenc.is_none() {
            cenc = find_element_text(block, "<cenc:pssh>", "</cenc:pssh>");
        }
        if plain.is_none() {
            plain = find_element_text(block, "<pssh>", "</pssh>");
        }
        match end {
            Some(c) => {
                rest = behind(inner, c);
            },
            None => return (cenc, plain),
        }
    }
}

/// The key id that the first attribute of the given form writes.
pub open spec fn attr_kid(s: Seq<char>, attr: Seq<char>) -> Option<Seq<u8>> {
    match text::find(s, attr) {
        None => None,
        Some(i) => {
            let after = s.skip(i + attr.len());
            match text::find_char(after, '"') {
                None => None,
                Some(e) => uuid_bytes(after.take(e)),
            }
        },
    }
}

/// The default key id of a manifest.
pub open spec fn default_kid(s: Seq<char>) -> Option<Seq<u8>> {
    if attr_kid(s, "cenc:default_KID=\""@) is Some {
        attr_kid(s, "cenc:default_KID=\""@)
    } else if attr_kid(s, "default_KID=\""@) is Some {
        attr_kid(s, "default_KID=\""@)
    } else if attr_kid(s, "cenc:default_kid=\""@) is Some {
        attr_kid(s, "cenc:default_kid=\""@)
    } else {
        attr_kid(s, "default_kid=\""@)
    }
}

fn find_attr_kid(s: &[char], attr: &str) -> (r: Option<[u8; 16]>)
    ensures
        match r {
            Some(id) => attr_kid(s@, attr@) == Some(id@),
            None => attr_kid(s@, attr@) is None,
        },
{
    proof {
        text::find_is_first(s@, attr@, 0);
        assert(s.len() == s@.len());
    }
    match find_text(s, attr) {
        None => None,
        Some(i) => {
            let after = behind(s, i + chars_of(attr).len());
            match find_one(after, '"') {
                None => None,
                Some(e) => {
                    let uuid = text_of(front(after, e));
                    parse_uuid_to_bytes(uuid.as_str())
                },
            }
        },
    }
}

/// Finds the default key id of a manifest.
pub fn find_default_kid(mpd_text: &str) -> (r: Option<[u8; 16]>)
    ensures
        match r {
            Some(id) => default_kid(mpd_text@) == Some(id@),
            None => default_kid(mpd_text@) is None,
        },
{
    let all = chars_of(mpd_text);
    let mut r = find_attr_kid(all.as_slice(), "cenc:default_KID=\"");
    if r.is_none() {
        r = find_attr_kid(all.as_slice(), "default_KID=\"");
    }
    if r.is_none() {
        r = find_attr_kid(all.as_slice(), "cenc:default_kid=\"");
    }
    if r.is_none() {
        r = find_attr_kid(all.as_slice(), "default_kid=\"");
    }
    r
}

/// What a text that may be missing encodes.
pub open spec fn base64_opt(s: Option<Seq<char>>) -> Option<Seq<u8>> {
    match s {
        Some(s) => base64_value(s),
        None => None,
    }
}

/// The box to use: the first that was decoded, or else one built for a key id.
pub open spec fn chosen_pssh(
    cenc: Option<Seq<u8>>,
    plain: Option<Seq<u8>>,
    kid: Option<Seq<u8>>,
) -> Option<Seq<u8>> {
    if cenc is Some {
        cenc
    } else if plain is Some {
        plain
    } else {
        match kid {
            Some(k) => Some(boxes::iso_box(PSSH@, pssh_payload(k))),
            None => None,
        }
    }
}

/// Chooses the box to use: the first that was decoded, or else one built for the
/// default key id.
pub fn choose_pssh(
    cenc: Option<Vec<u8>>,
    plain: Option<Vec<u8>>,
    kid: Option<[u8; 16]>,
) -> (r: Option<Vec<u8>>)
    ensures
        opt_bytes(r) == chosen_pssh(
            opt_bytes(cenc),
            opt_bytes(plain),
            match kid {
                Some(k) => Some(k@),
                None => None,
            },
        ),
{
    if cenc.is_some() {
        return cenc;
    }
    if plain.is_some() {
        return plain;
    }
    match kid {
        Some(k) => Some(build_pssh_from_kid(&k)),
        None => None,
    }
}

/// The Widevine initialisation data of a manifest.
pub open spec fn mpd_pssh(mpd: Seq<char>) -> Option<Seq<u8>> {
    chosen_pssh(
        base64_opt(encoded_pssh(mpd).0),
        base64_opt(encoded_pssh(mpd).1),
        default_kid(mpd),
    )
}

/// Extracts Widevine initialisation data from a manifest: the decoded `cenc:pssh` or
/// `pssh` element of the Widevine `ContentProtection` element or, where neither can
/// be had, a box built for the default key id.
pub fn extract_pssh_from_mpd(mpd_text: &str) -> (r: Option<Vec<u8>>)
    ensures
        opt_bytes(r) == mpd_pssh(mpd_text@),
{
    let (cenc, plain) = find_encoded_pssh(mpd_text);
    let cenc = match cenc {
        Some(s) => decode_base64(s.as_str()),
        None => None,
    };
    let plain = match plain {
        Some(s) => decode_base64(s.as_str()),
        None => None,
    };
    choose_pssh(cenc, plain, find_default_kid(mpd_text))
}

// ---------------------------------------------------------------------------
// License responses
// ---------------------------------------------------------------------------

/// What to do with an answer of the license server.
#[derive(Debug)]
pub enum LicenseAction {
    /// Send the challenge to this URL instead.
    Follow(String),
    /// Give up.
    Reject,
    /// Read the license from the body.
    Accept,
}

/// Decides what to do with an answer of the license server. A redirect with a
/// location is followed, once; anything but success is the end of it.
pub fn license_action(status: u16, location: &Option<String>, followed: bool) -> (r: LicenseAction)
    ensures
        match r {
            LicenseAction::Follow(url) => !followed && 300 <= status < 400 && location is Some
                && url@ == (location->0)@,
            LicenseAction::Accept => 200 <= status < 300,
            LicenseAction::Reject => !(200 <= status < 300) && (followed || !(300 <= status < 400)
                || location is None),
        },
{
    if !followed && 300 <= status && status < 400 {
        match location {
            Some(url) => {
                return LicenseAction::Follow(url.clone());
            },
            None => {},
        }
    }
    if 200 <= status && status < 300 {
        LicenseAction::Accept
    } else {
        LicenseAction::Reject
    }
}

/// The text that a JSON object holds under a key, if the bytes are JSON and there is
/// one.
pub uninterp spec fn json_text(raw: Seq<u8>, key: Seq<char>) -> Option<Seq<char>>;

/// `serde_json::from_slice` reads bytes as JSON; `Value::get` finds a key of an object, and
/// `Value::as_str` gives a text. What comes out depends on the bytes and the key alone, and
/// there is nothing where any of the three finds nothing.
#[verifier::external_body]
fn read_json_text(raw: &[u8], key: &str) -> (r: Option<String>)
    ensures
        text::opt_text(r) == json_text(raw@, key@),
{
    let value = serde_json::from_slice::<serde_json::Value>(raw).ok()?;
    value.get(key).and_then(|v| v.as_str()).map(|s| s.to_string())
}

/// Whether an answer may be JSON: its content type says so, or it starts with a
/// brace.
pub open spec fn may_be_json(content_type: Seq<char>, raw: Seq<u8>) -> bool {
    text::contains(content_type, "json"@) || raw.len() > 0 && raw[0] == 0x7b
}

/// The first license that was found, or else the answer itself.
pub open spec fn first_license(found: Seq<Option<Seq<u8>>>, raw: Seq<u8>) -> Seq<u8>
    decreases found.len(),
{
    if found.len() == 0 {
        raw
    } else if found[0] is Some {
        found[0]->0
    } else {
        first_license(found.drop_first(), raw)
    }
}

/// Chooses the first license that was found, or else the answer itself.
pub fn choose_license(found: Vec<Option<Vec<u8>>>, raw: Vec<u8>) -> (r: Vec<u8>)
    ensures
        r@ == first_license(found@.map_values(|f: Option<Vec<u8>>| opt_bytes(f)), raw@),
{
    let ghost views = found@.map_values(|f: Option<Vec<u8>>| opt_bytes(f));
    let mut i: usize = 0;
    assert(views.skip(0) =~= views);
    while i < found.len()
        invariant
            i <= found@.len(),
            views == found@.map_values(|f: Option<Vec<u8>>| opt_bytes(f)),
            first_license(views.skip(i as int), raw@) == first_license(views, raw@),
        decreases found@.len() - i,
    {
        assert(views.skip(i as int)[0] == opt_bytes(found@[i as int]));
        assert(views.skip(i as int).drop_first() =~= views.skip(i + 1));
        match &found[i] {
            Some(license) => {
                return bytes::copy_bytes(license.as_slice());
            },
            None => {},
        }
        i += 1;
    }
    raw
}

/// The license that a JSON answer holds under a key.
pub open spec fn json_license(raw: Seq<u8>, key: Seq<char>) -> Option<Seq<u8>> {
    base64_opt(json_text(raw, key))
}

fn read_json_license(raw: &[u8], key: &str) -> (r: Option<Vec<u8>>)
    ensures
        opt_bytes(r) == json_license(raw@, key@),
{
    match read_json_text(raw, key) {
        Some(s) => decode_base64(s.as_str()),
        None => None,
    }
}

/// The license in an answer: where that may be JSON, what it holds in base64 under
/// the first of the usual keys; else the answer itself.
pub open spec fn license_in(content_type: Seq<char>, raw: Seq<u8>) -> Seq<u8> {
    if may_be_json(content_type, raw) {
        first_license(
            seq![
                json_license(raw, "license"@),
                json_license(raw, "data"@),
                json_license(raw, "rawLicenseResponse"@),
                json_license(raw, "licenseResponse"@),
            ],
            raw,
        )
    } else {
        raw
    }
}

/// Takes the license out of an answer of the license server.
pub fn license_from_response(content_type: &str, raw: Vec<u8>) -> (r: Vec<u8>)
    ensures
        r@ == license_in(content_type@, raw@),
{
    let kind = chars_of(content_type);
    if !has_text(kind.as_slice(), "json") && !(raw.len() > 0 && raw[0] == 0x7b) {
        return raw;
    }
    let mut found: Vec<Option<Vec<u8>>> = Vec::new();
    found.push(read_json_license(raw.as_slice(), "license"));
    found.push(read_json_license(raw.as_slice(), "data"));
    found.push(read_json_license(raw.as_slice(), "rawLicenseResponse"));
    found.push(read_json_license(raw.as_slice(), "licenseResponse"));
    assert(found@.map_values(|f: Option<Vec<u8>>| opt_bytes(f)) =~= seq![
        json_license(raw@, "license"@),
        json_license(raw@, "data"@),
        json_license(raw@, "rawLicenseResponse"@),
        json_license(raw@, "licenseResponse"@),
    ]);
    choose_license(found, raw)
}

} // verus!
