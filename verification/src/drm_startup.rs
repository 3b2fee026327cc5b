//! How the decryption of a protected stream is set up: the steps one after the other, each
//! with what the last one gave, and the license request data that is used.

use crate::fmp4::init;
use crate::fmp4::init::extract_widevine_pssh;
use crate::license;
use crate::license::extract_pssh_from_mpd;
use crate::text;
use crate::text::{
    behind, chars_of, find_one, find_text, front, has_prefix, has_suffix, push_chars, push_text,
    replace, rfind_one, text_of, trim,
};
use vstd::prelude::*;

verus! {

// ---------------------------------------------------------------------------
// The first init segment of a manifest
// ---------------------------------------------------------------------------

/// The directory of a URL: up to the last slash before the query, or the whole URL where
/// there is none.
pub open spec fn directory(url: Seq<char>) -> Seq<char> {
    let path = match text::find_char(url, '?') {
        Some(q) => url.take(q),
        None => url,
    };
    match text::rfind_char(path, '/') {
        Some(i) => url.take(i + 1),
        None => url,
    }
}

/// What stands between an opening text and the next closing one.
pub open spec fn between(s: Seq<char>, open: Seq<char>, close: Seq<char>) -> Option<Seq<char>> {
    match text::find(s, open) {
        None => None,
        Some(i) => {
            let after = s.skip(i + open.len());
            match text::find(after, close) {
                None => None,
                Some(j) => Some(after.take(j)),
            }
        },
    }
}

/// Whether a URL is absolute.
pub open spec fn is_absolute(url: Seq<char>) -> bool {
    text::starts_with(url, "http://"@) || text::starts_with(url, "https://"@)
}

/// The base of the segment URLs of a manifest, ending in a slash. There is none where the
/// manifest's base element is not closed.
pub open spec fn base_of(mpd: Seq<char>, mpd_url: Seq<char>) -> Option<Seq<char>> {
    let raw = if text::contains(mpd, "<BaseURL>"@) {
        match between(mpd, "<BaseURL>"@, "</BaseURL>"@) {
            Some(b) => Some(text::trimmed(b)),
            None => None,
        }
    } else {
        Some(Seq::empty())
    };
    match raw {
        None => None,
        Some(raw) => {
            let base = if is_absolute(raw) {
                raw
            } else {
                directory(mpd_url) + raw
            };
            Some(
                if text::ends_with(base, "/"@) {
                    base
                } else {
                    base + "/"@
                },
            )
        },
    }
}

/// The URL of the first init segment of a manifest.
pub open spec fn init_segment_url(mpd: Seq<char>, mpd_url: Seq<char>) -> Option<Seq<char>> {
    match (
        base_of(mpd, mpd_url),
        between(mpd, "initialization=\""@, "\""@),
        between(mpd, "<Representation id=\""@, "\""@),
    ) {
        (Some(base), Some(template), Some(id)) => {
            let named = text::replace_all(
                text::replace_all(template, "&amp;"@, "&"@),
                "$RepresentationID$"@,
                id,
            );
            Some(
                if is_absolute(named) {
                    named
                } else {
                    base + named
                },
            )
        },
        _ => None,
    }
}

/// What stands between an opening text and the next closing one.
fn find_between<'a>(s: &'a [char], open: &str, close: &str) -> (r: Option<&'a [char]>)
    ensures
        match r {
            Some(b) => between(s@, open@, close@) == Some(b@),
            None => between(s@, open@, close@) is None,
        },
{
    proof {
        text::find_is_first(s@, open@, 0);
        assert(s.len() == s@.len());
    }
    match find_text(s, open) {
        None => None,
        Some(i) => {
            let after = behind(s, i + chars_of(open).len());
            proof {
                text::find_is_first(after@, close@, 0);
            }
            match find_text(after, close) {
                None => None,
                Some(j) => Some(front(after, j)),
            }
        },
    }
}

/// The directory of a URL.
fn directory_of<'a>(url: &'a [char]) -> (r: &'a [char])
    ensures
        r@ == directory(url@),
{
    assert(url.len() == url@.len());
    let path: &[char] = match find_one(url, '?') {
        Some(q) => front(url, q),
        None => url,
    };
    match rfind_one(path, '/') {
        Some(i) => front(url, i + 1),
        None => url,
    }
}

/// Whether a URL is absolute.
fn absolute(url: &[char]) -> (r: bool)
    ensures
        r == is_absolute(url@),
{
    has_prefix(url, "http://") || has_prefix(url, "https://")
}

/// The base of the segment URLs of a manifest.
fn find_base(mpd: &[char], mpd_url: &[char]) -> (r: Option<Vec<char>>)
    ensures
        match r {
            Some(b) => base_of(mpd@, mpd_url@) == Some(b@),
            None => base_of(mpd@, mpd_url@) is None,
        },
{
    let mut base: Vec<char> = Vec::new();
    proof {
        text::found_iff_contained(mpd@, "<BaseURL>"@);
    }
    if find_text(mpd, "<BaseURL>").is_some() {
        let raw = match find_between(mpd, "<BaseURL>", "</BaseURL>") {
            None => return None,
            Some(b) => trim(b),
        };
        if !absolute(raw) {
            push_chars(&mut base, directory_of(mpd_url));
        }
        push_chars(&mut base, raw);
        assert(base@ =~= if is_absolute(raw@) {
            raw@
        } else {
            directory(mpd_url@) + raw@
        });
    } else {
        proof {
            reveal_strlit("http://");
            reveal_strlit("https://");
            assert(!is_absolute(Seq::<char>::empty()));
        }
        push_chars(&mut base, directory_of(mpd_url));
        assert(base@ =~= directory(mpd_url@) + Seq::<char>::empty());
    }
    if !has_suffix(base.as_slice(), "/") {
        push_text(&mut base, "/");
    }
    Some(base)
}

/// The URL of the first init segment of a manifest, absolute.
pub fn probe_init_segment_url(mpd: &str, mpd_base_url: &str) -> (r: Option<String>)
    ensures
        text::opt_text(r) == init_segment_url(mpd@, mpd_base_url@),
{
    let all = chars_of(mpd);
    let url = chars_of(mpd_base_url);
    let base = match find_base(all.as_slice(), url.as_slice()) {
        None => return None,
        Some(b) => b,
    };
    let template = match find_between(all.as_slice(), "initialization=\"", "\"") {
        None => return None,
        Some(t) => t,
    };
    let id = match find_between(all.as_slice(), "<Representation id=\"", "\"") {
        None => return None,
        Some(i) => i,
    };
    proof {
        reveal_strlit("&amp;");
        reveal_strlit("$RepresentationID$");
    }
    let plain = replace(template, "&amp;", chars_of("&").as_slice());
    let named = replace(plain.as_slice(), "$RepresentationID$", id);
    if absolute(named.as_slice()) {
        return Some(text_of(named.as_slice()));
    }
    let mut full: Vec<char> = base;
    push_chars(&mut full, named.as_slice());
    Some(text_of(full.as_slice()))
}

/// What stands behind a prefix does not matter to it.
proof fn prefix_stays(a: Seq<char>, b: Seq<char>, pat: Seq<char>)
    requires
        text::starts_with(a, pat),
    ensures
        text::starts_with(a + b, pat),
{
    assert((a + b).take(pat.len() as int) =~= a.take(pat.len() as int));
}

/// The last slash is not before any other.
proof fn last_slash(s: Seq<char>, i: int)
    requires
        0 <= i < s.len(),
        s[i] == '/',
    ensures
        text::rfind_char(s, '/') matches Some(j) && i <= j < s.len(),
    decreases s.len(),
{
    if s.last() != '/' {
        last_slash(s.drop_last(), i);
    }
}

/// The directory of a URL with a prefix that ends in a slash and holds no question mark has
/// that prefix.
proof fn directory_keeps_the_scheme(url: Seq<char>, pat: Seq<char>)
    requires
        text::starts_with(url, pat),
        pat.len() > 0,
        pat.last() == '/',
        forall|i: int| 0 <= i < pat.len() ==> pat[i] != '?',
    ensures
        text::starts_with(directory(url), pat),
{
    let n = pat.len() as int;
    let path = match text::find_char(url, '?') {
        Some(q) => url.take(q),
        None => url,
    };
    text::find_is_first(url, seq!['?'], 0);
    match text::find_char(url, '?') {
        Some(q) => {
            assert(url.subrange(q, q + 1)[0] == '?');
            if q < n {
                assert(pat[q] == url.take(n)[q]);
            }
        },
        None => {},
    }
    assert(path[n - 1] == url.take(n)[n - 1]);
    last_slash(path, n - 1);
    let j = text::rfind_char(path, '/')->0;
    assert(url.take(j + 1).take(n) =~= url.take(n));
}

/// The URL of the init segment is absolute where that of the manifest is.
pub proof fn init_segment_url_is_absolute(mpd: Seq<char>, mpd_url: Seq<char>)
    requires
        is_absolute(mpd_url),
    ensures
        init_segment_url(mpd, mpd_url) matches Some(url) ==> is_absolute(url),
{
    reveal_strlit("http://");
    reveal_strlit("https://");
    if let Some(base) = base_of(mpd, mpd_url) {
        let pat = if text::starts_with(mpd_url, "http://"@) {
            "http://"@
        } else {
            "https://"@
        };
        directory_keeps_the_scheme(mpd_url, pat);
        let raw = if text::contains(mpd, "<BaseURL>"@) {
            text::trimmed(between(mpd, "<BaseURL>"@, "</BaseURL>"@)->0)
        } else {
            Seq::empty()
        };
        prefix_stays(directory(mpd_url), raw, pat);
        let joined = if is_absolute(raw) {
            raw
        } else {
            directory(mpd_url) + raw
        };
        assert(is_absolute(joined));
        let scheme = if text::starts_with(joined, "http://"@) {
            "http://"@
        } else {
            "https://"@
        };
        prefix_stays(joined, "/"@, scheme);
        assert(text::starts_with(base, scheme));
        if let Some(url) = init_segment_url(mpd, mpd_url) {
            let named = text::replace_all(
                text::replace_all(
                    between(mpd, "initialization=\""@, "\""@)->0,
                    "&amp;"@,
                    "&"@,
                ),
                "$RepresentationID$"@,
                between(mpd, "<Representation id=\""@, "\""@)->0,
            );
            prefix_stays(base, named, scheme);
        }
    }
}

// ---------------------------------------------------------------------------
// License request data
// ---------------------------------------------------------------------------

/// The license request data: of the init segment, else the operator's, else the manifest's.
pub open spec fn startup_pssh(
    init: Option<Seq<u8>>,
    operator: Option<Seq<u8>>,
    mpd: Seq<char>,
) -> Option<Seq<u8>> {
    let from_init = match init {
        Some(data) => init::widevine_pssh(data),
        None => None,
    };
    if from_init is Some {
        from_init
    } else if operator is Some {
        operator
    } else {
        license::mpd_pssh(mpd)
    }
}

/// The license request data.
pub fn choose_startup_pssh(init: &Option<Vec<u8>>, operator: &Option<Vec<u8>>, mpd: &str) -> (r:
    Option<Vec<u8>>)
    ensures
        license::opt_bytes(r) == startup_pssh(
            license::opt_bytes(*init),
            license::opt_bytes(*operator),
            mpd@,
        ),
{
    match init {
        Some(data) => match extract_widevine_pssh(data.as_slice()) {
            Some(p) => {
                return Some(p);
            },
            None => {},
        },
        None => {},
    }
    match operator {
        Some(p) => Some(crate::bytes::copy_bytes(p.as_slice())),
        None => extract_pssh_from_mpd(mpd),
    }
}

// ---------------------------------------------------------------------------
// The steps
// ---------------------------------------------------------------------------

/// What is known so far of the stream.
#[derive(Debug)]
pub struct DrmStartup {
    /// The operator's license request data.
    pub operator_pssh: Option<Vec<u8>>,
    /// Where the manifest came from, after redirections.
    pub mpd_url: String,
    pub mpd_text: String,
}

/// What a step gave. An error is its text.
#[derive(Debug)]
pub enum DrmEvent {
    CdmOpened(Result<(), String>),
    CdmInitialized(Result<(), String>),
    ClientBuilt(Result<(), String>),
    /// The manifest was found at this URL.
    ManifestFetched(Result<String, String>),
    ManifestRead(Result<String, String>),
    /// The init segment, where it could be fetched.
    InitFetched(Option<Vec<u8>>),
    Licensed(Result<(), String>),
    /// The proxy serves the manifest at this URL.
    ProxyStarted(Result<String, String>),
}

/// What is done next.
#[derive(Debug)]
pub enum DrmAction {
    OpenCdm,
    InitializeCdm,
    BuildClient,
    FetchManifest,
    ReadManifest,
    FetchInit(String),
    /// Request a license with this data.
    AcquireLicense(Vec<u8>),
    StartProxy { mpd_text: String, mpd_url: String },
    /// The player can open this URL.
    Ready(String),
    /// Decryption cannot be set up, for this reason.
    Fail(String),
}

/// What is known of a `DrmAction`.
pub enum DrmActionView {
    OpenCdm,
    InitializeCdm,
    BuildClient,
    FetchManifest,
    ReadManifest,
    FetchInit(Seq<char>),
    AcquireLicense(Seq<u8>),
    StartProxy { mpd_text: Seq<char>, mpd_url: Seq<char> },
    Ready(Seq<char>),
    Fail(Seq<char>),
}

impl DrmAction {
    pub open spec fn view(&self) -> DrmActionView {
        match self {
            DrmAction::OpenCdm => DrmActionView::OpenCdm,
            DrmAction::InitializeCdm => DrmActionView::InitializeCdm,
            DrmAction::BuildClient => DrmActionView::BuildClient,
            DrmAction::FetchManifest => DrmActionView::FetchManifest,
            DrmAction::ReadManifest => DrmActionView::ReadManifest,
            DrmAction::FetchInit(u) => DrmActionView::FetchInit(u@),
            DrmAction::AcquireLicense(p) => DrmActionView::AcquireLicense(p@),
            DrmAction::StartProxy { mpd_text, mpd_url } => DrmActionView::StartProxy {
                mpd_text: mpd_text@,
                mpd_url: mpd_url@,
            },
            DrmAction::Ready(u) => DrmActionView::Ready(u@),
            DrmAction::Fail(m) => DrmActionView::Fail(m@),
        }
    }
}

/// What is known of a `DrmStartup`.
pub struct StartupView {
    pub operator_pssh: Option<Seq<u8>>,
    pub mpd_url: Seq<char>,
    pub mpd_text: Seq<char>,
}

impl View for DrmStartup {
    type V = StartupView;

    open spec fn view(&self) -> StartupView {
        StartupView {
            operator_pssh: license::opt_bytes(self.operator_pssh),
            mpd_url: self.mpd_url@,
            mpd_text: self.mpd_text@,
        }
    }
}

/// What is done where the license request data are these.
pub open spec fn license_step(pssh: Option<Seq<u8>>) -> DrmActionView {
    match pssh {
        Some(p) => DrmActionView::AcquireLicense(p),
        None => DrmActionView::Fail("PSSH not found in init segment or MPD"@),
    }
}

/// What is known after a step, and what is done next.
pub open spec fn stepped(s: StartupView, event: DrmEvent) -> (StartupView, DrmActionView) {
    match event {
        DrmEvent::CdmOpened(Ok(())) => (s, DrmActionView::InitializeCdm),
        DrmEvent::CdmOpened(Err(e)) => (s, DrmActionView::Fail("CDM open failed: "@ + e@)),
        DrmEvent::CdmInitialized(Ok(())) => (s, DrmActionView::BuildClient),
        DrmEvent::CdmInitialized(Err(e)) => (s, DrmActionView::Fail("CDM init failed: "@ + e@)),
        DrmEvent::ClientBuilt(Ok(())) => (s, DrmActionView::FetchManifest),
        DrmEvent::ClientBuilt(Err(e)) => (
            s,
            DrmActionView::Fail("CDN client build failed: "@ + e@),
        ),
        DrmEvent::ManifestFetched(Ok(url)) => (
            StartupView { mpd_url: url@, ..s },
            DrmActionView::ReadManifest,
        ),
        DrmEvent::ManifestFetched(Err(e)) => (s, DrmActionView::Fail("MPD fetch failed: "@ + e@)),
        DrmEvent::ManifestRead(Ok(mpd)) => (
            StartupView { mpd_text: mpd@, ..s },
            match init_segment_url(mpd@, s.mpd_url) {
                Some(url) => DrmActionView::FetchInit(url),
                None => license_step(startup_pssh(None, s.operator_pssh, mpd@)),
            },
        ),
        DrmEvent::ManifestRead(Err(e)) => (s, DrmActionView::Fail("MPD read failed: "@ + e@)),
        DrmEvent::InitFetched(data) => (
            s,
            license_step(startup_pssh(license::opt_bytes(data), s.operator_pssh, s.mpd_text)),
        ),
        DrmEvent::Licensed(Ok(())) => (
            s,
            DrmActionView::StartProxy { mpd_text: s.mpd_text, mpd_url: s.mpd_url },
        ),
        DrmEvent::Licensed(Err(e)) => (
            s,
            DrmActionView::Fail("License exchange failed: "@ + e@),
        ),
        DrmEvent::ProxyStarted(Ok(url)) => (s, DrmActionView::Ready(url@)),
        DrmEvent::ProxyStarted(Err(e)) => (s, DrmActionView::Fail("Proxy start failed: "@ + e@)),
    }
}

impl DrmStartup {
    /// The first step: nothing can be done for a stream without protection data.
    pub fn begin(protection: Option<Option<Vec<u8>>>) -> (r: (Self, DrmAction))
        ensures
            r.0@ == (StartupView {
                operator_pssh: match protection {
                    Some(pssh) => license::opt_bytes(pssh),
                    None => None,
                },
                mpd_url: Seq::empty(),
                mpd_text: Seq::empty(),
            }),
            r.1@ == if protection is Some {
                DrmActionView::OpenCdm
            } else {
                DrmActionView::Fail("stream has no protection data"@)
            },
    {
        let (operator_pssh, action) = match protection {
            Some(pssh) => (pssh, DrmAction::OpenCdm),
            None => (None, DrmAction::Fail("stream has no protection data".to_owned())),
        };
        (
            DrmStartup { operator_pssh, mpd_url: String::new(), mpd_text: String::new() },
            action,
        )
    }

    /// What is done with this init segment.
    fn request_license(&self, init: &Option<Vec<u8>>) -> (r: DrmAction)
        ensures
            r@ == license_step(
                startup_pssh(license::opt_bytes(*init), self@.operator_pssh, self@.mpd_text),
            ),
    {
        match choose_startup_pssh(init, &self.operator_pssh, self.mpd_text.as_str()) {
            Some(p) => DrmAction::AcquireLicense(p),
            None => DrmAction::Fail("PSSH not found in init segment or MPD".to_owned()),
        }
    }

    /// Takes in what a step gave, and says what is done next.
    pub fn step(&mut self, event: DrmEvent) -> (r: DrmAction)
        ensures
            (final(self)@, r@) == stepped(old(self)@, event),
    {
        match event {
            DrmEvent::CdmOpened(Ok(())) => DrmAction::InitializeCdm,
            DrmEvent::CdmOpened(Err(e)) => DrmAction::Fail(
                text::joined("CDM open failed: ", e.as_str()),
            ),
            DrmEvent::CdmInitialized(Ok(())) => DrmAction::BuildClient,
            DrmEvent::CdmInitialized(Err(e)) => DrmAction::Fail(
                text::joined("CDM init failed: ", e.as_str()),
            ),
            DrmEvent::ClientBuilt(Ok(())) => DrmAction::FetchManifest,
            DrmEvent::ClientBuilt(Err(e)) => DrmAction::Fail(
                text::joined("CDN client build failed: ", e.as_str()),
            ),
            DrmEvent::ManifestFetched(Ok(url)) => {
                self.mpd_url = url;
                DrmAction::ReadManifest
            },
            DrmEvent::ManifestFetched(Err(e)) => DrmAction::Fail(
                text::joined("MPD fetch failed: ", e.as_str()),
            ),
            DrmEvent::ManifestRead(Ok(mpd)) => {
                self.mpd_text = mpd;
                match probe_init_segment_url(self.mpd_text.as_str(), self.mpd_url.as_str()) {
                    Some(url) => DrmAction::FetchInit(url),
                    None => self.request_license(&None),
                }
            },
            DrmEvent::ManifestRead(Err(e)) => DrmAction::Fail(
                text::joined("MPD read failed: ", e.as_str()),
            ),
            DrmEvent::InitFetched(data) => self.request_license(&data),
            DrmEvent::Licensed(Ok(())) => DrmAction::StartProxy {
                mpd_text: self.mpd_text.clone(),
                mpd_url: self.mpd_url.clone(),
            },
            DrmEvent::Licensed(Err(e)) => DrmAction::Fail(
                text::joined("License exchange failed: ", e.as_str()),
            ),
            DrmEvent::ProxyStarted(Ok(url)) => DrmAction::Ready(url),
            DrmEvent::ProxyStarted(Err(e)) => DrmAction::Fail(
                text::joined("Proxy start failed: ", e.as_str()),
            ),
        }
    }
}

/// The box that an init segment carries goes before what the operator gives, and that
/// before what the manifest holds.
pub proof fn init_segment_goes_first(
    init: Seq<u8>,
    operator: Seq<u8>,
    other: Option<Seq<u8>>,
    mpd: Seq<char>,
)
    ensures
        init::widevine_pssh(init) is Some ==> startup_pssh(Some(init), other, mpd)
            == init::widevine_pssh(init),
        init::widevine_pssh(init) is None ==> startup_pssh(Some(init), Some(operator), mpd)
            == Some(operator),
        startup_pssh(None, Some(operator), mpd) == Some(operator),
        startup_pssh(None, None, mpd) == license::mpd_pssh(mpd),
{
}

/// Decryption is set up in one order, each step once: opening and initialising the module,
/// building the client, fetching and reading the manifest, fetching an init segment where
/// one can be named, requesting a license, and starting the proxy.
pub proof fn startup_runs_in_order(
    s: StartupView,
    url: String,
    mpd: String,
    init: Option<Vec<u8>>,
    proxy: String,
)
    ensures
        stepped(s, DrmEvent::CdmOpened(Ok(()))).1 is InitializeCdm,
        stepped(s, DrmEvent::CdmInitialized(Ok(()))).1 is BuildClient,
        stepped(s, DrmEvent::ClientBuilt(Ok(()))).1 is FetchManifest,
        stepped(s, DrmEvent::ManifestFetched(Ok(url))).1 is ReadManifest,
        ({
            let fetched = stepped(s, DrmEvent::ManifestFetched(Ok(url))).0;
            let (read, next) = stepped(fetched, DrmEvent::ManifestRead(Ok(mpd)));
            let (held, asked) = stepped(read, DrmEvent::InitFetched(init));
            let (licensed, serve) = stepped(held, DrmEvent::Licensed(Ok(())));
            &&& match init_segment_url(mpd@, url@) {
                Some(u) => next == DrmActionView::FetchInit(u),
                None => next == license_step(startup_pssh(None, s.operator_pssh, mpd@)),
            }
            &&& asked == license_step(
                startup_pssh(license::opt_bytes(init), s.operator_pssh, mpd@),
            )
            &&& serve == (DrmActionView::StartProxy { mpd_text: mpd@, mpd_url: url@ })
            &&& stepped(licensed, DrmEvent::ProxyStarted(Ok(proxy))).1 == DrmActionView::Ready(
                proxy@,
            )
        }),
{
}

} // verus!
