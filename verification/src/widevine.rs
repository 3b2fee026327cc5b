//! Where the Widevine module comes from and where it is kept.

use crate::bytes;
use crate::bytes::read_le32;
use crate::license;
use crate::text;
use crate::text::{chars_of, has_suffix, push_text, same_text, text_of};
use vstd::prelude::*;

verus! {

// ---------------------------------------------------------------------------
// Paths
// ---------------------------------------------------------------------------

/// A path with one more component.
pub open spec fn joined(base: Seq<char>, name: Seq<char>) -> Seq<char> {
    if base.len() == 0 || base.last() == '/' {
        base + name
    } else {
        base + "/"@ + name
    }
}

fn join(base: &str, name: &str) -> (r: String)
    ensures
        r@ == joined(base@, name@),
{
    let mut out = chars_of(base);
    if out.len() > 0 && out[out.len() - 1] != '/' {
        push_text(&mut out, "/");
    }
    push_text(&mut out, name);
    text_of(out.as_slice())
}

/// The directory for the user's data: the one that the system names, or else the
/// home directory, or else none.
pub fn data_dir(local: Option<String>, home: Option<String>) -> (r: String)
    ensures
        r@ == match (local, home) {
            (Some(d), _) => d@,
            (None, Some(h)) => h@,
            (None, None) => Seq::empty(),
        },
{
    match local {
        Some(d) => d,
        None => match home {
            Some(h) => h,
            None => {
                let s = String::new();
                assert(s@ =~= Seq::empty());
                s
            },
        },
    }
}

/// The directory of the module inside the user's data directory.
pub fn dir(data: &str) -> (r: String)
    ensures
        r@ == joined(joined(data@, "frenchetv"@), "widevine"@),
{
    let app = join(data, "frenchetv");
    join(app.as_str(), "widevine")
}

/// The path of the module inside the user's data directory.
pub fn cdm_path(data: &str) -> (r: String)
    ensures
        r@ == joined(
            joined(joined(data@, "frenchetv"@), "widevine"@),
            "libwidevinecdm.so"@,
        ),
{
    let d = dir(data);
    join(d.as_str(), "libwidevinecdm.so")
}

// ---------------------------------------------------------------------------
// Download
// ---------------------------------------------------------------------------

/// The name of a machine architecture in a download request.
pub open spec fn arch_name(arch: Seq<char>) -> Seq<char> {
    if arch == "aarch64"@ {
        "arm64"@
    } else {
        "x64"@
    }
}

/// The other name of a machine architecture in a download request.
pub open spec fn nacl_name(arch: Seq<char>) -> Seq<char> {
    if arch == "aarch64"@ {
        "arm64"@
    } else {
        "x86-64"@
    }
}

fn arch_tag(arch: &str) -> (r: &'static str)
    ensures
        r@ == arch_name(arch@),
{
    if same_text(arch, "aarch64") {
        "arm64"
    } else {
        "x64"
    }
}

fn nacl_arch(arch: &str) -> (r: &'static str)
    ensures
        r@ == nacl_name(arch@),
{
    if same_text(arch, "aarch64") {
        "arm64"
    } else {
        "x86-64"
    }
}

/// The URL that the module is downloaded from. The server picks the version.
pub fn download_url(arch: &str) -> (r: String)
    ensures
        r@
            == "https://clients2.google.com/service/update2/crx?response=redirect&acceptformat=crx3&prodversion=110.0.5481.100&arch="@
            + arch_name(arch@) + "&nacl_arch="@ + nacl_name(arch@)
            + "&os=linux&x=id%3Doimompecagnajdejgnnjijobebaeigek%26v%3D0.0.0.0%26uc"@,
{
    let mut out = chars_of(
        "https://clients2.google.com/service/update2/crx?response=redirect&acceptformat=crx3&prodversion=110.0.5481.100&arch=",
    );
    push_text(&mut out, arch_tag(arch));
    push_text(&mut out, "&nacl_arch=");
    push_text(&mut out, nacl_arch(arch));
    push_text(&mut out, "&os=linux&x=id%3Doimompecagnajdejgnnjijobebaeigek%26v%3D0.0.0.0%26uc");
    text_of(out.as_slice())
}

/// The user agent that asks for the download.
pub fn download_agent(arch: &str) -> (r: String)
    ensures
        r@ == "Mozilla/5.0 (X11; Linux "@ + arch@ + ") AppleWebKit/537.36 Chrome/110.0.5481.100"@,
{
    let mut out = chars_of("Mozilla/5.0 (X11; Linux ");
    push_text(&mut out, arch);
    push_text(&mut out, ") AppleWebKit/537.36 Chrome/110.0.5481.100");
    text_of(out.as_slice())
}

// ---------------------------------------------------------------------------
// The package
// ---------------------------------------------------------------------------

/// Why the module cannot be taken out of a package.
#[derive(Debug, PartialEq, Eq, Structural, Clone, Copy)]
pub enum CdmError {
    /// The package does not start as one.
    NotCrx,
    /// The package has another version.
    UnsupportedVersion(u32),
    HeaderTruncated,
    /// The package holds no archive that can be read.
    BadArchive,
    /// A member of the archive cannot be opened; its index.
    BadEntry(usize),
    /// The module is there and cannot be read.
    Unreadable,
    /// The module is not there.
    NotFound,
}

impl CdmError {
    /// What is shown of the error.
    pub open spec fn text(self) -> Seq<char> {
        match self {
            CdmError::NotCrx => "not a CRX3 file (wrong magic)"@,
            CdmError::UnsupportedVersion(v) => "unsupported CRX version "@ + text::decimal(v as nat)
                + "; expected 3"@,
            CdmError::HeaderTruncated => "CRX header truncated"@,
            CdmError::BadArchive => "parsing inner ZIP"@,
            CdmError::BadEntry(_) => "reading inner ZIP"@,
            CdmError::Unreadable => "extracting libwidevinecdm.so"@,
            CdmError::NotFound => "libwidevinecdm.so not found inside CRX/ZIP"@,
        }
    }

    /// What is shown of the error.
    pub fn message(&self) -> (r: String)
        ensures
            r@ == self.text(),
    {
        match self {
            CdmError::NotCrx => "not a CRX3 file (wrong magic)".to_owned(),
            CdmError::UnsupportedVersion(v) => {
                let mut out: Vec<char> = text::chars_of("unsupported CRX version ");
                text::push_number(&mut out, *v as u64);
                text::push_text(&mut out, "; expected 3");
                text::text_of(out.as_slice())
            },
            CdmError::HeaderTruncated => "CRX header truncated".to_owned(),
            CdmError::BadArchive => "parsing inner ZIP".to_owned(),
            CdmError::BadEntry(_) => "reading inner ZIP".to_owned(),
            CdmError::Unreadable => "extracting libwidevinecdm.so".to_owned(),
            CdmError::NotFound => "libwidevinecdm.so not found inside CRX/ZIP".to_owned(),
        }
    }
}

/// The archive inside a package: behind `Cr24`, version 3, the size of a header and
/// the header itself.
pub open spec fn crx_archive(crx: Seq<u8>) -> Result<Seq<u8>, CdmError> {
    if crx.len() < 12 || crx.take(4) != seq![0x43u8, 0x72, 0x32, 0x34] {
        Err(CdmError::NotCrx)
    } else if bytes::le32(crx, 4) != 3 {
        Err(CdmError::UnsupportedVersion(bytes::le32(crx, 4) as u32))
    } else if 12 + bytes::le32(crx, 8) >= crx.len() {
        Err(CdmError::HeaderTruncated)
    } else {
        Ok(crx.skip(12 + bytes::le32(crx, 8)))
    }
}

/// Finds the archive inside a package.
pub fn crx_payload(crx: &[u8]) -> (r: Result<&[u8], CdmError>)
    ensures
        match r {
            Ok(s) => crx_archive(crx@) == Ok::<Seq<u8>, CdmError>(s@),
            Err(e) => crx_archive(crx@) == Err::<Seq<u8>, CdmError>(e),
        },
{
    if crx.len() < 12 {
        return Err(CdmError::NotCrx);
    }
    let magic: [u8; 4] = [0x43, 0x72, 0x32, 0x34];
    let start = vstd::slice::slice_subrange(crx, 0, 4);
    proof {
        assert(magic@ =~= seq![0x43u8, 0x72, 0x32, 0x34]);
        assert(start@ =~= crx@.take(4));
    }
    if !bytes::same_bytes(start, magic.as_slice()) {
        return Err(CdmError::NotCrx);
    }
    let version: u32 = read_le32(crx, 4);
    if version != 3 {
        return Err(CdmError::UnsupportedVersion(version));
    }
    let header: u64 = read_le32(crx, 8) as u64;
    if 12 + header >= crx.len() as u64 {
        return Err(CdmError::HeaderTruncated);
    }
    let s = vstd::slice::slice_subrange(crx, (12 + header) as usize, crx.len());
    assert(s@ =~= crx@.skip(12 + header));
    Ok(s)
}

/// The number of members of a ZIP archive, if it is one.
pub uninterp spec fn zip_count(archive: Seq<u8>) -> Option<usize>;

/// The name of a member of a ZIP archive, if it can be opened.
pub uninterp spec fn zip_name(archive: Seq<u8>, i: usize) -> Option<Seq<char>>;

/// The unpacked bytes of a member of a ZIP archive, if it can be read.
pub uninterp spec fn zip_content(archive: Seq<u8>, i: usize) -> Option<Seq<u8>>;

/// `ZipArchive::new` opens an archive, and fails on bytes that are none; `ZipArchive::len` is
/// the number of its members. Both depend on the bytes alone.
#[verifier::external_body]
fn read_zip_count(archive: &[u8]) -> (r: Option<usize>)
    ensures
        r == zip_count(archive@),
{
    let opened = zip::ZipArchive::new(std::io::Cursor::new(archive)).ok()?;
    Some(opened.len())
}

/// `ZipArchive::by_index` opens a member of an archive, and `ZipFile::name` is its name.
/// Whether there is one, and which, depends on the bytes and the index alone.
#[verifier::external_body]
fn read_zip_name(archive: &[u8], i: usize) -> (r: Option<String>)
    ensures
        text::opt_text(r) == zip_name(archive@, i),
{
    let mut opened = zip::ZipArchive::new(std::io::Cursor::new(archive)).ok()?;
    let entry = opened.by_index(i).ok()?;
    Some(entry.name().to_string())
}

/// `ZipArchive::by_index` opens a member of an archive, which is then read to its end.
/// Whether that succeeds, and the bytes, depend on the archive and the index alone.
#[verifier::external_body]
fn read_zip_content(archive: &[u8], i: usize) -> (r: Option<Vec<u8>>)
    ensures
        license::opt_bytes(r) == zip_content(archive@, i),
{
    let mut opened = zip::ZipArchive::new(std::io::Cursor::new(archive)).ok()?;
    let mut entry = opened.by_index(i).ok()?;
    let mut out = Vec::new();
    std::io::copy(&mut entry, &mut out).ok()?;
    Some(out)
}

/// Whether a member is the module.
pub open spec fn is_module(name: Seq<char>) -> bool {
    text::ends_with(name, "libwidevinecdm.so"@)
}

/// The first member from `i` on that is the module, unless one before it cannot be
/// opened.
pub open spec fn module_from(names: Seq<Option<Seq<char>>>, i: int) -> Result<int, CdmError>
    decreases names.len() - i,
{
    if i >= names.len() {
        Err(CdmError::NotFound)
    } else {
        match names[i] {
            None => Err(CdmError::BadEntry(i as usize)),
            Some(name) => if is_module(name) {
                Ok(i)
            } else {
                module_from(names, i + 1)
            },
        }
    }
}

/// Finds the module among the names of an archive's members.
pub fn find_module(names: &Vec<Option<String>>) -> (r: Result<usize, CdmError>)
    ensures
        match r {
            Ok(i) => module_from(names@.map_values(|n: Option<String>| text::opt_text(n)), 0) == Ok::<
                int,
                CdmError,
            >(i as int),
            Err(e) => module_from(names@.map_values(|n: Option<String>| text::opt_text(n)), 0)
                == Err::<int, CdmError>(e),
        },
{
    let ghost views = names@.map_values(|n: Option<String>| text::opt_text(n));
    let mut i: usize = 0;
    while i < names.len()
        invariant
            i <= names@.len(),
            views == names@.map_values(|n: Option<String>| text::opt_text(n)),
            module_from(views, i as int) == module_from(views, 0),
        decreases names@.len() - i,
    {
        assert(views[i as int] == text::opt_text(names@[i as int]));
        match &names[i] {
            None => {
                return Err(CdmError::BadEntry(i));
            },
            Some(name) => {
                let name = chars_of(name.as_str());
                if has_suffix(name.as_slice(), "libwidevinecdm.so") {
                    return Ok(i);
                }
            },
        }
        i += 1;
    }
    Err(CdmError::NotFound)
}

/// The module inside an archive.
pub open spec fn module_in(archive: Seq<u8>) -> Result<Seq<u8>, CdmError> {
    match zip_count(archive) {
        None => Err(CdmError::BadArchive),
        Some(n) => match module_from(
            Seq::new(n as nat, |i: int| zip_name(archive, i as usize)),
            0,
        ) {
            Err(e) => Err(e),
            Ok(i) => match zip_content(archive, i as usize) {
                Some(data) => Ok(data),
                None => Err(CdmError::Unreadable),
            },
        },
    }
}

/// Takes the module out of a package.
pub fn extract_cdm_from_crx(crx: &[u8]) -> (r: Result<Vec<u8>, CdmError>)
    ensures
        match crx_archive(crx@) {
            Err(e) => r == Err::<Vec<u8>, CdmError>(e),
            Ok(archive) => match r {
                Ok(data) => module_in(archive) == Ok::<Seq<u8>, CdmError>(data@),
                Err(e) => module_in(archive) == Err::<Seq<u8>, CdmError>(e),
            },
        },
{
    let archive = match crx_payload(crx) {
        Ok(s) => s,
        Err(e) => return Err(e),
    };
    let count: usize = match read_zip_count(archive) {
        Some(n) => n,
        None => return Err(CdmError::BadArchive),
    };
    let mut names: Vec<Option<String>> = Vec::new();
    let mut i: usize = 0;
    while i < count
        invariant
            i <= count,
            names@.len() == i,
            forall|j: int|
                0 <= j < i ==> text::opt_text(#[trigger] names@[j]) == zip_name(
                    archive@,
                    j as usize,
                ),
        decreases count - i,
    {
        names.push(read_zip_name(archive, i));
        i += 1;
    }
    assert(names@.map_values(|n: Option<String>| text::opt_text(n)) =~= Seq::new(
        count as nat,
        |i: int| zip_name(archive@, i as usize),
    ));
    match find_module(&names) {
        Err(e) => Err(e),
        Ok(i) => match read_zip_content(archive, i) {
            Some(data) => Ok(data),
            None => Err(CdmError::Unreadable),
        },
    }
}

/// The four little-endian bytes of a number.
pub open spec fn le32_bytes(n: int) -> Seq<u8> {
    seq![
        (n % 0x100) as u8,
        (n / 0x100 % 0x100) as u8,
        (n / 0x1_0000 % 0x100) as u8,
        (n / 0x100_0000 % 0x100) as u8,
    ]
}

/// A package: `Cr24`, the version, the length of a header, the header, and the archive.
pub open spec fn package(version: u32, header: Seq<u8>, archive: Seq<u8>) -> Seq<u8> {
    seq![0x43u8, 0x72, 0x32, 0x34] + le32_bytes(version as int) + le32_bytes(header.len() as int)
        + header + archive
}

proof fn le32_is_read(s: Seq<u8>, at: int, n: int)
    requires
        0 <= at,
        at + 4 <= s.len(),
        0 <= n < 0x1_0000_0000,
        s.subrange(at, at + 4) == le32_bytes(n),
    ensures
        bytes::le32(s, at) == n,
{
    let w = s.subrange(at, at + 4);
    assert(w[0] == s[at] && w[1] == s[at + 1] && w[2] == s[at + 2] && w[3] == s[at + 3]);
    let n1 = n / 0x100;
    let n2 = n1 / 0x100;
    let n3 = n2 / 0x100;
    assert(n2 == n / 0x1_0000 && n3 == n / 0x100_0000);
    assert(n3 % 0x100 == n3);
}

/// The archive of a package of version 3 is found behind its header, whatever the header
/// holds; other versions are refused by their number.
pub proof fn archive_is_found_in_a_package(version: u32, header: Seq<u8>, archive: Seq<u8>)
    requires
        header.len() < 0x1_0000_0000,
        archive.len() > 0,
    ensures
        crx_archive(package(version, header, archive)) == if version == 3 {
            Ok::<Seq<u8>, CdmError>(archive)
        } else {
            Err(CdmError::UnsupportedVersion(version))
        },
{
    let s = package(version, header, archive);
    assert(s.take(4) =~= seq![0x43u8, 0x72, 0x32, 0x34]);
    assert(s.subrange(4, 8) =~= le32_bytes(version as int));
    assert(s.subrange(8, 12) =~= le32_bytes(header.len() as int));
    le32_is_read(s, 4, version as int);
    le32_is_read(s, 8, header.len() as int);
    assert(s.skip(12 + header.len() as int) =~= archive);
}

/// A package that ends before its archive starts is refused.
pub proof fn cut_off_package_is_refused(header: Seq<u8>, n: int)
    requires
        header.len() < 0x1_0000_0000,
        12 <= n <= 12 + header.len(),
    ensures
        crx_archive(package(3, header, Seq::empty()).take(n)) == Err::<Seq<u8>, CdmError>(
            CdmError::HeaderTruncated,
        ),
{
    let s = package(3, header, Seq::empty());
    let t = s.take(n);
    assert(t.take(4) =~= seq![0x43u8, 0x72, 0x32, 0x34]);
    assert(t.subrange(4, 8) =~= le32_bytes(3));
    assert(t.subrange(8, 12) =~= le32_bytes(header.len() as int));
    le32_is_read(t, 4, 3);
    le32_is_read(t, 8, header.len() as int);
}

/// The module is the first member with its file name, in whichever directory.
pub proof fn module_is_found_in_any_directory(
    names: Seq<Option<Seq<char>>>,
    k: int,
    dir: Seq<char>,
)
    requires
        0 <= k < names.len(),
        names[k] == Some(dir + "libwidevinecdm.so"@),
        forall|j: int|
            0 <= j < k ==> (#[trigger] names[j]) is Some && !is_module(names[j]->0),
    ensures
        module_from(names, 0) == Ok::<int, CdmError>(k),
{
    let file = "libwidevinecdm.so"@;
    assert((dir + file).skip(dir.len() as int) =~= file);
    members_passed_over(names, 0, k);
}

proof fn members_passed_over(names: Seq<Option<Seq<char>>>, i: int, k: int)
    requires
        0 <= i <= k <= names.len(),
        forall|j: int|
            0 <= j < k ==> (#[trigger] names[j]) is Some && !is_module(names[j]->0),
    ensures
        module_from(names, i) == module_from(names, k),
    decreases k - i,
{
    if i < k {
        assert(names[i] is Some);
        members_passed_over(names, i + 1, k);
    }
}

/// A member that cannot be opened stops the search, unless the module stands before it.
pub proof fn unreadable_member_stops_the_search(names: Seq<Option<Seq<char>>>, k: int)
    requires
        0 <= k < names.len(),
        names[k] is None,
        forall|j: int|
            0 <= j < k ==> (#[trigger] names[j]) is Some && !is_module(names[j]->0),
    ensures
        module_from(names, 0) == Err::<int, CdmError>(CdmError::BadEntry(k as usize)),
{
    members_passed_over(names, 0, k);
}

/// Without the module nothing is found.
pub proof fn missing_module_is_not_found(names: Seq<Option<Seq<char>>>)
    requires
        forall|j: int|
            0 <= j < names.len() ==> (#[trigger] names[j]) is Some && !is_module(names[j]->0),
    ensures
        module_from(names, 0) == Err::<int, CdmError>(CdmError::NotFound),
{
    members_passed_over(names, 0, names.len() as int);
}

/// What does not start as a package does is none.
pub proof fn other_files_are_no_packages(crx: Seq<u8>)
    requires
        crx.len() < 12 || crx[0] != 0x43 || crx[1] != 0x72 || crx[2] != 0x32 || crx[3] != 0x34,
    ensures
        crx_archive(crx) == Err::<Seq<u8>, CdmError>(CdmError::NotCrx),
{
    if crx.len() >= 12 {
        let m = seq![0x43u8, 0x72, 0x32, 0x34];
        let t = crx.take(4);
        assert(t[0] == crx[0] && t[1] == crx[1] && t[2] == crx[2] && t[3] == crx[3]);
        assert(m[0] == 0x43 && m[1] == 0x72 && m[2] == 0x32 && m[3] == 0x34);
    }
}

} // verus!
