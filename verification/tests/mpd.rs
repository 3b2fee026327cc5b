use frenchetv::mpd::{
    cdn_path_to_url, derive_init_url, extract_mpd_scheme, filter_high_bitrate_representations,
    remove_content_protection, resolve_relative_base_urls, rewrite_cdn_urls, CdnPathError,
};
use frenchetv::xml::{read_document, XmlEvent};

#[test]
fn protection_elements_are_removed() {
    let mpd = r#"<A><ContentProtection x="1"/><B/><ContentProtection y="2"><pssh>s</pssh></ContentProtection></A>"#;
    assert_eq!(remove_content_protection(mpd), "<A><B/></A>");
    // A child without content does not end its parent.
    let nested = r#"<A><ContentProtection y="2"><x/><pssh>s</pssh></ContentProtection><B/></A>"#;
    assert_eq!(remove_content_protection(nested), "<A><B/></A>");
    assert_eq!(remove_content_protection("<A></A>"), "<A></A>");
}

#[test]
fn the_scheme_of_a_manifest_is_found_in_any_case() {
    assert_eq!(extract_mpd_scheme(r#"<x value="cenc"/>"#), 1);
    assert_eq!(extract_mpd_scheme(r#"<x value="CBCS"/>"#), 2);
    assert_eq!(extract_mpd_scheme("<x value='cbcs'/>"), 2);
    assert_eq!(extract_mpd_scheme("cbcs"), 1);
}

#[test]
fn base_urls_become_absolute() {
    let base = "https://cdn.example/live/ch1/manifest.mpd";
    assert_eq!(
        resolve_relative_base_urls("<BaseURL>dash/</BaseURL>", base),
        "<BaseURL>https://cdn.example/live/ch1/dash/</BaseURL>"
    );
    let absolute = r#"<BaseURL serviceLocation="a">https://other/</BaseURL>"#;
    assert_eq!(resolve_relative_base_urls(absolute, base), absolute);
    assert_eq!(resolve_relative_base_urls("<BaseURL>dash", base), "<BaseURL>dash");
}

#[test]
fn urls_go_through_the_proxy_and_back() {
    let proxied = rewrite_cdn_urls("<B>https://a/b http://c/d</B>", "http://127.0.0.1:9/cdn/");
    assert_eq!(
        proxied,
        "<B>http://127.0.0.1:9/cdn/https/a/b http://127.0.0.1:9/cdn/http/c/d</B>"
    );
    assert_eq!(cdn_path_to_url("https/a/b?c=d").unwrap(), "https://a/b?c=d");
    assert_eq!(cdn_path_to_url("http/c/d").unwrap(), "http://c/d");
    assert!(matches!(
        cdn_path_to_url("ftp/c/d"),
        Err(CdnPathError::Unrecognised(p)) if p == "ftp/c/d"
    ));
}

#[test]
fn a_rewritten_manifest_names_this_machine_only() {
    let mpd = "<A>https://a/</A><B>http://b/</B><C x='httphttps://s://'/>http://127.0.0.1:8/";
    let out = rewrite_cdn_urls(mpd, "http://127.0.0.1:9/cdn/");
    assert!(!out.contains("https://"), "{out}");
    let places: Vec<usize> = out.match_indices("http://").map(|(i, _)| i).collect();
    assert_eq!(places.len(), 4);
    assert!(places.iter().all(|i| out[*i..].starts_with("http://127.0.0.1")), "{out}");
}

#[test]
fn the_init_segment_has_the_name_without_the_number() {
    assert_eq!(
        derive_init_url("https://x/ch1-video=457600-12345.dash?tok=a"),
        Some("https://x/ch1-video=457600.dash?tok=a".to_string())
    );
    assert_eq!(derive_init_url("https://x/a-b-007.dash").as_deref(), Some("https://x/a-b.dash"));
    assert_eq!(derive_init_url("https://x/ch1-video.mp4"), None);
}

#[test]
fn fast_representations_are_dropped() {
    let mpd = r#"<Representation id="a" bandwidth="100"/><Representation id="b" bandwidth="300"></Representation><Representation id="c"/>"#;
    assert_eq!(
        filter_high_bitrate_representations(mpd, 200),
        r#"<Representation id="a" bandwidth="100"/><Representation id="c"/>"#
    );
    assert_eq!(filter_high_bitrate_representations(mpd, 300), mpd);
}

#[test]
fn a_document_is_read_event_by_event() {
    let document = r#"<a k="1 &amp; 2"><b/>x &lt; y</a>"#;
    let steps = read_document(document);
    assert_eq!(steps.len(), 4);
    match &steps[0].event {
        XmlEvent::Tag { empty, name, attrs } => {
            assert!(!empty);
            assert_eq!(name, "a");
            assert_eq!(attrs[0].key, "k");
            assert_eq!(attrs[0].raw, "1 &amp; 2");
            assert_eq!(attrs[0].unescaped.as_deref(), Some("1 & 2"));
        }
        other => panic!("{other:?}"),
    }
    assert_eq!((steps[0].start, steps[0].end), (0, 17));
    assert!(matches!(&steps[1].event, XmlEvent::Tag { empty: true, name, .. } if name == "b"));
    assert!(matches!(&steps[2].event, XmlEvent::Text(Some(t)) if t == "x < y"));
    assert!(matches!(&steps[3].event, XmlEvent::End(name) if name == "a"));
    assert_eq!(steps[3].end, document.len() as u64);

    let broken = read_document("<a><b></a>");
    assert!(matches!(broken.last().unwrap().event, XmlEvent::Malformed));
}
