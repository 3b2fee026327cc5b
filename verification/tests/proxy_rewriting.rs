use frenchetv::mpd::{cdn_path_to_url, extract_cdn_hosts};
use frenchetv::numbers::{
    derive_and_rewrite_audio_number_mappings, number_route_to_cdn_path, NumberMapping,
    NumberMappings,
};
use frenchetv::proxy::{
    ensure_allowed_host, rewrite_mpd, segment_cache_get, segment_cache_put, SegmentCache,
    SEGMENT_CACHE_TTL,
};
use frenchetv::text_map::TextSet;

fn hosts(entries: &[&str]) -> TextSet {
    let mut set = TextSet::new();
    for entry in entries {
        set.insert(entry);
    }
    set
}

#[test]
fn test_segment_cache_miss_then_hit() {
    let mut cache = SegmentCache::new();
    assert!(segment_cache_get(&mut cache, "p", 5).is_none());
    segment_cache_put(&mut cache, "p", vec![1, 2, 3], 5);
    assert_eq!(
        segment_cache_get(&mut cache, "p", 6),
        Some(vec![1, 2, 3])
    );
}

#[test]
fn test_segment_cache_distinct_paths_dont_collide() {
    let mut cache = SegmentCache::new();
    segment_cache_put(&mut cache, "a", vec![1], 7);
    segment_cache_put(&mut cache, "b", vec![2], 7);
    assert_eq!(segment_cache_get(&mut cache, "a", 7), Some(vec![1]));
    assert_eq!(segment_cache_get(&mut cache, "b", 7), Some(vec![2]));
}

#[test]
fn test_segment_cache_expires_after_ttl() {
    let mut cache = SegmentCache::new();
    segment_cache_put(&mut cache, "p", vec![1], 0);
    let past = SEGMENT_CACHE_TTL + 1_000_000_000;
    assert!(segment_cache_get(&mut cache, "p", past).is_none());
}

#[test]
fn test_ensure_allowed_host_matches() {
    let real_url = "https://cdnfr.orange.fr/live/ch1/seg-1.dash";
    assert!(ensure_allowed_host(real_url, &hosts(&["https://cdnfr.orange.fr"])).is_ok());
}

#[test]
fn test_ensure_allowed_host_case_insensitive() {
    let real_url = "https://CDNfr.orange.fr/live/ch1/seg-1.dash";
    assert!(ensure_allowed_host(real_url, &hosts(&["https://cdnfr.orange.fr"])).is_ok());
}

#[test]
fn test_ensure_allowed_host_rejects_disallowed_host() {
    // A host that the manifest does not name is refused.
    let real_url = "https://evil.example/steal";
    assert!(ensure_allowed_host(real_url, &hosts(&["https://cdnfr.orange.fr"])).is_err());
}

#[test]
fn test_ensure_allowed_host_rejects_unparseable_url() {
    assert!(ensure_allowed_host("not a url", &hosts(&["https://cdnfr.orange.fr"])).is_err());
}

#[test]
fn test_ensure_allowed_host_supports_multi_cdn_failover() {
    // Broadpeak-style multi-CDN manifests list more than one host; both
    // must be dialable, not just whichever one the fetch URL used.
    let allowed = hosts(&["https://cdnfr.orange.fr", "https://cdn2fr.orange.fr"]);
    assert!(ensure_allowed_host("https://cdnfr.orange.fr/a.dash", &allowed).is_ok());
    assert!(ensure_allowed_host("https://cdn2fr.orange.fr/b.dash", &allowed).is_ok());
}

#[test]
fn test_ensure_allowed_host_pins_scheme() {
    // A host the manifest only ever referenced over https must not be
    // dialable over plain http — that would replay cdn_headers (the
    // session cookie) in cleartext.
    let allowed = hosts(&["https://cdnfr.orange.fr"]);
    assert!(ensure_allowed_host("http://cdnfr.orange.fr/a.dash", &allowed).is_err());
}

#[test]
fn test_extract_cdn_hosts_multiple_base_urls() {
    let mpd = r#"<MPD>
            <BaseURL serviceLocation="cdn1">https://cdnfr.orange.fr/live/ch1/</BaseURL>
            <BaseURL serviceLocation="cdn2">https://cdn2fr.orange.fr/live/ch1/</BaseURL>
        </MPD>"#;
    let found = extract_cdn_hosts(mpd);
    let mut names = found.names();
    names.sort();
    assert_eq!(names, vec!["https://cdn2fr.orange.fr".to_string(), "https://cdnfr.orange.fr".to_string()]);
}

#[test]
fn test_rewrite_mpd_allowlist_falls_back_to_fetch_host_when_no_absolute_urls() {
    // A manifest with only relative SegmentTemplate paths has no
    // scheme://host substrings at all — the fetch URL's own host must
    // still end up in the allowlist, or every segment 403s.
    let mpd = r#"<MPD><SegmentTemplate media="seg-$Number$.dash" /></MPD>"#;
    let mut mappings = NumberMappings::new();
    let (_, found) = rewrite_mpd(
        mpd,
        "https://cdnfr.orange.fr/live/ch1/manifest.mpd",
        12345,
        &mut mappings,
    );
    assert!(found.contains("https://cdnfr.orange.fr"));
}

// ── $Number$-based audio addressing ─────────────────────────────────────

fn sample_mpd(audio_t: u64) -> String {
    format!(
        r#"<MPD>
  <BaseURL>https://cdn.example.fr/live/ch1/dash/</BaseURL>
  <Period>
    <AdaptationSet contentType="audio" mimeType="audio/mp4">
      <SegmentTemplate timescale="48000"
                        initialization="ch1-$RepresentationID$.dash?tok=abc"
                        media="ch1-$RepresentationID$-$Time$.dash?tok=abc">
        <SegmentTimeline>
          <S t="{audio_t}" d="92160" r="15"/>
        </SegmentTimeline>
      </SegmentTemplate>
      <Representation id="audio_fra=104000" bandwidth="104000"></Representation>
      <Representation id="audio_qaa=104000" bandwidth="104000"></Representation>
    </AdaptationSet>
    <AdaptationSet contentType="video" mimeType="video/mp4">
      <SegmentTemplate timescale="600"
                        initialization="ch1-$RepresentationID$.dash?tok=abc"
                        media="ch1-$RepresentationID$-$Time$.dash?tok=abc">
        <SegmentTimeline>
          <S t="1000000" d="1152" r="15"/>
        </SegmentTimeline>
      </SegmentTemplate>
      <Representation id="video=457600" bandwidth="457600"></Representation>
    </AdaptationSet>
  </Period>
</MPD>"#
    )
}

#[test]
fn test_number_mapping_replaces_audio_segment_template_only() {
    let mut mappings = NumberMappings::new();
    let out =
        derive_and_rewrite_audio_number_mappings(&sample_mpd(85_000_000_000_000), &mut mappings);

    assert!(out.contains("media=\"/cdnnum/$RepresentationID$/$Number$\""));
    // The audio <S> entry is gone (video's, checked below, legitimately
    // still has one — "SegmentTimeline" alone isn't a safe substring to
    // assert absent, since video keeps its own untouched).
    assert!(
        !out.contains(r#"<S t="85000000000000""#),
        "audio timeline entry should be gone: {out}"
    );
    // Video's SegmentTemplate/SegmentTimeline must be untouched.
    assert!(out.contains(r#"media="ch1-$RepresentationID$-$Time$.dash?tok=abc""#));
    assert!(out.contains(r#"<S t="1000000" d="1152" r="15"/>"#));
    // initialization stays as the original CDN pattern (unchanged, still
    // routed through the existing /cdn/ passthrough).
    assert!(out.contains(r#"initialization="ch1-$RepresentationID$.dash?tok=abc""#));
}

#[test]
fn test_number_mapping_established_and_reused_across_refreshes() {
    let mut mappings = NumberMappings::new();
    let epoch_t = 85_000_000_000_000u64;

    let first = derive_and_rewrite_audio_number_mappings(&sample_mpd(epoch_t), &mut mappings);
    assert!(
        first.contains(r#"startNumber="1""#),
        "first window: {first}"
    );

    // 2 segments later (t advances by 2 * 92160).
    let second =
        derive_and_rewrite_audio_number_mappings(&sample_mpd(epoch_t + 2 * 92160), &mut mappings);
    assert!(
        second.contains(r#"startNumber="3""#),
        "second window: {second}"
    );

    let stored = &mappings;
    let m = stored.get("audio_fra=104000").expect("mapping established");
    assert_eq!(m.epoch_t, epoch_t, "epoch must stay fixed once established");
    assert_eq!(m.duration, 92160);
}

#[test]
fn test_number_mapping_falls_back_when_duration_changes() {
    let mut mappings = NumberMappings::new();
    let epoch_t = 85_000_000_000_000u64;
    let _ = derive_and_rewrite_audio_number_mappings(&sample_mpd(epoch_t), &mut mappings);

    // Simulate a duration change (e.g. an SCTE ad-break splice) on the
    // next refresh — same shape, different `d`.
    let changed = sample_mpd(epoch_t + 92160).replace(r#"d="92160""#, r#"d="48000""#);
    let out = derive_and_rewrite_audio_number_mappings(&changed, &mut mappings);

    // Falls back to passthrough: original SegmentTimeline preserved,
    // no /cdnnum/ rewrite for this refresh.
    assert!(!out.contains("/cdnnum/"), "should not rewrite: {out}");
    assert!(out.contains("SegmentTimeline"));

    // The stored mapping is untouched by the failed attempt.
    let stored = &mappings;
    assert_eq!(stored.get("audio_fra=104000").unwrap().duration, 92160);
}

#[test]
fn test_number_mapping_falls_back_on_multiple_s_entries() {
    let mut mappings = NumberMappings::new();
    let mpd = sample_mpd(85_000_000_000_000).replace(
        r#"<S t="85000000000000" d="92160" r="15"/>"#,
        r#"<S t="85000000000000" d="92160" r="7"/><S t="85000000737280" d="92160" r="7"/>"#,
    );
    let out = derive_and_rewrite_audio_number_mappings(&mpd, &mut mappings);
    assert!(
        !out.contains("/cdnnum/"),
        "multi-run timeline should pass through: {out}"
    );
    assert!(mappings.is_empty());
}

#[test]
fn test_number_mapping_round_trips_through_dispatch_route() {
    let mut mappings = NumberMappings::new();
    let epoch_t = 85_000_000_000_000u64;
    derive_and_rewrite_audio_number_mappings(&sample_mpd(epoch_t), &mut mappings);

    // Segment number 3 → t = epoch_t + 2*duration.
    let cdn_path = number_route_to_cdn_path("audio_fra=104000/3", &mappings)
        .expect("mapping exists for this repid");
    assert_eq!(
        cdn_path,
        format!(
            "https/cdn.example.fr/live/ch1/dash/ch1-audio_fra=104000-{}.dash?tok=abc",
            epoch_t + 2 * 92160
        )
    );
}

#[test]
fn a_numbered_segment_keeps_its_scheme() {
    let mut mappings = NumberMappings::new();
    let mpd = sample_mpd(1000).replace("https://", "http://");
    derive_and_rewrite_audio_number_mappings(&mpd, &mut mappings);
    let cdn_path = number_route_to_cdn_path("audio_fra=104000/1", &mappings).unwrap();
    assert_eq!(cdn_path, "http/cdn.example.fr/live/ch1/dash/ch1-audio_fra=104000-1000.dash?tok=abc");
}

#[test]
fn test_number_route_to_cdn_path_unknown_repid_is_none() {
    let mappings = NumberMappings::new();
    assert!(number_route_to_cdn_path("nonexistent=1/1", &mappings).is_none());
}

#[test]
fn test_number_mapping_time_and_number_round_trip() {
    let m = NumberMapping {
        duration: 92160,
        epoch_t: 1000,
        media_pattern: "https://x/$RepresentationID$-$Time$".to_string(),
    };
    assert_eq!(m.time_for_number(1), 1000);
    assert_eq!(m.time_for_number(2), 1000 + 92160);
    assert_eq!(m.number_for_time(1000), 1);
    assert_eq!(m.number_for_time(1000 + 92160), 2);
    assert_eq!(m.number_for_time(1000 + 92160 + 1), 2); // rounds down
    assert_eq!(
        m.resolve_url("audio_fra=104000", 3),
        format!("https://x/audio_fra=104000-{}", 1000 + 2 * 92160)
    );
}

#[test]
fn every_url_of_a_rewritten_manifest_passes_the_host_check() {
    let mpd = r#"<MPD><BaseURL>https://CDN-a.example.com/live/</BaseURL>
<Location>http://cdn.b.example/x?y=1</Location>
<AdaptationSet contentType="audio"><SegmentTemplate timescale="48000" initialization="https://cdn-c.example/i" media="a-$Time$.dash"><SegmentTimeline><S t="96000" d="96000" r="3"/></SegmentTimeline></SegmentTemplate><Representation id="a1" bandwidth="96000"/></AdaptationSet>
<AdaptationSet><Representation bandwidth="9000000"><BaseURL>https://cdn.d.example/</BaseURL></Representation></AdaptationSet></MPD>"#;
    let base_url = "https://fetch.example/ch1/manifest.mpd";
    let mut mappings = NumberMappings::new();
    let (text, hosts) = rewrite_mpd(mpd, base_url, 4321, &mut mappings);
    assert!(text.contains("/cdnnum/"), "{text}");
    assert!(!text.contains("https://"), "{text}");
    let base = "http://127.0.0.1:4321/cdn/";
    let urls: Vec<&str> = text
        .match_indices("http://")
        .map(|(at, _)| {
            let rest = &text[at..];
            let end = rest.find(|c: char| c.is_whitespace() || "\"'<>".contains(c));
            &rest[..end.unwrap_or(rest.len())]
        })
        .collect();
    assert_eq!(urls.len(), 3);
    for url in urls {
        let path = url.strip_prefix(base).expect("a URL of the proxy");
        let real = cdn_path_to_url(path).expect("a path of the proxy");
        ensure_allowed_host(&real, &hosts).expect("an allowed host");
    }
    assert!(ensure_allowed_host(base_url, &hosts).is_ok());
    assert!(ensure_allowed_host("https://elsewhere.example/", &hosts).is_err());
}

#[test]
fn only_the_template_of_an_audio_set_is_replaced() {
    let template = r#"<SegmentTemplate timescale="48000" initialization="i&amp;x" media="a-$Time$.dash"><SegmentTimeline><S t="96000" d="96000" r="3"/></SegmentTimeline></SegmentTemplate>"#;
    let manifest = |audio: &str| {
        format!(
            r#"<MPD><BaseURL>https://h/</BaseURL><AdaptationSet mimeType="video/mp4">{template}<Representation id="v"/></AdaptationSet>
<AdaptationSet mimeType="audio/mp4">é {audio} é<Representation id="a"/></AdaptationSet><!-- end --></MPD>"#
        )
    };
    let mut mappings = NumberMappings::new();
    let out = derive_and_rewrite_audio_number_mappings(&manifest(template), &mut mappings);
    let by_number = r#"<SegmentTemplate timescale="48000" initialization="i&amp;x" media="/cdnnum/$RepresentationID$/$Number$" duration="96000" startNumber="1"/>"#;
    assert_eq!(out, manifest(by_number));
    // What is not well-formed comes back as it is, though the set before was understood.
    let broken = format!("{}</oops>", manifest(template));
    assert_eq!(derive_and_rewrite_audio_number_mappings(&broken, &mut mappings), broken);
}

#[test]
fn urls_of_a_manifest_with_relative_parts_pass_the_host_check() {
    let mpd = r#"<MPD><BaseURL> dash/ </BaseURL><X><ContentProtection schemeIdUri="https://gone.example/"/></X>
<BaseURL>http://other.example/y</BaseURL><Y href="https://third.example/z"/></MPD>"#;
    let base_url = "https://fetch.example/ch1/manifest.mpd?q=1";
    let mut mappings = NumberMappings::new();
    let (text, hosts) = rewrite_mpd(mpd, base_url, 80, &mut mappings);
    assert_eq!(
        text,
        r#"<MPD><BaseURL>http://127.0.0.1:80/cdn/https/fetch.example/ch1/dash/</BaseURL><X></X>
<BaseURL>http://127.0.0.1:80/cdn/http/other.example/y</BaseURL><Y href="http://127.0.0.1:80/cdn/https/third.example/z"/></MPD>"#
    );
    for real in [
        "https://fetch.example/ch1/dash/",
        "http://other.example/y",
        "https://third.example/z",
        base_url,
    ] {
        assert!(ensure_allowed_host(real, &hosts).is_ok(), "{real}");
    }
    assert!(ensure_allowed_host("https://gone.example/", &hosts).is_err());
}
