use pi_core::error::Error;
use pi_core::extension_index::{
    is_stale_since, score_entry, seed_index, ArtifactProvenance, ArtifactProvenanceItem,
    ArtifactProvenanceSource, CacheRead, ExtensionIndex, ExtensionIndexEntry,
    ExtensionIndexSource, ExtensionIndexStore, DEFAULT_INDEX_MAX_AGE, EXTENSION_INDEX_SCHEMA,
    EXTENSION_INDEX_VERSION,
};
use pi_core::paths::Platform;
use pi_core::time::{is_older_than, Duration, UtcInstant};

fn entry(id: &str, name: &str, install: Option<&str>) -> ExtensionIndexEntry {
    ExtensionIndexEntry {
        id: id.to_string(),
        name: name.to_string(),
        description: None,
        tags: Vec::new(),
        license: None,
        source: None,
        install_source: install.map(str::to_string),
    }
}

fn index(entries: Vec<ExtensionIndexEntry>) -> ExtensionIndex {
    ExtensionIndex {
        schema: EXTENSION_INDEX_SCHEMA.to_string(),
        version: EXTENSION_INDEX_VERSION,
        generated_at: None,
        last_refreshed_at: None,
        entries,
    }
}

fn item(id: &str, name: &str, license: Option<&str>, source: ArtifactProvenanceSource) -> ArtifactProvenanceItem {
    ArtifactProvenanceItem {
        id: id.to_string(),
        name: name.to_string(),
        license: license.map(str::to_string),
        source,
    }
}

fn bundled() -> ArtifactProvenance {
    ArtifactProvenance {
        generated: Some("2026-02-01T00:00:00Z".to_string()),
        items: vec![
            item(
                "npm/Zeta",
                "zeta",
                Some("MIT"),
                ArtifactProvenanceSource::Npm {
                    package: "other-name".to_string(),
                    version: Some(" 1.2.0\n".to_string()),
                    url: Some("https://r.test/zeta.tgz".to_string()),
                },
            ),
            item(
                "npm/alpha",
                "alpha",
                Some("UNKNOWN"),
                ArtifactProvenanceSource::Npm {
                    package: "alpha".to_string(),
                    version: None,
                    url: None,
                },
            ),
            item(
                "git/beta",
                "beta",
                Some("  "),
                ArtifactProvenanceSource::Git {
                    repo: "https://g.test/beta".to_string(),
                    path: None,
                },
            ),
            item(
                "git/deep",
                "deep",
                None,
                ArtifactProvenanceSource::Git {
                    repo: "https://g.test/deep".to_string(),
                    path: Some("ext".to_string()),
                },
            ),
            item(
                "url/gamma",
                "gamma",
                None,
                ArtifactProvenanceSource::Url {
                    url: "https://u.test/gamma.js".to_string(),
                },
            ),
        ],
    }
}

#[test]
fn resolve_install_source_requires_unique_match() {
    let index = ExtensionIndex {
        schema: EXTENSION_INDEX_SCHEMA.to_string(),
        version: EXTENSION_INDEX_VERSION,
        generated_at: None,
        last_refreshed_at: None,
        entries: vec![
            ExtensionIndexEntry {
                id: "npm/foo".to_string(),
                name: "foo".to_string(),
                description: None,
                tags: Vec::new(),
                license: None,
                source: None,
                install_source: Some("npm:foo@1.0.0".to_string()),
            },
            ExtensionIndexEntry {
                id: "npm/foo-alt".to_string(),
                name: "foo".to_string(),
                description: None,
                tags: Vec::new(),
                license: None,
                source: None,
                install_source: Some("npm:foo@2.0.0".to_string()),
            },
        ],
    };

    assert_eq!(index.resolve_install_source("foo"), None);
    assert_eq!(
        index.resolve_install_source("npm/foo"),
        Some("npm:foo@1.0.0".to_string())
    );
}

#[test]
fn store_resolve_install_source_falls_back_to_seed() {
    let store = ExtensionIndexStore::new("this-file-does-not-exist".to_string());
    let resolved = store.resolve_install_source(CacheRead::Missing, Ok(bundled()), "checkpoint-pi");
    assert!(resolved.is_ok());
    assert_eq!(resolved.unwrap(), None);
    let resolved = store.resolve_install_source(CacheRead::Missing, Ok(bundled()), "BETA");
    assert_eq!(resolved.unwrap(), Some("git:https://g.test/beta".to_string()));
}

#[test]
fn resolution_goes_by_name_id_and_package() {
    let mut packaged = entry("x/1", "One", Some("npm:one"));
    packaged.source = Some(ExtensionIndexSource::Npm {
        package: "The-One".to_string(),
        version: None,
        url: None,
    });
    let ix = index(vec![packaged, entry("npm/Two", "2", Some("npm:two")), entry("x/3", "three", None)]);
    assert_eq!(ix.resolve_install_source(" ONE "), Some("npm:one".to_string()));
    assert_eq!(ix.resolve_install_source("X/1"), Some("npm:one".to_string()));
    assert_eq!(ix.resolve_install_source("the-one"), Some("npm:one".to_string()));
    assert_eq!(ix.resolve_install_source("two"), Some("npm:two".to_string()));
    assert_eq!(ix.resolve_install_source("three"), None);
    assert_eq!(ix.resolve_install_source("  "), None);
    assert_eq!(ix.resolve_install_source("four"), None);
}

#[test]
fn two_entries_with_one_install_source_are_not_ambiguous() {
    let ix = index(vec![entry("a", "foo", Some("npm:foo")), entry("b", "Foo", Some("npm:foo"))]);
    assert_eq!(ix.resolve_install_source("foo"), Some("npm:foo".to_string()));
}

#[test]
fn npm_prefix_of_an_id_keeps_its_case() {
    let ix = index(vec![entry("NPM/foo", "x", Some("npm:foo"))]);
    assert_eq!(ix.resolve_install_source("foo"), None);
    assert_eq!(ix.resolve_install_source("npm/FOO"), Some("npm:foo".to_string()));
}

#[test]
fn validation_names_what_is_unsupported() {
    let mut ix = index(Vec::new());
    assert_eq!(ix.validate(), Ok(()));
    ix.version = 20;
    assert_eq!(
        ix.validate(),
        Err(Error::Validation("Unsupported extension index version: 20".to_string()))
    );
    ix.schema = "pi.ext.index.v2".to_string();
    assert_eq!(
        ix.validate(),
        Err(Error::Validation("Unsupported extension index schema: pi.ext.index.v2".to_string()))
    );
}

#[test]
fn empty_index_is_made_now() {
    let ix = ExtensionIndex::new_empty();
    assert_eq!(ix.validate(), Ok(()));
    assert!(ix.entries.is_empty());
    assert!(ix.last_refreshed_at.is_none());
    let made = ix.generated_at.unwrap();
    assert!(chrono::DateTime::parse_from_rfc3339(&made).is_ok());
    assert_eq!(
        ExtensionIndex::empty_at("2026-01-01T00:00:00Z".to_string()).generated_at.as_deref(),
        Some("2026-01-01T00:00:00Z")
    );
}

#[test]
fn scores_add_up_over_fields_and_tokens() {
    let mut e = entry("npm/checkpoint", "Checkpoint", None);
    e.description = Some("Saves a checkpoint".to_string());
    e.tags = vec!["x".to_string(), "CHECKPOINTS".to_string()];
    let all = ["checkpoint".to_string()];
    assert_eq!(score_entry(&e, &all), 660);
    let two = ["checkpoint".to_string(), "npm".to_string()];
    assert_eq!(score_entry(&e, &two), 780);
    assert_eq!(score_entry(&e, &["saves".to_string()]), 60);
    assert_eq!(score_entry(&e, &["absent".to_string()]), 0);
}

#[test]
fn search_ranks_by_score_installability_name_and_id() {
    let mut described = entry("z", "zz", Some("npm:z"));
    described.description = Some("about foo".to_string());
    let ix = index(vec![
        described,
        entry("b", "foo B", None),
        entry("c", "FOO c", Some("npm:c")),
        entry("a2", "foo a", Some("npm:a")),
        entry("a1", "Foo A", Some("npm:a")),
        entry("q", "unrelated", Some("npm:q")),
    ]);
    let hits = ix.search("foo", 10);
    let ids: Vec<&str> = hits.iter().map(|h| h.entry.id.as_str()).collect();
    assert_eq!(ids, vec!["a1", "a2", "c", "b", "z"]);
    let scores: Vec<i64> = hits.iter().map(|h| h.score).collect();
    assert_eq!(scores, vec![300, 300, 300, 300, 60]);
}

#[test]
fn search_keeps_the_order_of_equal_entries() {
    let mut first = entry("same", "foo", None);
    first.license = Some("first".to_string());
    let mut second = entry("same", "foo", None);
    second.license = Some("second".to_string());
    let hits = index(vec![first, second]).search("foo", 5);
    assert_eq!(hits[0].entry.license.as_deref(), Some("first"));
    assert_eq!(hits[1].entry.license.as_deref(), Some("second"));
}

#[test]
fn search_stops_at_the_limit() {
    let ix = index(vec![entry("a", "foo", None), entry("b", "foo", None), entry("c", "foo", None)]);
    let two: Vec<String> = ix.search("foo", 2).into_iter().map(|h| h.entry.id).collect();
    assert_eq!(two, vec!["a".to_string(), "b".to_string()]);
    assert!(ix.search("foo", 0).is_empty());
    assert!(ix.search(" \t ", 5).is_empty());
}

#[test]
fn search_ignores_case_and_surrounding_space() {
    let ix = index(vec![entry("a", "Foo Bar", None), entry("b", "bar", None)]);
    let plain: Vec<(String, i64)> =
        ix.search("foo bar", 9).into_iter().map(|h| (h.entry.id, h.score)).collect();
    let loud: Vec<(String, i64)> =
        ix.search("  FOO   Bar\n", 9).into_iter().map(|h| (h.entry.id, h.score)).collect();
    assert_eq!(plain, vec![("a".to_string(), 600), ("b".to_string(), 300)]);
    assert_eq!(plain, loud);
}

#[test]
fn seed_index_builds_sorted_entries() {
    let ix = seed_index(Ok(bundled())).expect("seed index");
    assert_eq!(ix.validate(), Ok(()));
    assert_eq!(ix.generated_at.as_deref(), Some("2026-02-01T00:00:00Z"));
    assert!(ix.last_refreshed_at.is_none());
    let ids: Vec<&str> = ix.entries.iter().map(|e| e.id.as_str()).collect();
    assert_eq!(ids, vec!["git/beta", "git/deep", "npm/alpha", "npm/Zeta", "url/gamma"]);
    let installs: Vec<Option<&str>> =
        ix.entries.iter().map(|e| e.install_source.as_deref()).collect();
    assert_eq!(
        installs,
        vec![
            Some("git:https://g.test/beta"),
            None,
            Some("npm:alpha"),
            Some("npm:zeta@1.2.0"),
            None
        ]
    );
    let licenses: Vec<Option<&str>> = ix.entries.iter().map(|e| e.license.as_deref()).collect();
    assert_eq!(licenses, vec![None, None, None, Some("MIT"), None]);
    assert_eq!(ix.entries[0].tags, vec!["git".to_string(), "extension".to_string()]);
    assert_eq!(ix.entries[2].tags, vec!["npm".to_string(), "extension".to_string()]);
    assert_eq!(ix.entries[4].tags, vec!["url".to_string(), "extension".to_string()]);
    assert!(ix.entries.iter().all(|e| e.description.is_none()));
    match &ix.entries[3].source {
        Some(ExtensionIndexSource::Npm { package, version, url }) => {
            assert_eq!(package, "zeta");
            assert_eq!(version.as_deref(), Some(" 1.2.0\n"));
            assert_eq!(url.as_deref(), Some("https://r.test/zeta.tgz"));
        }
        other => panic!("unexpected source {other:?}"),
    }
    match &ix.entries[1].source {
        Some(ExtensionIndexSource::Git { repo, path, reference }) => {
            assert_eq!(repo, "https://g.test/deep");
            assert_eq!(path.as_deref(), Some("ext"));
            assert!(reference.is_none());
        }
        other => panic!("unexpected source {other:?}"),
    }
}

#[test]
fn seed_index_hands_on_what_went_wrong() {
    let err = seed_index(Err(Error::Json("bad".to_string()))).unwrap_err();
    assert_eq!(err, Error::Json("bad".to_string()));
}

#[test]
fn store_loads_what_is_valid() {
    let store = ExtensionIndexStore::new("/cache/index.json".to_string());
    assert_eq!(store.path(), "/cache/index.json");
    assert!(store.load(CacheRead::Missing).unwrap().is_none());
    let loaded = store.load(CacheRead::Parsed(index(vec![entry("a", "a", None)]))).unwrap();
    assert_eq!(loaded.unwrap().entries.len(), 1);
    let err = store.load(CacheRead::Unreadable(Error::Io("denied".to_string()))).unwrap_err();
    assert_eq!(err, Error::Io("denied".to_string()));
    let mut bad = index(Vec::new());
    bad.version = 2;
    assert!(matches!(store.load(CacheRead::Parsed(bad)), Err(Error::Validation(_))));
}

#[test]
fn store_falls_back_where_the_cache_is_unusable() {
    let store = ExtensionIndexStore::default_store("/cache/index.json");
    let mut bad = index(vec![entry("cached", "cached", None)]);
    bad.schema = "other".to_string();
    let seeded = store.load_or_seed(CacheRead::Parsed(bad), Ok(bundled())).unwrap();
    assert_eq!(seeded.entries.len(), 5);
    let seeded = store
        .load_or_seed(CacheRead::Unreadable(Error::Json("x".to_string())), Ok(bundled()))
        .unwrap();
    assert_eq!(seeded.entries.len(), 5);
    let cached = store
        .load_or_seed(
            CacheRead::Parsed(index(vec![entry("cached", "cached", None)])),
            Err(Error::Json("seed".to_string())),
        )
        .unwrap();
    assert_eq!(cached.entries[0].id, "cached");
    let err = store
        .load_or_seed(CacheRead::Missing, Err(Error::Json("seed".to_string())))
        .unwrap_err();
    assert_eq!(err, Error::Json("seed".to_string()));
}

#[test]
fn store_saves_next_to_its_path() {
    let ix = index(Vec::new());
    let store = ExtensionIndexStore::new("/home/u/.pi/index.json".to_string());
    assert_eq!(store.save(&ix, Platform::Unix), Ok("/home/u/.pi".to_string()));
    let bare = ExtensionIndexStore::new("index.json".to_string());
    assert_eq!(bare.save(&ix, Platform::Unix), Ok(String::new()));
    assert_eq!(
        ExtensionIndexStore::new("/".to_string()).save(&ix, Platform::Unix),
        Err(Error::Config("Invalid extension index path: /".to_string()))
    );
    let mut bad = index(Vec::new());
    bad.version = 7;
    assert_eq!(
        store.save(&bad, Platform::Unix),
        Err(Error::Validation("Unsupported extension index version: 7".to_string()))
    );
    assert_eq!(ExtensionIndexStore::default_path("/x/y"), "/x/y");
}

#[test]
fn staleness_goes_by_the_last_refresh() {
    let day = Duration::from_secs(DEFAULT_INDEX_MAX_AGE);
    let at = |s: &str| {
        let t = chrono::DateTime::parse_from_rfc3339(s).unwrap();
        UtcInstant { secs: t.timestamp(), nanos: t.timestamp_subsec_nanos() }
    };
    let mut ix = index(Vec::new());
    assert!(ix.is_stale(at("2026-02-02T00:00:00Z"), day));
    ix.last_refreshed_at = Some("yesterday".to_string());
    assert!(ix.is_stale(at("2026-02-02T00:00:00Z"), day));
    ix.last_refreshed_at = Some("2026-02-01T02:00:00+02:00".to_string());
    assert!(!ix.is_stale(at("2026-02-02T00:00:00Z"), day));
    assert!(ix.is_stale(at("2026-02-02T00:00:00.000000001Z"), day));
    assert!(ix.is_stale(at("2026-01-31T23:59:59Z"), day));
    assert!(is_stale_since(None, at("2026-02-02T00:00:00Z"), day));
}

#[test]
fn ages_agree_with_calendar_arithmetic() {
    let stamps = [
        "2016-12-31T23:59:59.5Z",
        "2016-12-31T23:59:60.25Z",
        "2017-01-01T00:00:00Z",
        "2016-12-31T12:00:00.75Z",
        "1969-12-31T23:59:58.1Z",
        "1969-12-31T23:59:60.9Z",
        "1970-01-01T00:00:00Z",
        "2026-02-01T10:20:30.123456789Z",
        "0001-01-01T00:00:00Z",
    ];
    let ages = [
        std::time::Duration::new(0, 0),
        std::time::Duration::new(0, 250_000_000),
        std::time::Duration::new(1, 0),
        std::time::Duration::new(43_200, 250_000_000),
        std::time::Duration::new(86_400, 0),
        std::time::Duration::new(1_500_000_000, 999_999_999),
    ];
    for a in stamps {
        for b in stamps {
            let now = chrono::DateTime::parse_from_rfc3339(a).unwrap().with_timezone(&chrono::Utc);
            let then = chrono::DateTime::parse_from_rfc3339(b).unwrap().with_timezone(&chrono::Utc);
            let own = |t: chrono::DateTime<chrono::Utc>| UtcInstant {
                secs: t.timestamp(),
                nanos: t.timestamp_subsec_nanos(),
            };
            for age in ages {
                let expected = now.signed_duration_since(then).to_std().map_or(true, |d| d > age);
                let max = Duration { secs: age.as_secs(), nanos: age.subsec_nanos() };
                assert_eq!(is_older_than(own(now), own(then), max), expected, "{a} {b} {age:?}");
            }
        }
    }
}

#[test]
fn too_old_stays_too_old() {
    let then = UtcInstant { secs: 1_000, nanos: 5 };
    let max = Duration { secs: 10, nanos: 0 };
    assert!(!is_older_than(UtcInstant { secs: 1_010, nanos: 5 }, then, max));
    for later in [(1_010, 6), (1_011, 0), (5_000, 0), (i64::MAX, 0)] {
        assert!(is_older_than(UtcInstant { secs: later.0, nanos: later.1 }, then, max));
    }
    assert!(is_older_than(UtcInstant { secs: 999, nanos: 0 }, then, max));
    assert!(is_older_than(
        UtcInstant { secs: i64::MAX, nanos: 0 },
        UtcInstant { secs: i64::MIN, nanos: 0 },
        max
    ));
}

#[test]
fn scores_of_token_lists_add_up() {
    let mut e = entry("npm/checkpoint", "Checkpoint", None);
    e.tags = vec!["git".to_string(), "gitlab".to_string()];
    let (a, b) = (["git".to_string()], ["check".to_string(), "none".to_string()]);
    let both = ["git".to_string(), "check".to_string(), "none".to_string()];
    assert_eq!(score_entry(&e, &a), 180);
    assert_eq!(score_entry(&e, &b), 420);
    assert_eq!(score_entry(&e, &both), 600);
    assert_eq!(score_entry(&e, &[]), 0);
}

#[test]
fn a_limit_keeps_the_best_of_all() {
    let ix = index(vec![
        entry("low", "x", None),
        entry("foo-c", "c", None),
        entry("b", "foo b", None),
        entry("a", "foo a", Some("npm:a")),
    ]);
    let all: Vec<String> = ix.search("foo", 4).iter().map(|h| h.entry.id.clone()).collect();
    assert_eq!(all, vec!["a", "b", "foo-c"]);
    for limit in 0..6 {
        let cut: Vec<String> =
            ix.search("foo", limit).iter().map(|h| h.entry.id.clone()).collect();
        assert_eq!(cut, all[..limit.min(all.len())].to_vec());
    }
}

#[test]
fn the_directory_of_a_store_is_that_of_its_platform() {
    let store = ExtensionIndexStore::new(r"C:\Users\u\index.json".to_string());
    let ix = index(Vec::new());
    assert_eq!(store.save(&ix, Platform::Windows), Ok(r"C:\Users\u".to_string()));
    assert_eq!(store.save(&ix, Platform::Unix), Ok(String::new()));
    assert!(ExtensionIndexStore::new(r"C:\".to_string()).save(&ix, Platform::Windows).is_err());
}
