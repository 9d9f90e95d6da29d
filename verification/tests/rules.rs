use anetd::rules::adblock::{domain_in_suffix_set, extract_domain_from_rule, extract_hostname};
use anetd::rules::loader::{compile_rules, file_hash, split_rule_paths};
use anetd::rules::watcher::{reload_decision, same_file_set, ReloadOutcome};
use anetd::rules::{FilterAction, RuleSet};

#[test]
fn extract_hostname_basic() {
    assert_eq!(extract_hostname("https://example.com/"), "example.com");
    assert_eq!(extract_hostname("http://foo.bar/"), "foo.bar");
    assert_eq!(extract_hostname("bare.domain"), "bare.domain");
    assert_eq!(extract_hostname(""), "");
}

#[test]
fn parse_domain_rule() {
    assert_eq!(extract_domain_from_rule("||example.com^"), Some("example.com".into()));
    assert_eq!(extract_domain_from_rule("||ads.example.com^"), Some("ads.example.com".into()));
    // trailing dot
    assert_eq!(extract_domain_from_rule("||example.com.^"), Some("example.com".into()));
    // with $domain= modifier – still extract domain
    assert_eq!(
        extract_domain_from_rule("||example.com^$domain=~foo.com"),
        Some("example.com".into())
    );
}

#[test]
fn parse_non_domain_rules_ignored() {
    // cosmetic rules
    assert_eq!(extract_domain_from_rule("##.banner"), None);
    assert_eq!(extract_domain_from_rule("$generichide"), None);
    assert_eq!(extract_domain_from_rule(".ad-banner#$#"), None);
    // rule with path
    assert_eq!(extract_domain_from_rule("||example.com/path/to/ad"), None);
    // pure wildcard
    assert_eq!(extract_domain_from_rule("||*^"), None);
}

#[test]
fn suffix_matching() {
    let set = vec!["example.com".to_string(), "doubleclick.net".to_string()];

    assert!(domain_in_suffix_set(&set, "example.com"));
    assert!(domain_in_suffix_set(&set, "ads.example.com"));
    assert!(domain_in_suffix_set(&set, "tracker.ads.example.com"));
    assert!(!domain_in_suffix_set(&set, "notexample.com"));
    assert!(!domain_in_suffix_set(&set, "com"));
    assert!(domain_in_suffix_set(&set, "doubleclick.net"));
    assert!(domain_in_suffix_set(&set, "stats.doubleclick.net"));
}

#[test]
fn empty_ruleset_allows_all() {
    let rs = RuleSet::new();
    assert_eq!(rs.matches("https://evil.com/", "", ""), FilterAction::Allow);
}

#[test]
fn block_and_allow() {
    let rs = RuleSet::from_rules(&["||evil.com^", "||doubleclick.net^", "@@||good.evil.com^"]);

    // Blocked domains
    assert_eq!(rs.matches("https://evil.com/", "", ""), FilterAction::Block);
    assert_eq!(rs.matches("https://ads.evil.com/", "", ""), FilterAction::Block);
    assert_eq!(rs.matches("https://doubleclick.net/", "", ""), FilterAction::Block);

    // Exception overrides block
    assert_eq!(rs.matches("https://good.evil.com/", "", ""), FilterAction::Allow);

    // Unrelated domain passes
    assert_eq!(rs.matches("https://google.com/", "", ""), FilterAction::Allow);
}

#[test]
fn allowlist_takes_priority() {
    let rs = RuleSet::from_rules(&["||evil.com^", "@@||evil.com^"]);

    assert_eq!(rs.matches("https://evil.com/", "", ""), FilterAction::Allow);
    assert_eq!(rs.matches("https://ads.evil.com/", "", ""), FilterAction::Allow);
}

#[test]
fn comments_and_headers_skipped() {
    let rs = RuleSet::from_rules(&[
        "[Adblock Plus 2.0]",
        "! This is a comment",
        "||evil.com^",
        "! Another comment",
    ]);

    assert_eq!(rs.block_count(), 1);
    assert_eq!(rs.matches("https://evil.com/", "", ""), FilterAction::Block);
}

#[test]
fn cosmetic_rules_ignored() {
    let rs = RuleSet::from_rules(&[
        "||evil.com^",
        "##.banner-ad",
        "$generichide",
        "@@$generichide,domain=foo.com",
        "@@#.banner%20ad.$image",
    ]);

    // Only the ||evil.com^ rule should have been loaded.
    assert_eq!(rs.block_count(), 1);
    assert_eq!(rs.allow_count(), 0);
}

#[test]
fn wildcard_domain_rules() {
    let rs = RuleSet::from_rules(&["||*.diwodiwo.xyz^", "||*two-gun-volley.pages.dev^"]);

    assert_eq!(rs.block_count(), 2);

    // *.diwodiwo.xyz normalised to diwodiwo.xyz
    assert_eq!(rs.matches("https://diwodiwo.xyz/", "", ""), FilterAction::Block);
    assert_eq!(rs.matches("https://sub.diwodiwo.xyz/", "", ""), FilterAction::Block);

    // *two-gun-volley.pages.dev normalised to two-gun-volley.pages.dev
    assert_eq!(rs.matches("https://two-gun-volley.pages.dev/", "", ""), FilterAction::Block);
    assert_eq!(
        rs.matches("https://foo-two-gun-volley.pages.dev/", "", ""),
        FilterAction::Allow // partial-label wildcard not supported by suffix match
    );
}

#[test]
fn uppercase_host_matches_lowercase_rule() {
    let rs = RuleSet::from_rules(&["||Evil.COM^"]);
    assert_eq!(rs.matches("https://ADS.evil.Com/", "", ""), FilterAction::Block);
}

#[test]
fn host_with_port_and_query_is_matched_by_name() {
    let rs = RuleSet::from_rules(&["||evil.com^"]);
    assert_eq!(rs.matches("https://evil.com:443/x", "", ""), FilterAction::Block);
    assert_eq!(rs.matches("http://evil.com?x=1", "", ""), FilterAction::Block);
    assert_eq!(rs.matches("https:///", "", ""), FilterAction::Allow);
}

#[test]
fn duplicate_rules_counted_once() {
    let rs = RuleSet::from_rules(&["||a.com^", "||a.com^", "  ||b.com^  ", "@@||c.com^", "@@||c.com^"]);
    assert_eq!(rs.block_count(), 2);
    assert_eq!(rs.allow_count(), 1);
}

#[test]
fn watched_files_recorded() {
    let rs = RuleSet::new().with_watched_files(vec![("a".to_string(), "h".to_string())]);
    assert_eq!(rs.watched_files().len(), 1);
    assert_eq!(rs.watched_files()[0].0, "a");
}

#[test]
fn rule_paths_split_on_commas() {
    assert_eq!(split_rule_paths("/a, /b ,/c"), vec!["/a", "/b", "/c"]);
    assert_eq!(split_rule_paths(" /only "), vec![" /only "]);
    assert_eq!(split_rule_paths("/a,"), vec!["/a", ""]);
}

#[test]
fn sha256_hex_of_abc() {
    assert_eq!(
        file_hash(b"abc"),
        "ba7816bf8f01cfea414140de5dae2223b00361a396177a9cb410ff61f20015ad"
    );
    assert_eq!(
        file_hash(b""),
        "e3b0c44298fc1c149afbf4c8996fb92427ae41e4649b934ca495991b7852b855"
    );
}

#[test]
fn compile_rules_from_sources() {
    let sources = vec![
        (
            "/r/one.txt".to_string(),
            "h1".to_string(),
            Some("! comment\r\n||evil.com^\r\n\r\n[header]\n  @@||good.evil.com^  \n".to_string()),
        ),
        ("/r/unreadable".to_string(), "h2".to_string(), None),
        ("/r/two.txt".to_string(), "h3".to_string(), Some("||ads.net^".to_string())),
    ];
    let rs = compile_rules(&sources);
    assert_eq!(rs.watched_files().len(), 3);
    assert_eq!(rs.watched_files()[1], ("/r/unreadable".to_string(), "h2".to_string()));
    assert_eq!(rs.block_count(), 2);
    assert_eq!(rs.allow_count(), 1);
    assert_eq!(rs.matches("https://x.evil.com/", "", ""), FilterAction::Block);
    assert_eq!(rs.matches("https://good.evil.com/", "", ""), FilterAction::Allow);
    assert_eq!(rs.matches("https://ads.net/", "", ""), FilterAction::Block);
}

#[test]
fn compile_rules_without_files_is_empty() {
    let rs = compile_rules(&Vec::new());
    assert_eq!(rs.block_count(), 0);
    assert_eq!(rs.watched_files().len(), 0);
}

#[test]
fn file_sets_compared_regardless_of_order() {
    let a = vec![("x".to_string(), "1".to_string()), ("y".to_string(), "2".to_string())];
    let b = vec![("y".to_string(), "2".to_string()), ("x".to_string(), "1".to_string())];
    let c = vec![("y".to_string(), "3".to_string()), ("x".to_string(), "1".to_string())];
    let d = vec![("x".to_string(), "1".to_string())];
    let e = vec![
        ("x".to_string(), "1".to_string()),
        ("x".to_string(), "1".to_string()),
        ("y".to_string(), "2".to_string()),
    ];
    assert!(same_file_set(&a, &b));
    assert!(same_file_set(&b, &a));
    assert!(!same_file_set(&a, &c));
    assert!(!same_file_set(&a, &d));
    assert!(!same_file_set(&d, &a));
    assert!(!same_file_set(&a, &e));
    assert!(same_file_set(&Vec::new(), &Vec::new()));
}

#[test]
fn reload_keeps_or_replaces() {
    let current = RuleSet::from_rules(&["||a.com^"]).with_watched_files(vec![
        ("x".to_string(), "1".to_string()),
        ("y".to_string(), "2".to_string()),
    ]);
    let same = RuleSet::new().with_watched_files(vec![
        ("y".to_string(), "2".to_string()),
        ("x".to_string(), "1".to_string()),
    ]);
    assert!(matches!(reload_decision(&current, same), ReloadOutcome::Unchanged));
    let changed = RuleSet::from_rules(&["||b.com^"])
        .with_watched_files(vec![("x".to_string(), "3".to_string())]);
    match reload_decision(&current, changed) {
        ReloadOutcome::Replace(r) => {
            assert_eq!(r.matches("https://b.com/", "", ""), FilterAction::Block);
            assert_eq!(r.watched_files()[0].1, "3");
        }
        ReloadOutcome::Unchanged => panic!("expected a replacement"),
    }
}
