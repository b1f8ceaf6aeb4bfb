use petal_browser::network::adblock::AdblockEngine;

#[test]
fn blocks_listed_domain_and_subdomains() {
    let e = AdblockEngine::start();
    assert!(e.should_block("https://doubleclick.net/ad.js"));
    assert!(e.should_block("https://ads.doubleclick.net"));
    assert!(e.should_block("https://doubleclick.net:443/x"));
    assert!(e.should_block("doubleclick.net"));
    assert!(e.should_block("https://www.clarity.ms/tag"));
}

#[test]
fn matching_ignores_case() {
    let e = AdblockEngine::start();
    assert!(e.should_block("HTTPS://DoubleClick.NET/"));
    assert!(e.should_block_normalized("https://pixel.facebook.com/tr"));
}

#[test]
fn does_not_block_lookalikes_or_paths() {
    let e = AdblockEngine::start();
    assert!(!e.should_block("https://notdoubleclick.net/"));
    assert!(!e.should_block("https://example.com/?u=doubleclick.net"));
    assert!(!e.should_block("https://facebook.com/tr/"));
    assert!(!e.should_block("https://example.com/doubleclick.net"));
    assert!(!e.should_block(""));
}

#[test]
fn local_pages_and_servers_are_never_blocked() {
    let e = AdblockEngine::start();
    assert!(!e.should_block("petal://doubleclick.net"));
    assert!(!e.should_block("file://doubleclick.net/x"));
    assert!(!e.should_block("http://localhost:8080/doubleclick.net"));
    assert!(!e.should_block("http://127.0.0.1:3000/"));
}

#[test]
fn blocked_domains_as_json_array() {
    let e = AdblockEngine::start();
    let r = e.get_blocked_domains_js_array();
    assert_eq!(
        r,
        "[\"doubleclick.net\",\"google-analytics.com\",\"googlesyndication.com\",\"adservice.google.com\",\
\"amazon-adsystem.com\",\"taboola.com\",\"outbrain.com\",\"criteo.com\",\"adsafeprotected.com\",\"adnxs.com\",\
\"adform.net\",\"connect.facebook.net\",\"pixel.facebook.com\",\"hotjar.com\",\"clarity.ms\"]"
    );
    let parsed: Vec<String> = serde_json::from_str(&r).expect("a JSON array of strings");
    assert_eq!(parsed.len(), 15);
    assert_eq!(parsed[0], "doubleclick.net");
    assert_eq!(parsed[14], "clarity.ms");
}

#[test]
fn clone_blocks_the_same() {
    let e = AdblockEngine::start();
    let c = e.clone();
    assert!(c.should_block("https://hotjar.com"));
    assert_eq!(c.get_blocked_domains_js_array(), e.get_blocked_domains_js_array());
}
