use socktop::profiles::{ProfileEntry, ProfileRequest, ProfilesFile, ResolveProfile};

fn file() -> ProfilesFile {
    let mut pf = ProfilesFile::new();
    pf.profiles.push(("dev".to_string(), ProfileEntry { url: "ws://dev:3000/ws".into(), tls_ca: None }));
    pf.profiles.push((
        "prod".to_string(),
        ProfileEntry { url: "wss://prod/ws".into(), tls_ca: Some("/tmp/cert.pem".into()) },
    ));
    pf
}

#[test]
fn resolve_direct_and_loaded() {
    let pf = file();
    let r = ProfileRequest { profile_name: Some("prod".into()), url: Some("ws://x/ws".into()), tls_ca: None }.resolve(&pf);
    assert!(matches!(r, ResolveProfile::Direct(ref u, None) if u == "ws://x/ws"));
    let r = ProfileRequest { profile_name: Some("prod".into()), url: None, tls_ca: None }.resolve(&pf);
    match r {
        ResolveProfile::Loaded(u, t) => {
            assert_eq!(u, "wss://prod/ws");
            assert_eq!(t.as_deref(), Some("/tmp/cert.pem"));
        }
        _ => panic!("expected the stored profile"),
    }
    assert_eq!(pf.find("dev"), Some(0));
    assert_eq!(pf.find("nope"), None);
}

#[test]
fn resolve_prompts() {
    let pf = file();
    let r = ProfileRequest { profile_name: Some("new".into()), url: None, tls_ca: None }.resolve(&pf);
    assert!(matches!(r, ResolveProfile::PromptCreate(ref n) if n == "new"));
    let r = ProfileRequest { profile_name: None, url: None, tls_ca: None }.resolve(&pf);
    match r {
        ResolveProfile::PromptSelect(names) => assert_eq!(names, vec!["dev".to_string(), "prod".to_string()]),
        _ => panic!("expected a selection prompt"),
    }
    let r = ProfileRequest { profile_name: None, url: None, tls_ca: None }.resolve(&ProfilesFile::new());
    assert!(matches!(r, ResolveProfile::Unresolved));
}

#[test]
fn upsert_replaces_or_appends() {
    let mut pf = file();
    pf.upsert("dev".into(), ProfileEntry { url: "ws://dev2/ws".into(), tls_ca: None });
    assert_eq!(pf.profiles.len(), 2);
    assert_eq!(pf.profiles[0].1.url, "ws://dev2/ws");
    pf.upsert("qa".into(), ProfileEntry { url: "ws://qa/ws".into(), tls_ca: None });
    assert_eq!(pf.profiles.len(), 3);
    assert_eq!(pf.find("qa"), Some(2));
    assert_eq!(pf.profiles[1].1.url, "wss://prod/ws");
}
