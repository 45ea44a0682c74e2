use tunly::host::subdomain;

fn named(host: &str, domain: &str) -> Option<String> {
    subdomain(&host.to_string(), &domain.to_string())
}

#[test]
fn own_domain_names_no_tunnel() {
    assert_eq!(named("tunly.sh", "tunly.sh"), None);
}

#[test]
fn empty_host_names_no_tunnel() {
    assert_eq!(named("", "tunly.sh"), None);
    assert_eq!(named("", ""), None);
}

#[test]
fn host_under_the_domain_names_its_tunnel() {
    assert_eq!(named("myapp.yourdomain.com", "yourdomain.com"), Some("myapp".to_string()));
    assert_eq!(named("myapp.tunly.local", "tunly.local"), Some("myapp".to_string()));
    assert_eq!(named("a.b.tunly.sh", "tunly.sh"), Some("a.b".to_string()));
    assert_eq!(named(".tunly.sh", "tunly.sh"), Some(String::new()));
}

#[test]
fn domain_is_taken_off_once() {
    assert_eq!(named("api.tunly.sh.tunly.sh", "tunly.sh"), Some("api.tunly.sh".to_string()));
    assert_eq!(named("a.localhost.localhost", "localhost"), Some("a.localhost".to_string()));
}

#[test]
fn host_elsewhere_leads_to_its_first_label() {
    assert_eq!(named("myapp.localhost:3010", "localhost"), Some("myapp".to_string()));
    assert_eq!(named("api.example.org", "tunly.sh"), Some("api".to_string()));
    assert_eq!(named("xtunly.sh", "tunly.sh"), Some("xtunly".to_string()));
    assert_eq!(named("localhost:3010", "localhost"), Some("localhost:3010".to_string()));
}

#[test]
fn empty_domain_leaves_the_last_dot_off() {
    assert_eq!(named("api.", ""), Some("api".to_string()));
    assert_eq!(named("api...", ""), Some("api..".to_string()));
    assert_eq!(named("api.example", ""), Some("api".to_string()));
}
