use sshcfg::config::store::slugify_host_pattern;

#[test]
fn slugifies_pattern_names() {
    assert_eq!(slugify_host_pattern("bs-*"), "bs");
    assert_eq!(slugify_host_pattern("Home.Router?"), "home-routerq");
}
