use sshcfg::address::{IpAddr, ip_in_network};
use sshcfg::config::local_networks::{
    detect_local_networks, detect_local_username, extract_local_networks_from_output,
    local_network_matches,
};
use sshcfg::config::openssh::{
    command_message, detect_match_version_string, normalize_match_version_string,
    parse_ssh_g_output, parse_version_output,
};
use sshcfg::config::pattern::{pattern_list_matches, pattern_list_matches_optional};
use sshcfg::error::ConfigError;
use sshcfg::layout::{
    AppPaths, detect_newline, has_include_line, has_managed_block, managed_block,
    managed_entry_files, platform_newline,
};
use sshcfg::paths::{file_name_of, join_path};
use sshcfg::strings::{
    decimal_text, decimal3_text, equal_ignoring_case, halves_at, halves_at_last,
    is_blank, joined, lowered, number_fault_text, pad, parse_u16, sorted_once, sorted_texts,
    split_key_value, split_lines, split_raw_lines, split_words, stripped, trimmed,
};

fn texts(items: &[&str]) -> Vec<String> {
    items.iter().map(|item| item.to_string()).collect()
}

#[test]
fn trimming_twice_changes_nothing() {
    let once = trimmed("\t a b \u{a0}");
    assert_eq!(once, "a b");
    assert_eq!(trimmed(&once), once);
    assert!(is_blank(" \t\n"));
    assert!(!is_blank("x"));
}

#[test]
fn lowering_keeps_all_but_ascii_letters() {
    assert_eq!(lowered("Host-É9"), "host-É9");
    assert_eq!(lowered(&lowered("Host-É9")), "host-É9");
    assert!(equal_ignoring_case("HostName", "hostNAME"));
    assert!(!equal_ignoring_case("É", "é"));
}

#[test]
fn joined_words_are_split_again() {
    let words = texts(&["a", "bc", "d"]);
    assert_eq!(split_words(&joined(&words, " ")), words);
    assert_eq!(split_words("  a \t bc\nd "), words);
    assert!(split_words(" \n").is_empty());
}

#[test]
fn raw_lines_put_together_give_the_text() {
    let text = "a\r\n\nb\nc";
    assert_eq!(split_raw_lines(text), texts(&["a\r\n", "\n", "b\n", "c"]));
    assert_eq!(split_raw_lines(text).concat(), text);
    assert_eq!(split_lines(text), texts(&["a", "", "b", "c"]));
    assert!(split_lines("").is_empty());
}

#[test]
fn numbers_are_read_as_they_are_written() {
    for n in [0, 7, 10, 99, 443, 65535] {
        assert_eq!(parse_u16(&decimal_text(n)), Some(n as u16));
    }
    assert_eq!(parse_u16("+22"), Some(22));
    assert_eq!(parse_u16("65536"), None);
    assert_eq!(parse_u16(""), None);
    assert_eq!(parse_u16("-1"), None);
    assert_eq!(decimal3_text(7), "007");
    assert_eq!(decimal3_text(1000), "1000");
}

#[test]
fn texts_are_sorted_by_their_characters() {
    let items = texts(&["b", "a", "ab", "B", "a"]);
    assert_eq!(sorted_texts(&items), texts(&["B", "a", "a", "ab", "b"]));
    assert_eq!(sorted_once(&items), texts(&["B", "a", "ab", "b"]));
}

#[test]
fn a_text_is_halved_at_a_character() {
    assert_eq!(halves_at("a=b=c", '='), Some(("a".to_string(), "b=c".to_string())));
    assert_eq!(halves_at_last("a=b=c", '='), Some(("a=b".to_string(), "c".to_string())));
    assert_eq!(halves_at("abc", '='), None);
    assert_eq!(
        split_key_value("HostName  a b"),
        Some(("HostName".to_string(), "a b".to_string()))
    );
    assert_eq!(split_key_value("HostName"), None);
    assert_eq!(stripped("\"[a]\"", "\"[]"), "a");
}

#[test]
fn paths_are_put_together_and_taken_apart() {
    assert_eq!(join_path("/a/b", "c", false), "/a/b/c");
    assert_eq!(join_path("a\\", "c", false), "a\\/c");
    let name = |path: &str, windows: bool| file_name_of(path, windows);
    assert_eq!(name("/a/b/c", false), Some("c".to_string()));
    assert_eq!(name("/a/b/./", false), Some("b".to_string()));
    assert_eq!(name("/a/..", false), None);
    assert_eq!(name("/", false), None);
    assert_eq!(name("C:b", false), Some("C:b".to_string()));
    assert_eq!(name("/home/a\\b", false), Some("a\\b".to_string()));
    assert_eq!(join_path("C:\\Users\\demo", ".ssh", true), "C:\\Users\\demo\\.ssh");
    assert_eq!(join_path("C:", "x", true), "C:x");
    assert_eq!(join_path("a", "x", true), "a\\x");
    assert_eq!(join_path("\\\\srv\\homes", "x", true), "\\\\srv\\homes\\x");
    assert_eq!(name("C:\\Users\\demo/x", true), Some("x".to_string()));
    assert_eq!(name("C:b", true), Some("b".to_string()));
    assert_eq!(name("a\\b", true), Some("b".to_string()));
    assert_eq!(name("C:", true), None);
    assert_eq!(name("\\\\srv\\homes", true), None);
    assert_eq!(name("\\\\srv\\homes\\x", true), Some("x".to_string()));
    assert_eq!(pad("ab", 4), "ab  ");
    assert_eq!(pad("abcde", 4), "abcde");
}

#[test]
fn a_refused_number_is_told_why() {
    for text in ["", "+", "-", "x", "-1", "12x", "65536", "65536x", "6554x", "99999999", "+70000", "++1"] {
        let told = number_fault_text(text, 65535);
        let wanted = text.parse::<u16>().unwrap_err().to_string();
        assert_eq!(told, wanted, "{text}");
    }
    for text in ["256", "2555", "x", "", "99x"] {
        assert_eq!(number_fault_text(text, 255), text.parse::<u8>().unwrap_err().to_string());
    }
    let refused = |pattern: &str| {
        let here = texts(&["192.168.1.42"]);
        local_network_matches(&texts(&[pattern]), &here).unwrap_err().message
    };
    assert_eq!(
        refused("10.0.0.0/x"),
        "invalid CIDR prefix in `10.0.0.0/x`: invalid digit found in string"
    );
    assert_eq!(
        refused("10.0.0/8"),
        "invalid network address in `10.0.0/8`: invalid IP address syntax"
    );
}

#[test]
fn the_layout_stands_below_the_home_directory() {
    let paths = AppPaths::discover("/home/demo", false);
    assert_eq!(paths.ssh_dir, "/home/demo/.ssh");
    assert_eq!(paths.root_config, "/home/demo/.ssh/config");
    assert_eq!(paths.config_d_dir, "/home/demo/.ssh/config.d");
    assert_eq!(paths.app_dir, "/home/demo/.ssh/.sshcfg");
    assert_eq!(paths.backups_dir, "/home/demo/.ssh/.sshcfg/backups");
    assert_eq!(paths.state_file, "/home/demo/.ssh/.sshcfg/state.toml");
    assert_eq!(
        paths.managed_config_path(false),
        "/home/demo/.ssh/.sshcfg/ssh-g-managed.conf"
    );
    assert_eq!(
        paths.managed_match_config_path(false),
        "/home/demo/.ssh/.sshcfg/ssh-g-managed-with-match.conf"
    );
    assert_eq!(
        AppPaths::discover("C:\\Users\\demo", true).state_file,
        "C:\\Users\\demo\\.ssh\\.sshcfg\\state.toml"
    );
    let files = texts(&["/d/020-b.conf", "/d/readme", "/d/010-a.conf", "/d/.conf"]);
    assert_eq!(
        managed_entry_files(&files, false),
        texts(&["/d/010-a.conf", "/d/020-b.conf"])
    );
}

#[test]
fn the_managed_block_is_recognised() {
    let block = managed_block("\n");
    assert_eq!(
        block,
        "# >>> sshcfg managed include >>>\nInclude ~/.ssh/config.d/*\n# <<< sshcfg managed include <<<\n"
    );
    assert!(has_managed_block(&block));
    assert!(has_include_line(&block));
    assert!(has_include_line("  INCLUDE ~/.ssh/config.d/*"));
    assert!(!has_include_line("# Include ~/.ssh/config.d/*"));
    assert_eq!(detect_newline("a\r\nb", false), "\r\n");
    assert_eq!(detect_newline("a\nb", false), "\n");
    assert_eq!(detect_newline("a\nb", true), "\r\n");
    assert_eq!(platform_newline(true), "\r\n");
}

#[test]
fn addresses_are_read_and_written() {
    for (text, canonical) in [
        ("10.0.0.1", "10.0.0.1"),
        ("::1", "::1"),
        ("2001:DB8:0:0:1:0:0:1", "2001:db8::1:0:0:1"),
        ("::ffff:1.2.3.4", "::ffff:1.2.3.4"),
        ("1:2:3:4:5:6:7:8", "1:2:3:4:5:6:7:8"),
    ] {
        assert_eq!(IpAddr::parse(text).unwrap().text(), canonical);
        let parsed: std::string::String = IpAddr::parse(canonical).unwrap().text();
        assert_eq!(parsed, canonical);
    }
    for text in ["", "1.2.3", "1.2.3.256", "01.2.3.4", ":::", "1::2::3", "12345::", "1.2.3.4/8"] {
        assert!(IpAddr::parse(text).is_none(), "{text}");
    }
    assert!(IpAddr::parse("127.9.9.9").unwrap().is_loopback());
    assert!(IpAddr::parse("::1").unwrap().is_loopback());
    assert!(!IpAddr::parse("10.0.0.1").unwrap().is_loopback());
}

#[test]
fn an_address_is_in_the_networks_that_share_its_prefix() {
    let ip = |text: &str| IpAddr::parse(text).unwrap();
    assert_eq!(ip_in_network(&ip("192.168.1.42"), &ip("192.168.0.0"), 16), Ok(true));
    assert_eq!(ip_in_network(&ip("192.168.1.42"), &ip("192.168.0.0"), 24), Ok(false));
    assert_eq!(ip_in_network(&ip("8.8.8.8"), &ip("0.0.0.0"), 0), Ok(true));
    assert_eq!(ip_in_network(&ip("fd00::1"), &ip("fd00::"), 64), Ok(true));
    assert_eq!(ip_in_network(&ip("fd00::1"), &ip("10.0.0.0"), 8), Ok(false));
    assert_eq!(
        ip_in_network(&ip("10.0.0.1"), &ip("10.0.0.0"), 33).unwrap_err().message,
        "IPv4 CIDR prefix `33` is out of range"
    );
    assert_eq!(
        ip_in_network(&ip("fd00::1"), &ip("fd00::"), 129).unwrap_err().message,
        "IPv6 CIDR prefix `129` is out of range"
    );
}

#[test]
fn the_first_tool_that_answers_gives_the_addresses() {
    let ip = "1: lo    inet 127.0.0.1/8 scope host lo\n2: eth0    inet 10.1.2.3/24 brd 10.1.2.255 scope global eth0\n";
    assert_eq!(extract_local_networks_from_output("ip", ip), texts(&["10.1.2.3"]));
    assert_eq!(detect_local_networks(None, Some(ip), Some("")), texts(&["10.1.2.3"]));
    assert!(detect_local_networks(Some(""), Some(ip), None).is_empty());
    assert!(detect_local_networks(None, None, None).is_empty());
    assert_eq!(
        detect_local_username(None, Some("ops".to_string()), Some("root".to_string())),
        "ops"
    );
    assert_eq!(detect_local_username(None, None, None), "");
}

#[test]
fn a_local_network_is_matched_by_its_prefix() {
    let here = texts(&["192.168.1.42"]);
    assert_eq!(local_network_matches(&texts(&["192.168.0.0/16"]), &here), Ok(true));
    assert_eq!(
        local_network_matches(&texts(&["192.168.1.42"]), &here).unwrap_err().message,
        "invalid localnetwork pattern `192.168.1.42`"
    );
    assert_eq!(
        local_network_matches(&texts(&["192.168.0.0/16", "!192.168.1.0/24"]), &here),
        Ok(false)
    );
    assert_eq!(local_network_matches(&texts(&["10.0.0.0/8"]), &here), Ok(false));
    assert!(local_network_matches(&texts(&["192.168.0.0/99"]), &here).is_err());
}

#[test]
fn an_excluded_pattern_wins_over_one_that_matches() {
    assert_eq!(pattern_list_matches(&texts(&["demo-*"]), "demo-1"), Ok(true));
    assert_eq!(pattern_list_matches(&texts(&["demo-?"]), "demo-12"), Ok(false));
    assert_eq!(pattern_list_matches(&texts(&["demo-*", "!demo-1"]), "demo-1"), Ok(false));
    assert_eq!(pattern_list_matches(&texts(&["!demo-1"]), "demo-2"), Ok(false));
    assert_eq!(pattern_list_matches(&texts(&["demo-[0-9]"]), "demo-7"), Ok(true));
    assert_eq!(pattern_list_matches_optional(&texts(&["*"]), None), Ok(false));
    assert!(pattern_list_matches(&texts(&["demo-[", "x"]), "demo-7").is_err());
    assert_eq!(pattern_list_matches(&texts(&["*"]), "a\\b/c"), Ok(true));
    assert_eq!(pattern_list_matches(&texts(&["*", "!*"]), "a\\b/c"), Ok(false));
    assert!(pattern_list_matches(&texts(&["a\\b/c?"]), "a\\b/c").is_ok());
}

#[test]
fn what_the_client_prints_is_read() {
    let config = parse_ssh_g_output("hostname a\nidentityfile x\nIdentityFile y\n").unwrap();
    assert_eq!(config.get_first("HostName"), Some("a"));
    assert_eq!(config.get_all("identityfile"), Some(texts(&["x", "y"])));
    assert_eq!(config.get_all("port"), None);
    assert_eq!(
        parse_ssh_g_output("\n").unwrap_err().message,
        "`ssh -G` produced no config output"
    );
    assert_eq!(
        parse_version_output(" ", "").unwrap_err().message,
        "`ssh -V` produced no version text"
    );
    assert_eq!(
        normalize_match_version_string(" OpenSSH_9.6p1, LibreSSL"),
        Some("OpenSSH_9.6p1".to_string())
    );
    assert_eq!(
        detect_match_version_string(Ok("OpenSSH_9.6p1 x".to_string())),
        Some("OpenSSH_9.6p1".to_string())
    );
    assert_eq!(detect_match_version_string(Err(ConfigError::of("no"))), None);
    assert_eq!(command_message("", "bad option\n", Some(255)), "bad option");
}
