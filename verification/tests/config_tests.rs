use dnstest::config::add_dns_server;
use dnstest::config::add_test_domain;
use dnstest::config::get_dns_servers;
use dnstest::config::get_path;
use dnstest::config::get_queries;
use dnstest::config::get_sort_type;
use dnstest::config::get_test_domains;
use dnstest::config::init;
use dnstest::config::update_path;
use dnstest::DNS;
use dnstest::SortType;

fn fresh() -> dnstest::config::Config {
    init("/home/user/.config/dnstest-cli/config.toml".to_string(), SortType::Average, 100)
}

#[test]
fn init_keeps_path_sort_and_queries() {
    let cfg = fresh();
    assert_eq!(get_path(&cfg).as_deref(), Some("/home/user/.config/dnstest-cli/config.toml"));
    assert_eq!(get_sort_type(&cfg), Some(SortType::Average));
    assert_eq!(get_queries(&cfg), Some(100));
}

#[test]
fn init_loads_the_default_servers_with_ports() {
    let cfg = fresh();
    let servers = get_dns_servers(&cfg).unwrap();
    assert_eq!(servers.len(), 2);
    assert_eq!(servers[0].name, "Google");
    assert_eq!(servers[0].ips, ["8.8.8.8:53", "8.8.4.4:53"]);
    assert_eq!(servers[1].name, "Cloudflare");
    assert_eq!(servers[1].ips, ["1.1.1.1:53", "1.0.0.1:53"]);
}

#[test]
fn init_loads_the_default_domains() {
    let cfg = fresh();
    let domains = get_test_domains(&cfg).unwrap();
    assert_eq!(domains, ["google.com", "facebook.com", "amazon.com", "example.com"]);
}

#[test]
fn update_path_replaces_only_the_path() {
    let mut cfg = fresh();
    update_path(&mut cfg, "/etc/dnstest.toml".to_string());
    assert_eq!(get_path(&cfg).as_deref(), Some("/etc/dnstest.toml"));
    assert_eq!(get_queries(&cfg), Some(100));
    assert_eq!(get_test_domains(&cfg).unwrap().len(), 4);
}

#[test]
fn added_server_gets_the_port_on_every_endpoint() {
    let mut cfg = fresh();
    let dns = DNS {
        name: "Quad9".to_string(),
        ips: vec!["9.9.9.9".to_string(), "149.112.112.112".to_string()],
    };
    add_dns_server(&mut cfg, dns);
    let servers = get_dns_servers(&cfg).unwrap();
    assert_eq!(servers.len(), 3);
    assert_eq!(servers[2].name, "Quad9");
    assert_eq!(servers[2].ips, ["9.9.9.9:53", "149.112.112.112:53"]);
}

#[test]
fn added_domain_with_trailing_dot_gains_another() {
    let mut cfg = fresh();
    add_test_domain(&mut cfg, "tld.".to_string());
    add_test_domain(&mut cfg, "plain.org".to_string());
    add_test_domain(&mut cfg, String::new());
    let domains = get_test_domains(&cfg).unwrap();
    assert_eq!(domains.len(), 7);
    assert_eq!(domains[4], "tld..");
    assert_eq!(domains[5], "plain.org");
    assert_eq!(domains[6], "");
}

#[test]
fn sort_type_round_trips_through_the_config() {
    for sort in [SortType::Average, SortType::Minimum, SortType::Maximum] {
        let cfg = init("p".to_string(), sort, 1);
        assert_eq!(get_sort_type(&cfg), Some(sort));
    }
}
