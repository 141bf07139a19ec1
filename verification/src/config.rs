//! The run's configuration: the config-file path, the sort order, the query
//! count, and the lists of name servers and test domains. It is an explicit
//! value handed by reference to the driver and the renderer.

use vstd::prelude::*;
use vstd::string::StrSliceExecFns;
use vstd::string::StringExecFns;
use crate::DNS;
use crate::DNSView;
use crate::SortType;

verus! {

/// The configuration of one benchmark run.
#[derive(Clone, Debug)]
pub struct Config {
    config_path: String,
    sort: SortType,
    queries: u64,
    dns_servers: Vec<DNS>,
    test_domains: Vec<String>,
}

impl Config {
    /// The configuration file's path.
    pub closed spec fn spec_path(&self) -> Seq<char> {
        self.config_path@
    }

    /// The configured sort order.
    pub closed spec fn spec_sort(&self) -> SortType {
        self.sort
    }

    /// The configured number of queries per domain.
    pub closed spec fn spec_queries(&self) -> u64 {
        self.queries
    }

    /// The configured name servers.
    pub closed spec fn spec_servers(&self) -> Seq<DNSView> {
        self.dns_servers.deep_view()
    }

    /// The configured test domains.
    pub closed spec fn spec_domains(&self) -> Seq<Seq<char>> {
        self.test_domains.deep_view()
    }
}

/// A server as stored: every endpoint gets the DNS port appended.
pub open spec fn with_port(ip: Seq<char>) -> Seq<char> {
    ip + ":53"@
}

/// The stored image of an added server.
pub open spec fn dns_with_ports(d: DNSView) -> DNSView {
    DNSView { name: d.name, ips: Seq::new(d.ips.len(), |i: int| with_port(d.ips[i])) }
}

/// A domain as stored: one that already ends with a dot gains one more.
pub open spec fn normalized_domain(d: Seq<char>) -> Seq<char> {
    if d.len() > 0 && d.last() == '.' {
        d + "."@
    } else {
        d
    }
}

/// The name servers a fresh configuration starts with.
pub open spec fn default_servers() -> Seq<DNSView> {
    seq![
        dns_with_ports(DNSView { name: "Google"@, ips: seq!["8.8.8.8"@, "8.8.4.4"@] }),
        dns_with_ports(DNSView { name: "Cloudflare"@, ips: seq!["1.1.1.1"@, "1.0.0.1"@] }),
    ]
}

/// The test domains a fresh configuration starts with.
pub open spec fn default_domains() -> Seq<Seq<char>> {
    seq![
        normalized_domain("google.com"@),
        normalized_domain("facebook.com"@),
        normalized_domain("amazon.com"@),
        normalized_domain("example.com"@),
    ]
}

/// Builds the configuration for one run from the path, sort order and query
/// count, loaded with the default server and domain data.
pub fn init(config_path: String, sort: SortType, queries: u64) -> (cfg: Config)
    ensures
        cfg.spec_path() == config_path@,
        cfg.spec_sort() == sort,
        cfg.spec_queries() == queries,
        cfg.spec_servers() == default_servers(),
        cfg.spec_domains() == default_domains(),
{
    let mut cfg = Config {
        config_path,
        sort,
        queries,
        dns_servers: Vec::new(),
        test_domains: Vec::new(),
    };
    load_data(&mut cfg);
    proof {
        assert(cfg.spec_servers() =~= default_servers());
        assert(cfg.spec_domains() =~= default_domains());
    }
    cfg
}

/// The configuration file's path.
pub fn get_path(cfg: &Config) -> (r: Option<String>)
    ensures
        r matches Some(p) && p@ == cfg.spec_path(),
{
    Some(cfg.config_path.clone())
}

/// Replaces the configuration file's path.
pub fn update_path(cfg: &mut Config, path: String)
    ensures
        final(cfg).spec_path() == path@,
        final(cfg).spec_sort() == old(cfg).spec_sort(),
        final(cfg).spec_queries() == old(cfg).spec_queries(),
        final(cfg).spec_servers() == old(cfg).spec_servers(),
        final(cfg).spec_domains() == old(cfg).spec_domains(),
{
    cfg.config_path = path;
}

/// The configured sort order.
pub fn get_sort_type(cfg: &Config) -> (r: Option<SortType>)
    ensures
        r == Some(cfg.spec_sort()),
{
    Some(cfg.sort)
}

/// The configured number of queries per domain.
pub fn get_queries(cfg: &Config) -> (r: Option<u64>)
    ensures
        r == Some(cfg.spec_queries()),
{
    Some(cfg.queries)
}

/// The configured name servers.
pub fn get_dns_servers(cfg: &Config) -> (r: Option<Vec<DNS>>)
    ensures
        r matches Some(v) && v.deep_view() == cfg.spec_servers(),
{
    let v = cfg.dns_servers.clone();
    proof {
        assert forall|i: int| 0 <= i < cfg.dns_servers@.len() implies v@[i]@
            == cfg.dns_servers@[i]@ by {
            assert(cloned::<DNS>(cfg.dns_servers@[i], v@[i]));
        }
        assert(v.deep_view() =~= cfg.dns_servers.deep_view());
    }
    Some(v)
}

/// Appends the DNS port to each endpoint of a server.
fn ips_with_port(ips: &Vec<String>) -> (r: Vec<String>)
    ensures
        r.deep_view() == Seq::new(ips.deep_view().len(), |i: int| with_port(ips.deep_view()[i])),
{
    let mut r: Vec<String> = Vec::new();
    let n = ips.len();
    let mut i: usize = 0;
    while i < n
        invariant
            n == ips@.len(),
            i <= n,
            r@.len() == i,
            forall|k: int| 0 <= k < i ==> (#[trigger] r@[k]@) == with_port(ips@[k]@),
        decreases n - i,
    {
        let mut ip = ips[i].clone();
        ip.append(":53");
        r.push(ip);
        i = i + 1;
    }
    proof {
        assert(r.deep_view() =~= Seq::new(
            ips.deep_view().len(),
            |i: int| with_port(ips.deep_view()[i]),
        ));
    }
    r
}

/// Registers one more name server: the DNS port is appended to each of its
/// endpoints, and it is added at the end of the server list.
pub fn add_dns_server(cfg: &mut Config, dns: DNS)
    ensures
        final(cfg).spec_servers() == old(cfg).spec_servers().push(dns_with_ports(dns@)),
        final(cfg).spec_path() == old(cfg).spec_path(),
        final(cfg).spec_sort() == old(cfg).spec_sort(),
        final(cfg).spec_queries() == old(cfg).spec_queries(),
        final(cfg).spec_domains() == old(cfg).spec_domains(),
{
    let ips = ips_with_port(&dns.ips);
    let entry = DNS { name: dns.name, ips };
    proof {
        assert(entry@ =~= dns_with_ports(dns@));
    }
    cfg.dns_servers.push(entry);
    proof {
        assert(cfg.dns_servers.deep_view() =~= old(cfg).spec_servers().push(dns_with_ports(dns@)));
    }
}

/// Registers one more test domain: a domain that already ends with a dot
/// gains one more, and it is added at the end of the domain list.
pub fn add_test_domain(cfg: &mut Config, domain: String)
    ensures
        final(cfg).spec_domains() == old(cfg).spec_domains().push(normalized_domain(domain@)),
        final(cfg).spec_path() == old(cfg).spec_path(),
        final(cfg).spec_sort() == old(cfg).spec_sort(),
        final(cfg).spec_queries() == old(cfg).spec_queries(),
        final(cfg).spec_servers() == old(cfg).spec_servers(),
{
    let mut domain = domain;
    let ghost d0 = domain@;
    let n = domain.as_str().unicode_len();
    let ends_dot = if n > 0 {
        domain.as_str().get_char(n - 1) == '.'
    } else {
        false
    };
    if ends_dot {
        domain.append(".");
    }
    cfg.test_domains.push(domain);
    proof {
        assert(cfg.test_domains.deep_view() =~= old(cfg).spec_domains().push(
            normalized_domain(d0),
        ));
    }
}

/// The configured test domains.
pub fn get_test_domains(cfg: &Config) -> (r: Option<Vec<String>>)
    ensures
        r matches Some(v) && v.deep_view() == cfg.spec_domains(),
{
    let v = cfg.test_domains.clone();
    proof {
        assert forall|i: int| 0 <= i < cfg.test_domains@.len() implies v@[i]@
            == cfg.test_domains@[i]@ by {
            assert(cloned::<String>(cfg.test_domains@[i], v@[i]));
        }
        assert(v.deep_view() =~= cfg.test_domains.deep_view());
    }
    Some(v)
}

/// Loads the default name servers and test domains into a fresh
/// configuration.
fn load_default_data(cfg: &mut Config)
    ensures
        final(cfg).spec_servers() == old(cfg).spec_servers() + default_servers(),
        final(cfg).spec_domains() == old(cfg).spec_domains() + default_domains(),
        final(cfg).spec_path() == old(cfg).spec_path(),
        final(cfg).spec_sort() == old(cfg).spec_sort(),
        final(cfg).spec_queries() == old(cfg).spec_queries(),
{
    let mut google_ips: Vec<String> = Vec::new();
    google_ips.push("8.8.8.8".to_owned());
    google_ips.push("8.8.4.4".to_owned());
    let google = DNS { name: "Google".to_owned(), ips: google_ips };
    proof {
        assert(google@ =~= DNSView { name: "Google"@, ips: seq!["8.8.8.8"@, "8.8.4.4"@] });
    }
    add_dns_server(cfg, google);
    let mut cloudflare_ips: Vec<String> = Vec::new();
    cloudflare_ips.push("1.1.1.1".to_owned());
    cloudflare_ips.push("1.0.0.1".to_owned());
    let cloudflare = DNS { name: "Cloudflare".to_owned(), ips: cloudflare_ips };
    proof {
        assert(cloudflare@ =~= DNSView { name: "Cloudflare"@, ips: seq!["1.1.1.1"@, "1.0.0.1"@] });
    }
    add_dns_server(cfg, cloudflare);
    add_test_domain(cfg, "google.com".to_owned());
    add_test_domain(cfg, "facebook.com".to_owned());
    add_test_domain(cfg, "amazon.com".to_owned());
    add_test_domain(cfg, "example.com".to_owned());
    proof {
        assert(cfg.spec_servers() =~= old(cfg).spec_servers() + default_servers());
        assert(cfg.spec_domains() =~= old(cfg).spec_domains() + default_domains());
    }
}

/// Loads the configuration's data; only the built-in defaults exist.
fn load_data(cfg: &mut Config)
    ensures
        final(cfg).spec_servers() == old(cfg).spec_servers() + default_servers(),
        final(cfg).spec_domains() == old(cfg).spec_domains() + default_domains(),
        final(cfg).spec_path() == old(cfg).spec_path(),
        final(cfg).spec_sort() == old(cfg).spec_sort(),
        final(cfg).spec_queries() == old(cfg).spec_queries(),
{
    load_default_data(cfg);
}

} // verus!
