//! The settings of the proxy: as text, the way a configuration file holds
//! them, and checked, the way the server runs on them.

use vstd::prelude::*;
use vstd::string::StrSliceExecFns;

verus! {

/// The settings as a configuration file holds them.
#[derive(Debug, PartialEq, Eq)]
pub struct Config {
    pub server: ServerConfig,
    pub filtering: FilteringConfig,
    pub logging: LoggingConfig,
}

/// Where to listen and whom to ask, each as `address:port`.
#[derive(Debug, PartialEq, Eq)]
pub struct ServerConfig {
    pub listen_addr: String,
    pub upstream_servers: Vec<String>,
}

/// Whether to filter, and by which strategy.
#[derive(Debug, PartialEq, Eq)]
pub struct FilteringConfig {
    pub enabled: bool,
    pub strategy: String,
}

/// How much to log.
#[derive(Debug, PartialEq, Eq)]
pub struct LoggingConfig {
    pub level: String,
    pub enable_stats: bool,
}

/// The texts that a vector of strings holds.
pub open spec fn texts_of(strings: Seq<String>) -> Seq<Seq<char>> {
    Seq::new(strings.len(), |i: int| strings[i]@)
}

impl Clone for ServerConfig {
    fn clone(&self) -> (copy: Self)
        ensures
            copy.listen_addr == self.listen_addr,
            copy.upstream_servers@ == self.upstream_servers@,
    {
        let upstream_servers = self.upstream_servers.clone();
        assert(upstream_servers@ =~= self.upstream_servers@);
        ServerConfig { listen_addr: self.listen_addr.clone(), upstream_servers }
    }
}

impl Clone for FilteringConfig {
    fn clone(&self) -> (copy: Self)
        ensures
            copy == *self,
    {
        FilteringConfig { enabled: self.enabled, strategy: self.strategy.clone() }
    }
}

impl Clone for LoggingConfig {
    fn clone(&self) -> (copy: Self)
        ensures
            copy == *self,
    {
        LoggingConfig { level: self.level.clone(), enable_stats: self.enable_stats }
    }
}

impl Clone for Config {
    fn clone(&self) -> (copy: Self)
        ensures
            copy.server.listen_addr == self.server.listen_addr,
            copy.server.upstream_servers@ == self.server.upstream_servers@,
            copy.filtering == self.filtering,
            copy.logging == self.logging,
    {
        Config {
            server: self.server.clone(),
            filtering: self.filtering.clone(),
            logging: self.logging.clone(),
        }
    }
}

impl Config {
    /// The settings that hold where no configuration file is found: listen
    /// on port 53 of every interface, ask three public resolvers, filter
    /// dual-stack names, log at level `info` with statistics.
    pub open spec fn is_default(self) -> bool {
        &&& self.server.listen_addr@ == "0.0.0.0:53"@
        &&& texts_of(self.server.upstream_servers@) == seq![
            "223.5.5.5:53"@,
            "114.114.114.114:53"@,
            "8.8.8.8:53"@,
        ]
        &&& self.filtering.enabled
        &&& self.filtering.strategy@ == "dual_stack_only"@
        &&& self.logging.level@ == "info"@
        &&& self.logging.enable_stats
    }
}

impl Default for Config {
    fn default() -> (config: Config)
        ensures
            config.is_default(),
    {
        let mut upstream_servers: Vec<String> = Vec::new();
        upstream_servers.push("223.5.5.5:53".to_string());
        upstream_servers.push("114.114.114.114:53".to_string());
        upstream_servers.push("8.8.8.8:53".to_string());
        assert(texts_of(upstream_servers@) =~= seq![
            "223.5.5.5:53"@,
            "114.114.114.114:53"@,
            "8.8.8.8:53"@,
        ]);
        Config {
            server: ServerConfig { listen_addr: "0.0.0.0:53".to_string(), upstream_servers },
            filtering: FilteringConfig { enabled: true, strategy: "dual_stack_only".to_string() },
            logging: LoggingConfig { level: "info".to_string(), enable_stats: true },
        }
    }
}

/// An IP address as its bytes in network order.
#[derive(Clone, Copy, Debug, PartialEq, Eq)]
pub enum IpAddress {
    V4([u8; 4]),
    V6([u8; 16]),
}

/// An IP address and a port.
#[derive(Clone, Copy, Debug, PartialEq, Eq)]
pub struct SocketAddress {
    pub ip: IpAddress,
    pub port: u16,
}

/// The settings a running server works on.
#[derive(Debug, PartialEq, Eq)]
pub struct DnsServerConfig {
    /// Where the server listens for datagrams.
    pub listen_addr: SocketAddress,
    /// The resolvers that questions are passed on to; never empty.
    pub upstream_servers: Vec<SocketAddress>,
    /// Whether answers of dual-stack names are held back.
    pub filter_ipv6: bool,
}

/// Why settings cannot be run on.
#[derive(Clone, Copy, Debug, PartialEq, Eq)]
pub enum ConfigError {
    /// The listen address is no socket address.
    InvalidListenAddress,
    /// The upstream server at this place in the list is no socket address.
    InvalidUpstreamAddress(usize),
    /// The list of upstream servers is empty.
    NoUpstreamServers,
}

/// The first place of `addresses` that holds no address, or its length
/// where every place holds one.
pub open spec fn first_invalid(addresses: Seq<Option<SocketAddress>>) -> int
    decreases addresses.len(),
{
    if addresses.len() == 0 {
        0
    } else if addresses[0] is None {
        0
    } else {
        1 + first_invalid(addresses.drop_first())
    }
}

/// What `DnsServerConfig::assemble` makes of its arguments.
pub open spec fn assembled(
    listen_addr: Option<SocketAddress>,
    upstream_servers: Seq<Option<SocketAddress>>,
    filter_ipv6: bool,
) -> Result<(SocketAddress, Seq<SocketAddress>, bool), ConfigError> {
    if listen_addr is None {
        Err(ConfigError::InvalidListenAddress)
    } else if first_invalid(upstream_servers) < upstream_servers.len() {
        Err(ConfigError::InvalidUpstreamAddress(first_invalid(upstream_servers) as usize))
    } else if upstream_servers.len() == 0 {
        Err(ConfigError::NoUpstreamServers)
    } else {
        Ok(
            (
                listen_addr->Some_0,
                Seq::new(upstream_servers.len(), |i: int| upstream_servers[i]->Some_0),
                filter_ipv6,
            ),
        )
    }
}

/// The first place without an address is the one before which every place
/// holds one.
proof fn lemma_first_invalid(addresses: Seq<Option<SocketAddress>>, n: int)
    requires
        0 <= n <= addresses.len(),
        forall|j: int| 0 <= j < n ==> addresses[j] is Some,
        n < addresses.len() ==> addresses[n] is None,
    ensures
        first_invalid(addresses) == n,
    decreases n,
{
    if n > 0 {
        let rest = addresses.drop_first();
        assert forall|j: int| 0 <= j < n - 1 implies rest[j] is Some by {
            assert(rest[j] == addresses[j + 1]);
        }
        lemma_first_invalid(rest, n - 1);
    }
}

impl DnsServerConfig {
    /// Builds the settings from addresses that were read from text, where
    /// `None` stands for text that is no socket address. The listen address
    /// is looked at first, then the upstream servers in their order.
    pub fn assemble(
        listen_addr: Option<SocketAddress>,
        upstream_servers: Vec<Option<SocketAddress>>,
        filter_ipv6: bool,
    ) -> (outcome: Result<DnsServerConfig, ConfigError>)
        ensures
            match assembled(listen_addr, upstream_servers@, filter_ipv6) {
                Ok((listen, upstreams, filter)) => outcome matches Ok(config)
                    && config.listen_addr == listen && config.upstream_servers@ == upstreams
                    && config.filter_ipv6 == filter,
                Err(error) => outcome == Err::<DnsServerConfig, ConfigError>(error),
            },
    {
        let listen = match listen_addr {
            Some(address) => address,
            None => {
                return Err(ConfigError::InvalidListenAddress);
            },
        };
        let mut servers: Vec<SocketAddress> = Vec::new();
        let mut i: usize = 0;
        while i < upstream_servers.len()
            invariant
                listen_addr is Some,
                i <= upstream_servers.len(),
                servers.len() == i,
                forall|j: int| 0 <= j < i ==> (#[trigger] upstream_servers[j]) == Some(servers[j]),
            decreases upstream_servers.len() - i,
        {
            match upstream_servers[i] {
                Some(address) => {
                    servers.push(address);
                },
                None => {
                    proof {
                        lemma_first_invalid(upstream_servers@, i as int);
                    }
                    return Err(ConfigError::InvalidUpstreamAddress(i));
                },
            }
            i += 1;
        }
        proof {
            lemma_first_invalid(upstream_servers@, i as int);
        }
        if servers.len() == 0 {
            return Err(ConfigError::NoUpstreamServers);
        }
        assert(servers@ =~= Seq::new(
            upstream_servers@.len(),
            |i: int| upstream_servers@[i]->Some_0,
        ));
        Ok(DnsServerConfig { listen_addr: listen, upstream_servers: servers, filter_ipv6 })
    }
}

/// The white space of Unicode, which is what surrounds an entry of a list
/// without belonging to it.
pub open spec fn is_space(c: char) -> bool {
    let code = c as u32;
    ||| 0x09 <= code <= 0x0D
    ||| code == 0x20
    ||| code == 0x85
    ||| code == 0xA0
    ||| code == 0x1680
    ||| 0x2000 <= code <= 0x200A
    ||| code == 0x2028
    ||| code == 0x2029
    ||| code == 0x202F
    ||| code == 0x205F
    ||| code == 0x3000
}

/// The text without the white space at its beginning.
pub open spec fn trim_start(text: Seq<char>) -> Seq<char>
    decreases text.len(),
{
    if text.len() > 0 && is_space(text[0]) {
        trim_start(text.drop_first())
    } else {
        text
    }
}

/// The text without the white space at its end.
pub open spec fn trim_end(text: Seq<char>) -> Seq<char>
    decreases text.len(),
{
    if text.len() > 0 && is_space(text.last()) {
        trim_end(text.drop_last())
    } else {
        text
    }
}

/// The text without the white space at either end.
pub open spec fn trimmed(text: Seq<char>) -> Seq<char> {
    trim_end(trim_start(text))
}

/// The place of the first comma in the text, or the length of the text
/// where it holds none.
pub open spec fn first_comma(text: Seq<char>) -> int
    decreases text.len(),
{
    if text.len() == 0 || text[0] == ',' {
        0
    } else {
        1 + first_comma(text.drop_first())
    }
}

/// The upstream servers that a text lists: the pieces between its commas,
/// each without the white space around it, those left out that are empty
/// then.
pub open spec fn upstream_list(text: Seq<char>) -> Seq<Seq<char>>
    decreases text.len(),
{
    let comma = first_comma(text);
    let entry = trimmed(text.take(comma));
    let here = if entry.len() > 0 {
        seq![entry]
    } else {
        Seq::empty()
    };
    if 0 <= comma < text.len() {
        here + upstream_list(text.skip(comma + 1))
    } else {
        here
    }
}

/// The first comma is the one before which there is none.
proof fn lemma_first_comma(text: Seq<char>, comma: int)
    requires
        0 <= comma <= text.len(),
        forall|j: int| 0 <= j < comma ==> text[j] != ',',
        comma < text.len() ==> text[comma] == ',',
    ensures
        first_comma(text) == comma,
    decreases comma,
{
    if comma > 0 {
        let rest = text.drop_first();
        assert forall|j: int| 0 <= j < comma - 1 implies rest[j] != ',' by {
            assert(rest[j] == text[j + 1]);
        }
        lemma_first_comma(rest, comma - 1);
    }
}

/// The white space at the beginning ends where the first other character
/// stands.
proof fn lemma_trim_start(text: Seq<char>, from: int)
    requires
        0 <= from <= text.len(),
        forall|j: int| 0 <= j < from ==> is_space(text[j]),
        from < text.len() ==> !is_space(text[from]),
    ensures
        trim_start(text) == text.skip(from),
    decreases from,
{
    if from > 0 {
        let rest = text.drop_first();
        assert forall|j: int| 0 <= j < from - 1 implies is_space(rest[j]) by {
            assert(rest[j] == text[j + 1]);
        }
        lemma_trim_start(rest, from - 1);
        assert(rest.skip(from - 1) =~= text.skip(from));
    } else {
        assert(text.skip(0) =~= text);
    }
}

/// The white space at the end begins after the last other character.
proof fn lemma_trim_end(text: Seq<char>, to: int)
    requires
        0 <= to <= text.len(),
        forall|j: int| to <= j < text.len() ==> is_space(text[j]),
        to > 0 ==> !is_space(text[to - 1]),
    ensures
        trim_end(text) == text.take(to),
    decreases text.len() - to,
{
    if to < text.len() {
        let rest = text.drop_last();
        assert(is_space(text[text.len() - 1]));
        lemma_trim_end(rest, to);
        assert(rest.take(to) =~= text.take(to));
    } else {
        assert(text.take(to) =~= text);
    }
}

/// Says whether a character is white space.
pub fn is_whitespace(c: char) -> (space: bool)
    ensures
        space == is_space(c),
{
    let code = c as u32;
    (0x09 <= code && code <= 0x0D) || code == 0x20 || code == 0x85 || code == 0xA0 || code
        == 0x1680 || (0x2000 <= code && code <= 0x200A) || code == 0x2028 || code == 0x2029
        || code == 0x202F || code == 0x205F || code == 0x3000
}

/// Reads a list of upstream servers from a text that separates them by
/// commas.
pub fn parse_upstream_list(text: &str) -> (servers: Vec<String>)
    ensures
        texts_of(servers@) == upstream_list(text@),
{
    let len = text.unicode_len();
    let mut servers: Vec<String> = Vec::new();
    let mut from: usize = 0;
    let mut done = false;
    assert(text@.skip(0) =~= text@);
    assert(texts_of(servers@) =~= Seq::<Seq<char>>::empty());
    assert(Seq::<Seq<char>>::empty() + upstream_list(text@) =~= upstream_list(text@));
    while !done
        invariant
            len == text@.len(),
            from <= len,
            !done ==> upstream_list(text@) == texts_of(servers@) + upstream_list(
                text@.skip(from as int),
            ),
            done ==> upstream_list(text@) == texts_of(servers@),
        decreases len - from, if done { 0int } else { 1int },
    {
        let ghost rest = text@.skip(from as int);
        let mut comma: usize = from;
        while comma < len && text.get_char(comma) != ','
            invariant
                len == text@.len(),
                from <= comma <= len,
                forall|j: int| from <= j < comma ==> text@[j] != ',',
            decreases len - comma,
        {
            comma += 1;
        }
        let mut first: usize = from;
        while first < comma && is_whitespace(text.get_char(first))
            invariant
                len == text@.len(),
                from <= first <= comma <= len,
                forall|j: int| from <= j < first ==> is_space(text@[j]),
            decreases comma - first,
        {
            first += 1;
        }
        let mut last: usize = comma;
        while last > first && is_whitespace(text.get_char(last - 1))
            invariant
                len == text@.len(),
                first <= last <= comma <= len,
                forall|j: int| last <= j < comma ==> is_space(text@[j]),
            decreases last,
        {
            last -= 1;
        }
        proof {
            lemma_first_comma(rest, comma - from);
            let piece = rest.take(comma - from);
            assert(piece =~= text@.subrange(from as int, comma as int));
            lemma_trim_start(piece, first - from);
            let front = piece.skip(first - from);
            assert(front =~= text@.subrange(first as int, comma as int));
            lemma_trim_end(front, last - first);
            assert(front.take(last - first) =~= text@.subrange(first as int, last as int));
            if comma < len {
                assert(rest.skip(comma - from + 1) =~= text@.skip(comma + 1));
            }
        }
        let ghost before = texts_of(servers@);
        if first < last {
            let entry = text.substring_char(first, last).to_string();
            servers.push(entry);
            assert(texts_of(servers@) =~= before + seq![entry@]);
            assert(before + (seq![entry@] + upstream_list(text@.skip(comma + 1))) =~= before
                + seq![entry@] + upstream_list(text@.skip(comma + 1)));
        } else {
            assert(Seq::<Seq<char>>::empty() + upstream_list(text@.skip(comma + 1))
                =~= upstream_list(text@.skip(comma + 1)));
            assert(before + Seq::<Seq<char>>::empty() =~= before);
        }
        if comma < len {
            from = comma + 1;
        } else {
            from = len;
            done = true;
        }
    }
    servers
}

/// Says whether the list of upstream servers from the environment takes the
/// place of the configured one: only inside a container, and only where the
/// variable is set to a text that is not empty.
pub open spec fn overrides(in_container: bool, upstream_dns: Option<Seq<char>>) -> bool {
    in_container && (upstream_dns matches Some(text) && text.len() > 0)
}

impl Config {
    /// Puts the list of upstream servers from the environment in the place
    /// of the configured one where `overrides` says so, and changes nothing
    /// else.
    pub fn with_upstream_override(self, in_container: bool, upstream_dns: Option<&str>) -> (config:
        Config)
        ensures
            config.server.listen_addr == self.server.listen_addr,
            config.filtering == self.filtering,
            config.logging == self.logging,
            match upstream_dns {
                Some(text) if overrides(in_container, Some(text@)) => texts_of(
                    config.server.upstream_servers@,
                ) == upstream_list(text@),
                _ => config.server.upstream_servers == self.server.upstream_servers,
            },
    {
        if !in_container {
            return self;
        }
        match upstream_dns {
            Some(text) => {
                if text.unicode_len() == 0 {
                    return self;
                }
                let upstream_servers = parse_upstream_list(text);
                Config {
                    server: ServerConfig { listen_addr: self.server.listen_addr, upstream_servers },
                    filtering: self.filtering,
                    logging: self.logging,
                }
            },
            None => self,
        }
    }
}

/// The systems that the place of the configuration file depends on.
#[derive(Clone, Copy, Debug, PartialEq, Eq)]
pub enum Platform {
    Linux,
    Windows,
    MacOs,
    Other,
}

/// Where the configuration file is looked for.
#[derive(Clone, Copy, Debug, PartialEq, Eq)]
pub enum ConfigLocation {
    /// At `/etc/ipv6filter/config.toml`.
    SystemDirectory,
    /// In the directory of the executable, under the name `config.toml`.
    BesideExecutable,
    /// In the working directory, under the name `config.toml`.
    WorkingDirectory,
}

/// The place of the configuration file on a platform.
pub open spec fn location_on(platform: Platform) -> ConfigLocation {
    match platform {
        Platform::Linux => ConfigLocation::SystemDirectory,
        Platform::Windows => ConfigLocation::BesideExecutable,
        Platform::MacOs => ConfigLocation::BesideExecutable,
        Platform::Other => ConfigLocation::WorkingDirectory,
    }
}

/// Says where the configuration file is looked for on a platform.
pub fn config_location(platform: Platform) -> (location: ConfigLocation)
    ensures
        location == location_on(platform),
{
    match platform {
        Platform::Linux => ConfigLocation::SystemDirectory,
        Platform::Windows => ConfigLocation::BesideExecutable,
        Platform::MacOs => ConfigLocation::BesideExecutable,
        Platform::Other => ConfigLocation::WorkingDirectory,
    }
}

} // verus!
