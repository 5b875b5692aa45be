//! Resolver configuration: the nameserver list, the per-query timeout and
//! the attempt count.  Parsing the system resolver configuration file is
//! delegated to the `resolv-conf` crate behind a trusted wrapper; reading
//! the file itself is I/O and stays with the embedding program.

use vstd::prelude::*;

use crate::addr::IpAddr;
use crate::addr::ServerAddr;

verus! {

/// Error when loading the system resolver configuration.
#[derive(Clone, Copy, Debug, PartialEq, Eq, Structural)]
pub enum SystemConfigError {
    /// The configuration file could not be read.
    FileError,
    /// The configuration file could not be parsed.
    ResolvConf,
}

/// What the engine takes from a parsed resolver configuration file.
#[derive(Debug)]
pub struct ResolvConf {
    pub nameservers: Vec<IpAddr>,
    /// Per-query timeout in seconds.
    pub timeout: u32,
    /// Number of rounds to try before giving up.
    pub attempts: u32,
}

/// The mathematical value of a [`ResolvConf`].
pub struct ResolvConfView {
    pub nameservers: Seq<IpAddr>,
    pub timeout: u32,
    pub attempts: u32,
}

impl View for ResolvConf {
    type V = ResolvConfView;

    open spec fn view(&self) -> ResolvConfView {
        ResolvConfView {
            nameservers: self.nameservers@,
            timeout: self.timeout,
            attempts: self.attempts,
        }
    }
}

/// What parsing a resolver configuration file yields, or nothing for a
/// malformed file.  It depends on the bytes alone.
pub uninterp spec fn resolv_of(data: Seq<u8>) -> Option<ResolvConfView>;

#[verifier::external_type_specification]
#[verifier::external_body]
pub struct ExScopedIp(resolv_conf::ScopedIp);

/// Relies on resolv_conf::Config::parse: the outcome is a function of the
/// bytes alone.  The nameserver list, the timeout and the attempt count are
/// copied out; every other directive of the file is ignored.
#[verifier::external_body]
fn parse_resolv(data: &[u8]) -> (r: Option<ResolvConf>)
    ensures
        r matches Some(c) ==> resolv_of(data@) == Some(c@),
        r is None ==> resolv_of(data@) is None,
{
    let c = match resolv_conf::Config::parse(data) {
        Ok(c) => c,
        Err(_) => return None,
    };
    Some(ResolvConf {
        nameservers: c.nameservers.iter().map(ip_of).collect(),
        timeout: c.timeout,
        attempts: c.attempts,
    })
}

/// Relies on the variants of resolv_conf::ScopedIp; reduces one address to
/// its plain form.
#[verifier::external_body]
fn ip_of(ip: &resolv_conf::ScopedIp) -> IpAddr {
    match ip {
        resolv_conf::ScopedIp::V4(a) => IpAddr::V4(u32::from(*a)),
        resolv_conf::ScopedIp::V6(a, _) => {
            let s = a.segments();
            IpAddr::V6(s[0], s[1], s[2], s[3], s[4], s[5], s[6], s[7])
        },
    }
}

/// Resolver configuration.
#[derive(Debug)]
pub struct Config {
    /// The nameservers to query, in rotation order.
    pub nameservers: Vec<ServerAddr>,
    /// Per-query timeout in milliseconds.
    pub timeout: u64,
    /// Number of rounds to try before giving up.
    pub attempts: u32,
}

/// The mathematical value of a [`Config`].
pub struct ConfigView {
    pub nameservers: Seq<ServerAddr>,
    pub timeout: u64,
    pub attempts: u32,
}

impl View for Config {
    type V = ConfigView;

    open spec fn view(&self) -> ConfigView {
        ConfigView {
            nameservers: self.nameservers@,
            timeout: self.timeout,
            attempts: self.attempts,
        }
    }
}

/// A configuration the engine can run on: at least one nameserver, and a
/// positive timeout no larger than what a configuration file can express.
pub open spec fn config_wf(c: ConfigView) -> bool {
    &&& c.nameservers.len() >= 1
    &&& 1 <= c.timeout <= 4_294_967_295_000
}

/// The UDP port DNS servers listen on.
pub const DNS_PORT: u16 = 53;

impl Config {
    /// Builds a configuration from the bytes of a system resolver
    /// configuration file.  Every nameserver is taken with the DNS port; the
    /// timeout moves from seconds to milliseconds, a zero timeout becoming
    /// the smallest positive one.
    pub fn from_resolv_conf(data: &[u8]) -> (r: Result<Config, SystemConfigError>)
        ensures
            match resolv_of(data@) {
                None => r == Err::<Config, SystemConfigError>(SystemConfigError::ResolvConf),
                Some(rc) => {
                    &&& r is Ok
                    &&& r matches Ok(c) ==> {
                        &&& c@.nameservers.len() == rc.nameservers.len()
                        &&& forall|i: int|
                            0 <= i < rc.nameservers.len() ==> c@.nameservers[i] == (ServerAddr {
                                ip: rc.nameservers[i],
                                port: DNS_PORT,
                            })
                        &&& c@.timeout == if rc.timeout == 0 {
                            1int
                        } else {
                            rc.timeout * 1000
                        }
                        &&& c@.attempts == rc.attempts
                    }
                },
            },
    {
        let parsed = match parse_resolv(data) {
            Some(p) => p,
            None => {
                return Err(SystemConfigError::ResolvConf);
            },
        };
        let mut servers: Vec<ServerAddr> = Vec::new();
        let mut i: usize = 0;
        while i < parsed.nameservers.len()
            invariant
                i <= parsed.nameservers@.len(),
                servers@.len() == i,
                forall|k: int|
                    0 <= k < i ==> servers@[k] == (ServerAddr {
                        ip: parsed.nameservers@[k],
                        port: DNS_PORT,
                    }),
            decreases parsed.nameservers@.len() - i,
        {
            servers.push(ServerAddr { ip: parsed.nameservers[i], port: DNS_PORT });
            i = i + 1;
        }
        let timeout: u64 = if parsed.timeout == 0 {
            1
        } else {
            (parsed.timeout as u64) * 1000
        };
        Ok(Config { nameservers: servers, timeout, attempts: parsed.attempts })
    }
}

} // verus!
