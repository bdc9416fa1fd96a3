//! What a scrub needs of a cluster's configuration, and the endpoint that it
//! talks to.

use crate::error::ScrubError;
use crate::text::{decimal_string, text_equal};
use vstd::prelude::*;
use vstd::string::StringExecFns;

#[allow(unused_imports)]
use crate::outside::{ends_with, starts_with};
#[allow(unused_imports)]
use crate::text::{decimal, lemma_decimal_digits};
#[allow(unused_imports)]
use crate::url::{delete_url, host_of, law_host_of_continued_url, list_url, optional_parameter};

verus! {

/// An IP address in its usual notation.
#[derive(Debug)]
pub enum HostIp {
    V4(String),
    V6(String),
}

/// A node of the cluster: its name, and the address at which it is reached.
#[derive(Debug)]
pub struct Node {
    pub id: String,
    pub rpc_ip: HostIp,
}

/// A pair of keys to sign requests with.
#[derive(Debug)]
pub struct Credential {
    pub access_key: String,
    pub secret_key: String,
}

/// A cluster.
#[derive(Debug)]
pub struct ClusterConfig {
    /// The node that the configuration is for.
    pub self_id: String,
    pub nodes: Vec<Node>,
    /// The port of the S3 endpoint, where it is set apart.
    pub s3_port: Option<u16>,
    /// The port of the address that the S3 endpoint listens on.
    pub s3_addr_port: u16,
    /// Whether the S3 endpoint speaks TLS.
    pub s3_tls: bool,
    pub region: String,
    pub credentials: Vec<Credential>,
}

/// Where a scrub sends its requests, and how it signs them.
#[derive(Debug)]
pub struct Target {
    pub node_id: String,
    pub base_url: String,
    pub region: String,
    pub credential: Credential,
}

/// An address and a port as one text: an address of version 6 stands in brackets.
pub open spec fn socket_text(ip: HostIp, port: nat) -> Seq<char> {
    match ip {
        HostIp::V4(text) => text@ + ":"@ + decimal(port),
        HostIp::V6(text) => "["@ + text@ + "]:"@ + decimal(port),
    }
}

/// The name of the protocol, up to the host.
pub open spec fn scheme_text(tls: bool) -> Seq<char> {
    if tls {
        "https://"@
    } else {
        "http://"@
    }
}

/// The port of the S3 endpoint.
pub open spec fn endpoint_port(config: ClusterConfig) -> nat {
    match config.s3_port {
        Some(port) => port as nat,
        None => config.s3_addr_port as nat,
    }
}

/// The node at `i` is the first with the configuration's own name.
pub open spec fn is_self_node(config: ClusterConfig, i: int) -> bool {
    &&& 0 <= i < config.nodes@.len()
    &&& config.nodes@[i].id@ == config.self_id@
    &&& forall|j: int| 0 <= j < i ==> (#[trigger] config.nodes@[j]).id@ != config.self_id@
}

/// `target` is the S3 endpoint on the configuration's own node, with the first
/// credential.
pub open spec fn is_target(config: ClusterConfig, target: Target) -> bool {
    &&& exists|i: int|
        is_self_node(config, i) && target.node_id@ == #[trigger] config.nodes@[i].id@
            && target.base_url@ == scheme_text(config.s3_tls) + socket_text(
            config.nodes@[i].rpc_ip,
            endpoint_port(config),
        )
    &&& target.region@ == config.region@
    &&& config.credentials@.len() > 0
    &&& target.credential.access_key@ == config.credentials@[0].access_key@
    &&& target.credential.secret_key@ == config.credentials@[0].secret_key@
}

/// Writes an address and a port as one text.
pub fn socket_address(ip: &HostIp, port: u16) -> (r: String)
    ensures
        r@ == socket_text(*ip, port as nat),
        r@ == (match *ip {
            HostIp::V4(text) => text@ + ":"@,
            HostIp::V6(text) => "["@ + text@ + "]:"@,
        }) + decimal(port as nat),
{
    let port = decimal_string(port as u64);
    match ip {
        HostIp::V4(text) => text.clone().concat(":").concat(port.as_str()),
        HostIp::V6(text) => "[".to_owned().concat(text.as_str()).concat("]:").concat(
            port.as_str(),
        ),
    }
}

fn find_self_node(config: &ClusterConfig) -> (r: Option<usize>)
    ensures
        match r {
            Some(i) => is_self_node(*config, i as int),
            None => forall|i: int| !is_self_node(*config, i),
        },
{
    for i in 0..config.nodes.len()
        invariant
            forall|j: int| 0 <= j < i ==> (#[trigger] config.nodes@[j]).id@ != config.self_id@,
    {
        if text_equal(config.nodes[i].id.as_str(), config.self_id.as_str()) {
            return Some(i);
        }
    }
    None
}

proof fn lemma_first_self_node(config: ClusterConfig)
    requires
        forall|i: int| !is_self_node(config, i),
    ensures
        forall|i: int|
            0 <= i < config.nodes@.len() ==> (#[trigger] config.nodes@[i]).id@ != config.self_id@,
{
    assert forall|i: int| 0 <= i < config.nodes@.len() implies (#[trigger] config.nodes@[i]).id@
        != config.self_id@ by {
        lemma_not_self_node(config, i);
    }
}

proof fn lemma_not_self_node(config: ClusterConfig, i: int)
    requires
        forall|i: int| !is_self_node(config, i),
        0 <= i < config.nodes@.len(),
    ensures
        config.nodes@[i].id@ != config.self_id@,
        forall|j: int| 0 <= j < i ==> (#[trigger] config.nodes@[j]).id@ != config.self_id@,
    decreases i,
{
    if i > 0 {
        lemma_not_self_node(config, i - 1);
    }
    assert(!is_self_node(config, i));
}

/// The base URL of a target ends with a colon and the port: that of the S3 endpoint
/// whenever it is set apart, with TLS or without, and else that of the address it
/// listens on. It begins with the scheme for TLS exactly if the endpoint speaks it,
/// and between the two stands the address of the first node with the cluster's own
/// name. Region and credential are the cluster's, and the first.
pub proof fn law_target(config: ClusterConfig, target: Target)
    requires
        is_target(config, target),
    ensures
        config.s3_port matches Some(port) ==> ends_with(
            target.base_url@,
            ":"@ + decimal(port as nat),
        ),
        config.s3_port is None ==> ends_with(
            target.base_url@,
            ":"@ + decimal(config.s3_addr_port as nat),
        ),
        config.s3_tls <==> starts_with(target.base_url@, "https://"@),
        !config.s3_tls <==> starts_with(target.base_url@, "http://"@),
        target.node_id@ == config.self_id@,
        exists|i: int|
            {
                &&& 0 <= i < config.nodes@.len()
                &&& (#[trigger] config.nodes@[i]).id@ == config.self_id@
                &&& forall|j: int|
                    0 <= j < i ==> (#[trigger] config.nodes@[j]).id@ != config.self_id@
                &&& target.base_url@ == (if config.s3_tls {
                    "https://"@
                } else {
                    "http://"@
                }) + (match config.nodes@[i].rpc_ip {
                    HostIp::V4(text) => text@ + ":"@,
                    HostIp::V6(text) => "["@ + text@ + "]:"@,
                }) + decimal(
                    match config.s3_port {
                        Some(port) => port as nat,
                        None => config.s3_addr_port as nat,
                    },
                )
            },
        target.region@ == config.region@,
        config.credentials@.len() > 0,
        target.credential.access_key@ == config.credentials@[0].access_key@,
        target.credential.secret_key@ == config.credentials@[0].secret_key@,
{
    reveal_strlit(":");
    reveal_strlit("]:");
    reveal_strlit("http://");
    reveal_strlit("https://");
    let i = choose|i: int|
        is_self_node(config, i) && target.node_id@ == #[trigger] config.nodes@[i].id@
            && target.base_url@ == scheme_text(config.s3_tls) + socket_text(
            config.nodes@[i].rpc_ip,
            endpoint_port(config),
        );
    let scheme = scheme_text(config.s3_tls);
    let digits = decimal(
        match config.s3_port {
            Some(port) => port as nat,
            None => config.s3_addr_port as nat,
        },
    );
    let url = target.base_url@;
    let host = match config.nodes@[i].rpc_ip {
        HostIp::V4(text) => text@ + ":"@,
        HostIp::V6(text) => "["@ + text@ + "]:"@,
    };
    assert(url =~= scheme + host + digits);
    let end = ":"@ + digits;
    assert(host.last() == ':');
    assert(url.skip(url.len() - end.len()) =~= end);
    assert(url.take(scheme.len() as int) =~= scheme);
    if config.s3_tls {
        assert(url[4] == scheme[4]);
        if starts_with(url, "http://"@) {
            assert(url.take(7)[4] == ':');
        }
    } else {
        assert(url[4] == scheme[4]);
        if starts_with(url, "https://"@) {
            assert(url.take(8)[4] == 's');
        }
    }
}

impl ClusterConfig {
    /// Finds the endpoint to talk to: `None` in a configuration without nodes.
    /// Otherwise the configuration must hold its own node and, asked for next,
    /// a credential.
    pub fn target(&self) -> (r: Result<Option<Target>, ScrubError>)
        ensures
            r matches Ok(None) <==> self.nodes@.len() == 0,
            r matches Err(ScrubError::SelfNodeMissing) <==> self.nodes@.len() > 0 && forall|i: int|
                !is_self_node(*self, i),
            r matches Err(ScrubError::NoCredential) <==> (exists|i: int| is_self_node(*self, i))
                && self.credentials@.len() == 0,
            r matches Err(e) ==> e is SelfNodeMissing || e is NoCredential,
            r matches Ok(Some(target)) ==> is_target(*self, target),
            self.nodes@.len() == 0 ==> r matches Ok(None),
            r matches Ok(None) ==> self.nodes@.len() == 0,
            (self.nodes@.len() > 0 && forall|i: int|
                0 <= i < self.nodes@.len() ==> (#[trigger] self.nodes@[i]).id@ != self.self_id@)
                <==> r matches Err(ScrubError::SelfNodeMissing),
            ((exists|i: int|
                0 <= i < self.nodes@.len() && (#[trigger] self.nodes@[i]).id@ == self.self_id@)
                && self.credentials@.len() == 0) <==> r matches Err(ScrubError::NoCredential),
            r matches Ok(Some(target)) ==> {
                &&& target.node_id@ == self.self_id@
                &&& exists|i: int|
                    {
                        &&& 0 <= i < self.nodes@.len()
                        &&& (#[trigger] self.nodes@[i]).id@ == self.self_id@
                        &&& forall|j: int|
                            0 <= j < i ==> (#[trigger] self.nodes@[j]).id@ != self.self_id@
                        &&& target.base_url@ == (if self.s3_tls {
                            "https://"@
                        } else {
                            "http://"@
                        }) + (match self.nodes@[i].rpc_ip {
                            HostIp::V4(text) => text@ + ":"@,
                            HostIp::V6(text) => "["@ + text@ + "]:"@,
                        }) + decimal(
                            match self.s3_port {
                                Some(port) => port as nat,
                                None => self.s3_addr_port as nat,
                            },
                        )
                    }
                &&& target.region@ == self.region@
                &&& self.credentials@.len() > 0
                &&& target.credential.access_key@ == self.credentials@[0].access_key@
                &&& target.credential.secret_key@ == self.credentials@[0].secret_key@
            },
    {
        if self.nodes.len() == 0 {
            return Ok(None);
        }
        match find_self_node(self) {
            None => {
                proof {
                    lemma_first_self_node(*self);
                }
                Err(ScrubError::SelfNodeMissing)
            },
            Some(i) => {
                let port = match self.s3_port {
                    Some(port) => port,
                    None => self.s3_addr_port,
                };
                let scheme = if self.s3_tls {
                    "https://"
                } else {
                    "http://"
                };
                if self.credentials.len() == 0 {
                    return Err(ScrubError::NoCredential);
                }
                let target = Target {
                    node_id: self.nodes[i].id.clone(),
                    base_url: scheme.to_owned().concat(
                        socket_address(&self.nodes[i].rpc_ip, port).as_str(),
                    ),
                    region: self.region.clone(),
                    credential: Credential {
                        access_key: self.credentials[0].access_key.clone(),
                        secret_key: self.credentials[0].secret_key.clone(),
                    },
                };
                assert(target.node_id@ == self.nodes@[i as int].id@);
                proof {
                    law_target(*self, target);
                }
                Ok(Some(target))
            },
        }
    }
}

/// An address as it is written.
pub open spec fn ip_text(ip: HostIp) -> Seq<char> {
    match ip {
        HostIp::V4(text) => text@,
        HostIp::V6(text) => text@,
    }
}

/// The host that is signed for a URL at an endpoint is the endpoint's own address
/// and port, whatever follows in the URL; and the URL names its scheme.
pub proof fn law_host_is_the_endpoint(tls: bool, ip: HostIp, port: nat, path: Seq<char>)
    requires
        !ip_text(ip).contains('/'),
    ensures
        ({
            let url = scheme_text(tls) + socket_text(ip, port) + "/"@ + path;
            &&& host_of(url) == socket_text(ip, port)
            &&& starts_with(url, "http://"@) || starts_with(url, "https://"@)
        }),
{
    reveal_strlit("http:");
    reveal_strlit("https:");
    reveal_strlit("http://");
    reveal_strlit("https://");
    reveal_strlit("//");
    reveal_strlit("[");
    reveal_strlit("]:");
    reveal_strlit(":");
    lemma_decimal_digits(port);
    let name = if tls { "https:"@ } else { "http:"@ };
    let host = socket_text(ip, port);
    let text = ip_text(ip);
    let digits = decimal(port);
    assert forall|i: int| 0 <= i < host.len() implies host[i] != '/' by {
        let offset: int = if ip is V4 { 0 } else { 1 };
        if offset <= i < offset + text.len() {
            assert(host[i] == text[i - offset]);
            assert(text.contains(text[i - offset]));
        }
        let tail = host.len() - digits.len();
        if i >= tail {
            assert(host[i] == digits[i - tail]);
        }
    }
    assert(scheme_text(tls) =~= name + "//"@);
    let url = scheme_text(tls) + host + "/"@ + path;
    law_host_of_continued_url(name, host, path);
    assert(url =~= name + "//"@ + host + "/"@ + path);
    let n = scheme_text(tls).len() as int;
    assert(url.take(n) =~= scheme_text(tls));
}

/// The host that is signed for a page of a listing or for a deletion is the
/// address and port of the endpoint that the request is sent to.
pub proof fn law_signed_host(
    tls: bool,
    ip: HostIp,
    port: nat,
    bucket: Seq<char>,
    prefix: Option<Seq<char>>,
    token: Option<Seq<char>>,
    max_keys: nat,
)
    requires
        !ip_text(ip).contains('/'),
    ensures
        ({
            let base_url = scheme_text(tls) + socket_text(ip, port);
            let listing = list_url(base_url, bucket, prefix, token, max_keys);
            &&& host_of(listing) == socket_text(ip, port)
            &&& host_of(delete_url(base_url, bucket)) == socket_text(ip, port)
        }),
{
    let base_url = scheme_text(tls) + socket_text(ip, port);
    let listed = bucket + "?list-type=2&max-keys="@ + decimal(max_keys) + optional_parameter(
        "prefix"@,
        prefix,
    ) + optional_parameter("continuation-token"@, token);
    law_host_is_the_endpoint(tls, ip, port, listed);
    assert(list_url(base_url, bucket, prefix, token, max_keys) =~= base_url + "/"@ + listed);
    law_host_is_the_endpoint(tls, ip, port, bucket + "?delete"@);
    assert(delete_url(base_url, bucket) =~= base_url + "/"@ + (bucket + "?delete"@));
}

/// What is said where the configuration describes no node.
pub open spec fn no_nodes_text(config_path: Seq<char>) -> Seq<char> {
    "no openlake cluster detected: "@ + config_path + " declares zero nodes"@
}

/// Says that the configuration describes no node.
pub fn no_nodes_line(config_path: &str) -> (r: String)
    ensures
        r@ == no_nodes_text(config_path@),
        r@ == "no openlake cluster detected: "@ + config_path@ + " declares zero nodes"@,
{
    "no openlake cluster detected: ".to_owned().concat(config_path).concat(" declares zero nodes")
}

/// What is said of the endpoint before the first request.
pub open spec fn endpoint_text(node_id: Seq<char>, base_url: Seq<char>) -> Seq<char> {
    "using S3 endpoint on node "@ + node_id + ": "@ + base_url
}

impl Target {
    /// Says which endpoint is used.
    pub fn line(&self) -> (r: String)
        ensures
            r@ == endpoint_text(self.node_id@, self.base_url@),
            r@ == "using S3 endpoint on node "@ + self.node_id@ + ": "@ + self.base_url@,
    {
        "using S3 endpoint on node ".to_owned().concat(self.node_id.as_str()).concat(": ").concat(
            self.base_url.as_str(),
        )
    }
}

} // verus!
