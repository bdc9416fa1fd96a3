use openlake_scrub::args::{Cmd, ScrubArgs};
use openlake_scrub::config::{
    no_nodes_line, socket_address, ClusterConfig, Credential, HostIp, Node,
};
use openlake_scrub::error::ScrubError;
use openlake_scrub::listing::{ListBucketObject, ListBucketResult};
use openlake_scrub::session::{open_session, Action, Opening};

fn node(id: &str, ip: &str) -> Node {
    Node { id: id.to_string(), rpc_ip: HostIp::V4(ip.to_string()) }
}

fn credential(access_key: &str) -> Credential {
    Credential { access_key: access_key.to_string(), secret_key: "secret".to_string() }
}

fn config() -> ClusterConfig {
    ClusterConfig {
        self_id: "2".to_string(),
        nodes: vec![node("1", "10.0.0.1"), node("2", "10.0.0.2"), node("2", "10.0.0.3")],
        s3_port: None,
        s3_addr_port: 9000,
        s3_tls: false,
        region: "us-east-1".to_string(),
        credentials: vec![credential("first"), credential("second")],
    }
}

fn args(dry_run: bool) -> ScrubArgs {
    ScrubArgs { config: "/etc/cluster.toml".to_string(), dry_run }
}

#[test]
fn target_is_the_first_node_of_that_name() {
    let target = config().target().unwrap().unwrap();
    assert_eq!(target.node_id, "2");
    assert_eq!(target.base_url, "http://10.0.0.2:9000");
    assert_eq!(target.region, "us-east-1");
    assert_eq!(target.credential.access_key, "first");
    assert_eq!(target.credential.secret_key, "secret");
    assert_eq!(target.line(), "using S3 endpoint on node 2: http://10.0.0.2:9000");
}

#[test]
fn target_with_tls_and_its_own_port() {
    let mut config = config();
    config.s3_port = Some(443);
    config.s3_tls = true;
    config.nodes[1].rpc_ip = HostIp::V6("fd00::2".to_string());
    let target = config.target().unwrap().unwrap();
    assert_eq!(target.base_url, "https://[fd00::2]:443");
}

#[test]
fn socket_addresses_as_std_writes_them() {
    assert_eq!(socket_address(&HostIp::V4("127.0.0.1".to_string()), 80), "127.0.0.1:80");
    assert_eq!(socket_address(&HostIp::V6("::1".to_string()), 65535), "[::1]:65535");
}

#[test]
fn no_nodes() {
    let mut config = config();
    config.nodes.clear();
    config.credentials.clear();
    assert!(config.target().unwrap().is_none());
    match open_session(&args(true), &config, ".sys").unwrap() {
        Opening::NoNodes(line) => assert_eq!(
            line,
            "no openlake cluster detected: /etc/cluster.toml declares zero nodes"
        ),
        other => panic!("{:?}", other),
    }
    assert_eq!(no_nodes_line("x"), "no openlake cluster detected: x declares zero nodes");
}

#[test]
fn missing_self_node_comes_before_missing_credential() {
    let mut config = config();
    config.self_id = "3".to_string();
    config.credentials.clear();
    let error = config.target().unwrap_err();
    assert!(matches!(error, ScrubError::SelfNodeMissing));
    assert_eq!(error.message(), "self_id node missing from config");
}

#[test]
fn missing_credential() {
    let mut config = config();
    config.credentials.clear();
    let error = open_session(&args(false), &config, ".sys").unwrap_err();
    assert!(matches!(error, ScrubError::NoCredential));
    assert_eq!(error.message(), "at least one credential is required");
}

#[test]
fn opening_lists_the_system_bucket() {
    match open_session(&args(true), &config(), ".sys").unwrap() {
        Opening::Begun { target, session, turn } => {
            assert_eq!(target.base_url, "http://10.0.0.2:9000");
            let page = ListBucketResult {
                is_truncated: false,
                next_continuation_token: None,
                contents: vec![ListBucketObject { key: "buckets/a/.metadata.bin".to_string() }],
            };
            let (_, next) = session.on_page(page);
            assert_eq!(next.lines[1], "Dry run: no objects will be deleted.");
            assert_eq!(turn.lines, vec!["using S3 endpoint on node 2: http://10.0.0.2:9000"]);
            match turn.action {
                Action::List { bucket, prefix, continuation_token } => {
                    assert_eq!(bucket, ".sys");
                    assert_eq!(prefix.as_deref(), Some("buckets/"));
                    assert_eq!(continuation_token, None);
                }
                other => panic!("{:?}", other),
            }
        }
        other => panic!("{:?}", other),
    }
}

#[test]
fn scrub_is_a_command() {
    let cmd: Cmd<(), (), (), ()> = Cmd::Scrub(args(true));
    match cmd {
        Cmd::Scrub(args) => assert!(args.dry_run),
        other => panic!("{:?}", other),
    }
}
