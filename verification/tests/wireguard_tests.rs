use wiretalk::text::{decimal_string, parse_u16_str, split_char};
use wiretalk::wireguard::{
    dial_address, falls_back_to_sudo, libp2p_tcp_port, listen_port_or_default, peer_added_text, peer_from_config_text,
    peer_removed_text, peer_route, CommandRun, DialOutcome, ShareablePeerConfig, WireGuardConfig,
    WireGuardManager, DEFAULT_LISTEN_PORT, INTERFACE_NAME,
};

fn ok_run(_args: Vec<String>) -> CommandRun {
    CommandRun::Finished { success: true, stderr: String::new() }
}

fn not_run(_args: Vec<String>) -> CommandRun {
    panic!("no command is to be run")
}

/// A successful setup on a machine whose interface is down.
fn set_up(m: &mut WireGuardManager, sk: &str, pk: &str, ip: &str, port: u16) {
    let keys = (sk.to_string(), pk.to_string());
    m.setup(
        ip.to_string(),
        port,
        || Ok(()),
        || false,
        || panic!("no teardown"),
        not_run,
        || panic!("no teardown"),
        not_run,
        move || Ok(keys),
        |_text: String| Ok(()),
        ok_run,
    )
    .unwrap();
}

fn manager_with_config() -> WireGuardManager {
    let mut m = WireGuardManager::with_config_path("/tmp/wiretalk-wg.conf".to_string());
    set_up(&mut m, "PRIV", "PUB", "10.10.10.1/24", 51820);
    m
}

fn peer_keys(m: &WireGuardManager) -> Vec<(String, String, Option<String>)> {
    m.get_config()
        .unwrap()
        .peers
        .iter()
        .map(|p| (p.public_key.clone(), p.allowed_ips.clone(), p.endpoint.clone()))
        .collect()
}

#[test]
fn fresh_config_file_text() {
    let c = WireGuardConfig::fresh("PRIV".to_string(), "PUB".to_string(), "10.10.10.1/24".to_string(), 51820);
    assert_eq!(c.file_text(), "[Interface]\nAddress = 10.10.10.1/24\nListenPort = 51820\nPrivateKey = PRIV\n");
    assert!(c.peers.is_empty());
}

#[test]
fn config_is_shown_without_private_key() {
    let mut m = manager_with_config();
    m.add_peer("K1".to_string(), "10.10.10.2/32".to_string(), None, true, ok_run).unwrap();
    let c = m.get_config().unwrap();
    assert_eq!(c.private_key, "");
    assert_eq!(c.public_key, "PUB");
    assert_eq!(c.interface_ip, "10.10.10.1/24");
    assert_eq!(c.listen_port, 51820);
    assert_eq!(c.peers.len(), 1);
    // the key stays in force for the file written on the next change
    let text = m.remove_peer("K1", true, ok_run).unwrap().unwrap();
    assert!(text.contains("PrivateKey = PRIV\n"));
}

#[test]
fn add_peer_writes_sections() {
    let mut m = manager_with_config();
    let text = m.add_peer("K1".to_string(), "10.10.10.2/32".to_string(), Some("1.2.3.4:51820".to_string()), true, ok_run).unwrap();
    let text = m.add_peer("K2".to_string(), "10.10.10.3/32".to_string(), None, true, ok_run).unwrap().or(text);
    assert_eq!(
        text.unwrap(),
        "[Interface]\nAddress = 10.10.10.1/24\nListenPort = 51820\nPrivateKey = PRIV\n\
         \n[Peer]\nPublicKey = K1\nAllowedIPs = 10.10.10.2/32\nEndpoint = 1.2.3.4:51820\nPersistentKeepalive = 25\n\
         \n[Peer]\nPublicKey = K2\nAllowedIPs = 10.10.10.3/32\nPersistentKeepalive = 25\n"
    );
}

#[test]
fn add_peer_replaces_same_key() {
    let mut m = manager_with_config();
    m.add_peer("K1".to_string(), "a".to_string(), None, true, ok_run).unwrap();
    m.add_peer("K2".to_string(), "b".to_string(), None, true, ok_run).unwrap();
    m.add_peer("K1".to_string(), "c".to_string(), Some("e".to_string()), true, ok_run).unwrap();
    assert_eq!(
        peer_keys(&m),
        vec![
            ("K1".to_string(), "c".to_string(), Some("e".to_string())),
            ("K2".to_string(), "b".to_string(), None)
        ]
    );
}

#[test]
fn add_peer_failures_leave_table() {
    let mut m = manager_with_config();
    assert_eq!(
        m.add_peer("K1".to_string(), "a".to_string(), None, false, not_run),
        Err("WireGuard interface is not up. Run Setup first.".to_string())
    );
    assert_eq!(
        m.add_peer("K1".to_string(), "a".to_string(), None, true, |_| CommandRun::NotStarted("no pkexec".to_string())),
        Err("Failed to run `wg set` for peer: no pkexec".to_string())
    );
    assert_eq!(
        m.add_peer(
            "K1".to_string(),
            "a".to_string(),
            None,
            true,
            |_| CommandRun::Finished { success: false, stderr: "bad key".to_string() }
        ),
        Err("`wg set peer` failed: bad key".to_string())
    );
    assert!(peer_keys(&m).is_empty());
}

#[test]
fn add_peer_without_config() {
    let mut m = WireGuardManager::with_config_path("/tmp/x.conf".to_string());
    assert_eq!(m.add_peer("K".to_string(), "a".to_string(), None, true, ok_run), Ok(None));
    assert!(m.get_config().is_none());
}

#[test]
fn remove_undoes_add() {
    let mut m = manager_with_config();
    m.add_peer("K1".to_string(), "a".to_string(), None, true, ok_run).unwrap();
    let before = peer_keys(&m);
    m.add_peer("K2".to_string(), "b".to_string(), None, true, ok_run).unwrap();
    let text = m.remove_peer("K2", true, ok_run).unwrap().unwrap();
    assert_eq!(peer_keys(&m), before);
    assert!(!text.contains("K2"));
}

#[test]
fn remove_peer_failures() {
    let mut m = manager_with_config();
    m.add_peer("K1".to_string(), "a".to_string(), None, true, ok_run).unwrap();
    assert_eq!(m.remove_peer("K1", false, not_run), Err("WireGuard interface is not active.".to_string()));
    assert_eq!(
        m.remove_peer("K1", true, |_| CommandRun::NotStarted("x".to_string())),
        Err("Failed to run `wg set` remove: x".to_string())
    );
    assert_eq!(
        m.remove_peer("K1", true, |_| CommandRun::Finished { success: false, stderr: "y".to_string() }),
        Err("`wg peer remove` failed: y".to_string())
    );
    assert_eq!(peer_keys(&m).len(), 1);
}

#[test]
fn setup_writes_fresh_config_and_brings_it_up() {
    let mut m = WireGuardManager::with_config_path("/tmp/wiretalk-wg.conf".to_string());
    let log_cell: std::cell::RefCell<Vec<String>> = std::cell::RefCell::new(Vec::new());
    let note = |s: String| log_cell.borrow_mut().push(s);
    let res = m.setup(
        "10.10.10.1/24".to_string(),
        51820,
        || {
            note("deps".to_string());
            Ok(())
        },
        || {
            note("active?".to_string());
            true
        },
        || true,
        |args: Vec<String>| {
            note(args.join(" "));
            CommandRun::Finished { success: true, stderr: String::new() }
        },
        || false,
        not_run,
        || {
            note("keys".to_string());
            Ok(("SK".to_string(), "PK".to_string()))
        },
        |text: String| {
            note(text);
            Ok(())
        },
        |args: Vec<String>| {
            note(args.join(" "));
            CommandRun::Finished { success: true, stderr: String::new() }
        },
    );
    assert_eq!(res, Ok(()));
    let log = log_cell.into_inner();
    assert_eq!(
        log,
        vec![
            "deps".to_string(),
            "active?".to_string(),
            "wg-quick down /tmp/wiretalk-wg.conf".to_string(),
            "keys".to_string(),
            "[Interface]\nAddress = 10.10.10.1/24\nListenPort = 51820\nPrivateKey = SK\n".to_string(),
            "wg-quick up /tmp/wiretalk-wg.conf".to_string(),
        ]
    );
    let c = m.get_config().unwrap();
    assert_eq!((c.public_key.as_str(), c.interface_ip.as_str(), c.listen_port, c.peers.len()), ("PK", "10.10.10.1/24", 51820, 0));
}

#[test]
fn setup_failures() {
    let fresh = || WireGuardManager::with_config_path("/tmp/wiretalk-wg.conf".to_string());
    // a missing dependency stops everything
    let mut m = fresh();
    let r = m.setup(
        "10.0.0.1/24".to_string(), 1, || Err("wg-quick not found".to_string()), || panic!("not reached"), || panic!(),
        not_run, || panic!(), not_run, || panic!("not reached"), |_t: String| panic!("not reached"), not_run,
    );
    assert_eq!(r, Err("wg-quick not found".to_string()));
    assert!(m.get_config().is_none());
    // key generation failing
    let r = m.setup(
        "10.0.0.1/24".to_string(), 1, || Ok(()), || false, || panic!(), not_run, || panic!(), not_run,
        || Err("`wg genkey` failed".to_string()), |_t: String| panic!("not reached"), not_run,
    );
    assert_eq!(r, Err("`wg genkey` failed".to_string()));
    assert!(m.get_config().is_none());
    // the file cannot be written: nothing recorded, nothing brought up
    let r = m.setup(
        "10.0.0.1/24".to_string(), 1, || Ok(()), || false, || panic!(), not_run, || panic!(), not_run,
        || Ok(("S".to_string(), "P".to_string())), |_t: String| Err("disk full".to_string()), not_run,
    );
    assert_eq!(r, Err("disk full".to_string()));
    assert!(m.get_config().is_none());
    // a stale interface that cannot be removed stops the setup
    let mut m2 = manager_with_config();
    let r = m2.setup(
        "10.0.0.1/24".to_string(), 1, || Ok(()), || true, || false, not_run, || true,
        |_| CommandRun::Finished { success: false, stderr: "busy".to_string() },
        || panic!("not reached"), |_t: String| panic!("not reached"), not_run,
    );
    assert_eq!(r, Err("Failed to delete stale interface wiretalk-wg: busy".to_string()));
    assert_eq!(m2.get_config().unwrap().public_key, "PUB");
    // `wg-quick up` failing still leaves the new configuration in force
    let r = m.setup(
        "10.0.0.1/24".to_string(), 7, || Ok(()), || false, || panic!(), not_run, || panic!(), not_run,
        || Ok(("S".to_string(), "P".to_string())), |_t: String| Ok(()),
        |_| CommandRun::Finished { success: false, stderr: "RTNETLINK".to_string() },
    );
    assert_eq!(r, Err("wg-quick up failed: RTNETLINK".to_string()));
    let c = m.get_config().unwrap();
    assert_eq!((c.public_key.as_str(), c.listen_port), ("P", 7));
}

#[test]
fn dependency_checks() {
    let found = |_: Vec<String>| CommandRun::Finished { success: true, stderr: String::new() };
    let missing = |_: Vec<String>| CommandRun::Finished { success: false, stderr: String::new() };
    let mut seen: Vec<Vec<String>> = Vec::new();
    assert_eq!(
        WireGuardManager::check_dependencies(
            |a: Vec<String>| {
                seen.push(a);
                CommandRun::Finished { success: true, stderr: String::new() }
            },
            found
        ),
        Ok(())
    );
    assert_eq!(seen, vec![vec!["which".to_string(), "wg".to_string()]]);
    assert_eq!(
        WireGuardManager::check_dependencies(missing, not_run),
        Err("WireGuard tools (wg) not found. Install wireguard-tools: sudo apt install wireguard-tools".to_string())
    );
    assert_eq!(
        WireGuardManager::check_dependencies(found, missing),
        Err("wg-quick not found. Install wireguard-tools: sudo apt install wireguard-tools".to_string())
    );
    assert_eq!(
        WireGuardManager::check_dependencies(|_| CommandRun::NotStarted("no which".to_string()), not_run),
        Err("no which".to_string())
    );
}

#[test]
fn stale_cleanup_reports() {
    let mut m = manager_with_config();
    assert_eq!(m.cleanup_stale(false, true, not_run, || panic!(), not_run), Ok(false));
    assert!(m.get_config().is_some());
    assert_eq!(
        m.cleanup_stale(true, false, not_run, || true, |_| CommandRun::NotStarted("no sudo".to_string())),
        Err("Failed to cleanup stale WireGuard interface: Failed to delete stale interface: no sudo".to_string())
    );
    assert!(m.get_config().is_some());
    assert_eq!(m.cleanup_stale(true, true, ok_run, || false, not_run), Ok(true));
    assert!(m.get_config().is_none());
}

#[test]
fn teardown_clears_config() {
    let mut m = manager_with_config();
    assert_eq!(m.teardown(false, not_run, || false, not_run), Ok(()));
    assert!(m.get_config().is_none());
    assert_eq!(m.config_path(), "/tmp/wiretalk-wg.conf");
    // with the file present: `wg-quick down` on it, then the stale interface is deleted
    let mut m2 = manager_with_config();
    let mut seen: Vec<Vec<String>> = Vec::new();
    let down = |args: Vec<String>| {
        seen.push(args);
        CommandRun::Finished { success: false, stderr: "ignored".to_string() }
    };
    let mut deleted: Vec<Vec<String>> = Vec::new();
    let delete = |args: Vec<String>| {
        deleted.push(args);
        CommandRun::Finished { success: true, stderr: String::new() }
    };
    assert_eq!(m2.teardown(true, down, || true, delete), Ok(()));
    assert!(m2.get_config().is_none());
    assert_eq!(seen, vec![vec!["wg-quick".to_string(), "down".to_string(), "/tmp/wiretalk-wg.conf".to_string()]]);
    assert_eq!(deleted, vec![vec!["ip".to_string(), "link".to_string(), "delete".to_string(), INTERFACE_NAME.to_string()]]);
}

#[test]
fn teardown_keeps_config_when_stale_interface_stays() {
    let mut m = manager_with_config();
    assert_eq!(
        m.teardown(false, not_run, || true, |_| CommandRun::Finished { success: false, stderr: "busy".to_string() }),
        Err("Failed to delete stale interface wiretalk-wg: busy".to_string())
    );
    assert!(m.get_config().is_some());
    assert_eq!(
        m.teardown(false, not_run, || true, |_| CommandRun::NotStarted("no sudo".to_string())),
        Err("Failed to delete stale interface: no sudo".to_string())
    );
    assert!(m.get_config().is_some());
    assert_eq!(
        m.teardown(true, |_| CommandRun::NotStarted("no pkexec".to_string()), || panic!("not reached"), not_run),
        Err("Failed to run wg-quick down: no pkexec".to_string())
    );
    assert!(m.get_config().is_some());
    let args = WireGuardManager::stale_delete_command();
    assert_eq!(args, vec!["ip".to_string(), "link".to_string(), "delete".to_string(), INTERFACE_NAME.to_string()]);
}

#[test]
fn commands_run_with_their_arguments() {
    let mut m = manager_with_config();
    let mut seen: Vec<Vec<String>> = Vec::new();
    m.add_peer("K1".to_string(), "10.0.0.2/32".to_string(), Some("h:1".to_string()), true, |args| {
        seen.push(args);
        CommandRun::Finished { success: true, stderr: String::new() }
    })
    .unwrap();
    m.remove_peer("K1", true, |args| {
        seen.push(args);
        CommandRun::Finished { success: true, stderr: String::new() }
    })
    .unwrap();
    m.bring_up(|args| {
        seen.push(args);
        CommandRun::Finished { success: true, stderr: String::new() }
    })
    .unwrap();
    assert_eq!(
        seen,
        vec![
            vec!["wg", "set", INTERFACE_NAME, "peer", "K1", "allowed-ips", "10.0.0.2/32", "endpoint", "h:1"],
            vec!["wg", "set", INTERFACE_NAME, "peer", "K1", "remove"],
            vec!["wg-quick", "up", "/tmp/wiretalk-wg.conf"],
        ]
    );
}

#[test]
fn sudo_fallback_decision() {
    let failed = |e: &str| CommandRun::Finished { success: false, stderr: e.to_string() };
    assert!(falls_back_to_sudo(&CommandRun::NotStarted("not installed".to_string())));
    assert!(falls_back_to_sudo(&failed("pkexec: command refused")));
    assert!(falls_back_to_sudo(&failed("wg: not found")));
    assert!(falls_back_to_sudo(&failed("No such file or directory")));
    assert!(!falls_back_to_sudo(&failed("Invalid key")));
    assert!(!falls_back_to_sudo(&CommandRun::Finished { success: true, stderr: "pkexec".to_string() }));
    assert!(!falls_back_to_sudo(&failed("")));
}

#[test]
fn shareable_config_strips_prefix_length() {
    let m = manager_with_config();
    let s = m.get_shareable_config(Some("203.0.113.5:51820".to_string()), Some("12D3Koo".to_string()), Some(4001)).unwrap();
    assert_eq!(s.public_key, "PUB");
    assert_eq!(s.tunnel_ip, "10.10.10.1");
    assert_eq!(s.listen_port, 51820);
    assert_eq!(s.endpoint.as_deref(), Some("203.0.113.5:51820"));
    assert_eq!(s.peer_id.as_deref(), Some("12D3Koo"));
    assert_eq!(s.libp2p_port, Some(4001));
    let empty = WireGuardManager::with_config_path("p".to_string());
    assert!(empty.get_shareable_config(None, None, None).is_none());
    let mut m2 = WireGuardManager::with_config_path("p".to_string());
    set_up(&mut m2, "a", "b", "10.0.0.7", 1);
    assert_eq!(m2.get_shareable_config(None, None, None).unwrap().tunnel_ip, "10.0.0.7");
}

#[test]
fn command_arguments() {
    let args = WireGuardManager::peer_set_command(&"K".to_string(), &"10.0.0.2/32".to_string(), &Some("h:1".to_string()));
    assert_eq!(args, vec!["wg", "set", INTERFACE_NAME, "peer", "K", "allowed-ips", "10.0.0.2/32", "endpoint", "h:1"]);
    let args = WireGuardManager::peer_set_command(&"K".to_string(), &"10.0.0.2/32".to_string(), &None);
    assert_eq!(args, vec!["wg", "set", "wiretalk-wg", "peer", "K", "allowed-ips", "10.0.0.2/32"]);
    assert_eq!(WireGuardManager::peer_remove_command("K"), vec!["wg", "set", "wiretalk-wg", "peer", "K", "remove"]);
    let m = manager_with_config();
    assert_eq!(m.bring_up_command(), vec!["wg-quick", "up", "/tmp/wiretalk-wg.conf"]);
    assert_eq!(m.bring_up(|_| CommandRun::Finished { success: true, stderr: "w".to_string() }), Ok(()));
    assert_eq!(
        m.bring_up(|_| CommandRun::Finished { success: false, stderr: "e".to_string() }),
        Err("wg-quick up failed: e".to_string())
    );
    assert_eq!(m.bring_up(|_| CommandRun::NotStarted("n".to_string())), Err("Failed to run wg-quick up: n".to_string()));
}

#[test]
fn ui_texts() {
    assert_eq!(listen_port_or_default(None), DEFAULT_LISTEN_PORT);
    assert_eq!(listen_port_or_default(Some(7)), 7);
    assert_eq!(peer_added_text("ABCDEFGHIJK=", "10.0.0.2/32"), "Peer ABCDEFGH added with allowed IP 10.0.0.2/32");
    assert_eq!(peer_removed_text("ABCDEFGHIJK="), "Peer ABCDEFGH removed");
}

fn shared(endpoint: Option<&str>, peer_id: Option<&str>, libp2p_port: Option<u16>) -> ShareablePeerConfig {
    ShareablePeerConfig {
        public_key: "PUBKEY123456".to_string(),
        tunnel_ip: "10.10.10.2".to_string(),
        endpoint: endpoint.map(|s| s.to_string()),
        listen_port: 51820,
        peer_id: peer_id.map(|s| s.to_string()),
        libp2p_port,
    }
}

#[test]
fn route_from_shared_config() {
    let (ip, ep) = peer_route(&shared(Some("203.0.113.5"), None, None));
    assert_eq!(ip, "10.10.10.2/32");
    assert_eq!(ep.as_deref(), Some("203.0.113.5:51820"));
    let (_, ep) = peer_route(&shared(Some("203.0.113.5:9"), None, None));
    assert_eq!(ep.as_deref(), Some("203.0.113.5:9"));
    let (_, ep) = peer_route(&shared(None, None, None));
    assert_eq!(ep, None);
}

#[test]
fn dial_from_shared_config() {
    assert_eq!(
        dial_address(&shared(None, Some("12D3KooWabc"), Some(4001))).as_deref(),
        Some("/ip4/10.10.10.2/tcp/4001/p2p/12D3KooWabc")
    );
    assert_eq!(dial_address(&shared(None, Some("x"), None)), None);
    assert_eq!(dial_address(&shared(None, None, Some(1))), None);
}

#[test]
fn added_from_config_text() {
    assert_eq!(
        peer_from_config_text("PUBKEY123456", "10.10.10.2", DialOutcome::NotRequested),
        "Peer PUBKEY12 (tunnel IP 10.10.10.2) added successfully"
    );
    assert_eq!(
        peer_from_config_text("PUBKEY123456", "10.10.10.2", DialOutcome::NoNetwork),
        "Peer PUBKEY12 (tunnel IP 10.10.10.2) added successfully — P2P network not started; join a room to enable auto-dial"
    );
    assert_eq!(
        peer_from_config_text("PUBKEY123456", "ip", DialOutcome::Initiated("/ip4/x".to_string())),
        "Peer PUBKEY12 (tunnel IP ip) added successfully — P2P auto-dial initiated to /ip4/x"
    );
    assert_eq!(
        peer_from_config_text("PUBKEY123456", "ip", DialOutcome::Failed("nope".to_string())),
        "Peer PUBKEY12 (tunnel IP ip) added successfully — P2P dial failed: nope"
    );
}

#[test]
fn tcp_port_from_listen_addresses() {
    let v = |xs: &[&str]| xs.iter().map(|s| s.to_string()).collect::<Vec<_>>();
    assert_eq!(libp2p_tcp_port(&v(&["/ip4/127.0.0.1/tcp/4001"])), Some(4001));
    assert_eq!(libp2p_tcp_port(&v(&["/ip4/1.2.3.4/udp/9/quic", "/ip4/10.0.0.1/tcp/+80/p2p/x"])), Some(80));
    assert_eq!(libp2p_tcp_port(&v(&["/ip4/1.2.3.4/tcp/99999", "/ip6/::1/tcp/7"])), Some(7));
    assert_eq!(libp2p_tcp_port(&v(&["/ip4/1.2.3.4/tcp"])), None);
    assert_eq!(libp2p_tcp_port(&v(&[])), None);
    assert_eq!(libp2p_tcp_port(&v(&["/tcp/x/tcp/5"])), None);
}

#[test]
fn text_helpers() {
    assert_eq!(decimal_string(0), "0");
    assert_eq!(decimal_string(51820), "51820");
    assert_eq!(decimal_string(u64::MAX), u64::MAX.to_string());
    assert_eq!(parse_u16_str("65535"), Some(65535));
    assert_eq!(parse_u16_str("65536"), None);
    assert_eq!(parse_u16_str("+"), None);
    assert_eq!(parse_u16_str(""), None);
    assert_eq!(parse_u16_str("-1"), None);
    assert_eq!(parse_u16_str("007"), Some(7));
    for s in ["0", "1", "+12", "65535", "65536", "a1", "1a", "", "+", "++1", " 1", "99999999999"] {
        assert_eq!(parse_u16_str(s), s.parse::<u16>().ok(), "{}", s);
    }
    for s in ["", "a", "/a//b/", "/ip4/1.2.3.4/tcp/1"] {
        assert_eq!(split_char(s, '/'), s.split('/').map(|p| p.to_string()).collect::<Vec<_>>());
    }
}
