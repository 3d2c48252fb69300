//! WireGuard interface configuration: the peer table kept for the tunnel,
//! the text of the `wg-quick` configuration file, the arguments of the
//! `wg` / `wg-quick` invocations, and the compact config shared with peers.
//!
//! Running commands and writing files is the application's part: the
//! operations here (setup, teardown, adding and removing peers, bringing the
//! interface up) are handed the functions that run a command or write the
//! file, decide in which order and with which arguments they are called, and
//! decide what follows from each outcome.

use vstd::prelude::*;
use vstd::string::*;
use crate::text::{
    byte_prefix, can_cut_at, contains_char, contains_str, contains_text, cut_at, decimal, decimal_string, has_char, parse_u16,
    parse_u16_str, prefix_before, prefix_before_char, split_char, split_on, strs_view as text_strs,
};

verus! {

/// Name of the WireGuard interface the application manages.
pub const INTERFACE_NAME: &'static str = "wiretalk-wg";

/// Port WireGuard listens on when the caller gives none.
pub const DEFAULT_LISTEN_PORT: u16 = 51820;

/// A peer of the tunnel.
pub struct WireGuardPeer {
    pub public_key: String,
    pub allowed_ips: String,
    pub endpoint: Option<String>,
}

/// The configuration of this node's interface.
pub struct WireGuardConfig {
    /// The public key for this node (safe to share)
    pub public_key: String,
    /// The tunnel IP assigned to this node (e.g. "10.10.10.1/24")
    pub interface_ip: String,
    pub listen_port: u16,
    pub peers: Vec<WireGuardPeer>,
    /// Private key, never sent to the frontend
    pub private_key: String,
}

/// A compact config a peer shares with others so they can be added automatically.
pub struct ShareablePeerConfig {
    pub public_key: String,
    /// Tunnel-side IP of the peer (without prefix length, e.g. "10.10.10.2")
    pub tunnel_ip: String,
    /// Optional external endpoint the peer can be reached at, e.g. "203.0.113.5:51820"
    pub endpoint: Option<String>,
    pub listen_port: u16,
    /// libp2p peer ID, so the recipient can dial the P2P layer
    pub peer_id: Option<String>,
    /// TCP port the libp2p stack listens on inside the tunnel
    pub libp2p_port: Option<u16>,
}

/// The interface state: the configuration in force (if any) and where its
/// file lives.
pub struct WireGuardManager {
    config: Option<WireGuardConfig>,
    config_path: String,
}

/// What became of a command the application ran for an operation.
pub enum CommandRun {
    /// The process ran; `success` is its exit status, `stderr` its error output.
    Finished { success: bool, stderr: String },
    /// The process could not be started; the text describes why.
    NotStarted(String),
}

// ─── Views ───────────────────────────────────────────────────────────────

pub struct PeerView {
    pub public_key: Seq<char>,
    pub allowed_ips: Seq<char>,
    pub endpoint: Option<Seq<char>>,
}

pub struct ConfigView {
    pub public_key: Seq<char>,
    pub interface_ip: Seq<char>,
    pub listen_port: u16,
    pub peers: Seq<PeerView>,
    pub private_key: Seq<char>,
}

pub struct ShareableView {
    pub public_key: Seq<char>,
    pub tunnel_ip: Seq<char>,
    pub endpoint: Option<Seq<char>>,
    pub listen_port: u16,
    pub peer_id: Option<Seq<char>>,
    pub libp2p_port: Option<u16>,
}

pub open spec fn opt_str(o: Option<String>) -> Option<Seq<char>> {
    match o {
        Some(s) => Some(s@),
        None => None,
    }
}

impl View for WireGuardPeer {
    type V = PeerView;

    open spec fn view(&self) -> PeerView {
        PeerView {
            public_key: self.public_key@,
            allowed_ips: self.allowed_ips@,
            endpoint: opt_str(self.endpoint),
        }
    }
}

pub open spec fn peers_view(peers: Seq<WireGuardPeer>) -> Seq<PeerView> {
    peers.map_values(|p: WireGuardPeer| p@)
}

impl View for WireGuardConfig {
    type V = ConfigView;

    open spec fn view(&self) -> ConfigView {
        ConfigView {
            public_key: self.public_key@,
            interface_ip: self.interface_ip@,
            listen_port: self.listen_port,
            peers: peers_view(self.peers@),
            private_key: self.private_key@,
        }
    }
}

impl View for ShareablePeerConfig {
    type V = ShareableView;

    open spec fn view(&self) -> ShareableView {
        ShareableView {
            public_key: self.public_key@,
            tunnel_ip: self.tunnel_ip@,
            endpoint: opt_str(self.endpoint),
            listen_port: self.listen_port,
            peer_id: opt_str(self.peer_id),
            libp2p_port: self.libp2p_port,
        }
    }
}

pub open spec fn opt_config(o: Option<WireGuardConfig>) -> Option<ConfigView> {
    match o {
        Some(c) => Some(c@),
        None => None,
    }
}

/// The configuration as shown outside this node: the private key left out
/// (empty), every other field kept.
pub open spec fn public_config(c: ConfigView) -> ConfigView {
    ConfigView { private_key: Seq::empty(), ..c }
}

impl WireGuardManager {
    /// The configuration in force, by value.
    pub closed spec fn config_view(&self) -> Option<ConfigView> {
        opt_config(self.config)
    }

    /// Where the configuration file is written.
    pub closed spec fn path_view(&self) -> Seq<char> {
        self.config_path@
    }
}

// ─── The peer table ──────────────────────────────────────────────────────

/// `i` is the first position of a peer with key `key`.
pub open spec fn is_first_with_key(peers: Seq<PeerView>, key: Seq<char>, i: int) -> bool {
    &&& 0 <= i < peers.len()
    &&& peers[i].public_key == key
    &&& forall|j: int| 0 <= j < i ==> peers[j].public_key != key
}

pub open spec fn has_key(peers: Seq<PeerView>, key: Seq<char>) -> bool {
    exists|i: int| 0 <= i < peers.len() && peers[i].public_key == key
}

/// The peer table after adding `p`: the first peer with the same key is
/// replaced, or `p` is appended when no peer has that key.
pub open spec fn upsert_peer(peers: Seq<PeerView>, p: PeerView) -> Seq<PeerView> {
    if has_key(peers, p.public_key) {
        peers.update(choose|i: int| is_first_with_key(peers, p.public_key, i), p)
    } else {
        peers.push(p)
    }
}

/// The peer table without the peers whose key is `key` (order kept).
pub open spec fn without_key(peers: Seq<PeerView>, key: Seq<char>) -> Seq<PeerView>
    decreases peers.len(),
{
    if peers.len() == 0 {
        peers
    } else {
        let rest = without_key(peers.drop_last(), key);
        if peers.last().public_key == key {
            rest
        } else {
            rest.push(peers.last())
        }
    }
}

/// No two peers share a public key.
pub open spec fn keys_distinct(peers: Seq<PeerView>) -> bool {
    forall|i: int, j: int|
        0 <= i < peers.len() && 0 <= j < peers.len() && i != j ==> peers[i].public_key
            != peers[j].public_key
}

// ─── Configuration file text ─────────────────────────────────────────────

pub open spec fn endpoint_line(endpoint: Option<Seq<char>>) -> Seq<char> {
    match endpoint {
        Some(ep) => "Endpoint = "@ + ep + "\n"@,
        None => Seq::empty(),
    }
}

pub open spec fn peer_section(p: PeerView) -> Seq<char> {
    "\n[Peer]\n"@ + "PublicKey = "@ + p.public_key + "\n"@ + "AllowedIPs = "@ + p.allowed_ips
        + "\n"@ + endpoint_line(p.endpoint) + "PersistentKeepalive = 25\n"@
}

pub open spec fn peer_sections(peers: Seq<PeerView>) -> Seq<char>
    decreases peers.len(),
{
    if peers.len() == 0 {
        Seq::empty()
    } else {
        peer_sections(peers.drop_last()) + peer_section(peers.last())
    }
}

/// The `wg-quick` configuration file for `c`.
pub open spec fn config_text(c: ConfigView) -> Seq<char> {
    "[Interface]\nAddress = "@ + c.interface_ip + "\nListenPort = "@ + decimal(c.listen_port as nat)
        + "\nPrivateKey = "@ + c.private_key + "\n"@ + peer_sections(c.peers)
}

// ─── Commands ────────────────────────────────────────────────────────────

pub open spec fn strs_view(v: Seq<String>) -> Seq<Seq<char>> {
    v.map_values(|s: String| s@)
}

/// Arguments of `wg set <iface> peer <key> allowed-ips <ips> [endpoint <ep>]`.
pub open spec fn peer_set_args(key: Seq<char>, ips: Seq<char>, endpoint: Option<Seq<char>>) -> Seq<Seq<char>> {
    let base = seq!["wg"@, "set"@, INTERFACE_NAME@, "peer"@, key, "allowed-ips"@, ips];
    match endpoint {
        Some(ep) => base + seq!["endpoint"@, ep],
        None => base,
    }
}

/// Arguments of `wg set <iface> peer <key> remove`.
pub open spec fn peer_remove_args(key: Seq<char>) -> Seq<Seq<char>> {
    seq!["wg"@, "set"@, INTERFACE_NAME@, "peer"@, key, "remove"@]
}

/// The error an operation reports for a command that did not succeed, or
/// `None` when it succeeded.
pub open spec fn command_error(
    run: CommandRun,
    not_started: Seq<char>,
    failed: Seq<char>,
) -> Option<Seq<char>> {
    match run {
        CommandRun::NotStarted(e) => Some(not_started + e@),
        CommandRun::Finished { success, stderr } => if success {
            None
        } else {
            Some(failed + stderr@)
        },
    }
}

/// Whether a privileged command tried through `pkexec` is run again through
/// `sudo`: when `pkexec` could not be started, or the run failed with error
/// output that mentions `pkexec`, `not found` or `No such file` (`pkexec`
/// itself is missing or unusable). A run that succeeded, or failed for
/// another reason, is the command's own outcome.
pub open spec fn retry_with_sudo(first: CommandRun) -> bool {
    match first {
        CommandRun::NotStarted(_) => true,
        CommandRun::Finished { success, stderr } => !success && (contains_text(stderr@, "pkexec"@)
            || contains_text(stderr@, "not found"@) || contains_text(stderr@, "No such file"@)),
    }
}

/// Decide whether a privileged command tried through `pkexec` is run again
/// through `sudo`.
pub fn falls_back_to_sudo(first: &CommandRun) -> (b: bool)
    ensures
        b == retry_with_sudo(*first),
{
    match first {
        CommandRun::NotStarted(_) => true,
        CommandRun::Finished { success, stderr } => {
            if *success {
                false
            } else {
                contains_str(stderr.as_str(), "pkexec") || contains_str(stderr.as_str(), "not found")
                    || contains_str(stderr.as_str(), "No such file")
            }
        },
    }
}

fn command_result(run: CommandRun, not_started: &str, failed: &str) -> (res: Result<(), String>)
    ensures
        match command_error(run, not_started@, failed@) {
            Some(e) => res matches Err(m) && m@ == e,
            None => res is Ok,
        },
{
    match run {
        CommandRun::NotStarted(e) => Err(String::from_str(not_started).concat(e.as_str())),
        CommandRun::Finished { success, stderr } => {
            if success {
                Ok(())
            } else {
                Err(String::from_str(failed).concat(stderr.as_str()))
            }
        },
    }
}

fn str_vec(items: &[&str]) -> (v: Vec<String>)
    ensures
        v@.len() == items@.len(),
        forall|i: int| 0 <= i < items@.len() ==> #[trigger] v@[i]@ == items@[i]@,
{
    let mut v: Vec<String> = Vec::new();
    let mut i: usize = 0;
    while i < items.len()
        invariant
            i <= items@.len(),
            v@.len() == i,
            forall|k: int| 0 <= k < i ==> #[trigger] v@[k]@ == items@[k]@,
        decreases items@.len() - i,
    {
        v.push(String::from_str(items[i]));
        i = i + 1;
    }
    v
}

// ─── Clones with contracts ───────────────────────────────────────────────

fn clone_opt_string(o: &Option<String>) -> (r: Option<String>)
    ensures
        opt_str(r) == opt_str(*o),
{
    match o {
        Some(s) => Some(s.clone()),
        None => None,
    }
}

impl WireGuardPeer {
    /// A copy of this peer.
    pub fn duplicate(&self) -> (r: WireGuardPeer)
        ensures
            r@ == self@,
    {
        WireGuardPeer {
            public_key: self.public_key.clone(),
            allowed_ips: self.allowed_ips.clone(),
            endpoint: clone_opt_string(&self.endpoint),
        }
    }
}

fn append_peer_section(s: &mut String, p: &WireGuardPeer)
    ensures
        final(s)@ == old(s)@ + peer_section(p@),
{
    s.append("\n[Peer]\n");
    s.append("PublicKey = ");
    s.append(p.public_key.as_str());
    s.append("\n");
    s.append("AllowedIPs = ");
    s.append(p.allowed_ips.as_str());
    s.append("\n");
    match &p.endpoint {
        Some(ep) => {
            s.append("Endpoint = ");
            s.append(ep.as_str());
            s.append("\n");
        },
        None => {},
    }
    s.append("PersistentKeepalive = 25\n");
    assert(s@ =~= old(s)@ + peer_section(p@));
}

impl WireGuardConfig {
    /// A copy of this configuration.
    pub fn duplicate(&self) -> (r: WireGuardConfig)
        ensures
            r@ == self@,
    {
        let mut peers: Vec<WireGuardPeer> = Vec::new();
        let mut i: usize = 0;
        while i < self.peers.len()
            invariant
                i <= self.peers@.len(),
                peers@.len() == i,
                forall|k: int| 0 <= k < i ==> #[trigger] peers@[k]@ == self.peers@[k]@,
            decreases self.peers@.len() - i,
        {
            peers.push(self.peers[i].duplicate());
            i = i + 1;
        }
        assert(peers_view(peers@) =~= peers_view(self.peers@));
        WireGuardConfig {
            public_key: self.public_key.clone(),
            interface_ip: self.interface_ip.clone(),
            listen_port: self.listen_port,
            peers,
            private_key: self.private_key.clone(),
        }
    }

    /// A fresh configuration for this node, with no peers yet.
    pub fn fresh(private_key: String, public_key: String, interface_ip: String, listen_port: u16) -> (c: WireGuardConfig)
        ensures
            c@ == (ConfigView {
                public_key: public_key@,
                interface_ip: interface_ip@,
                listen_port,
                peers: Seq::empty(),
                private_key: private_key@,
            }),
    {
        let c = WireGuardConfig { private_key, public_key, interface_ip, listen_port, peers: Vec::new() };
        assert(peers_view(c.peers@) =~= Seq::<PeerView>::empty());
        c
    }

    /// The text of the `wg-quick` configuration file for this configuration.
    pub fn file_text(&self) -> (s: String)
        ensures
            s@ == config_text(self@),
    {
        let mut s = String::from_str("[Interface]\nAddress = ");
        s.append(self.interface_ip.as_str());
        s.append("\nListenPort = ");
        let port = decimal_string(self.listen_port as u64);
        s.append(port.as_str());
        s.append("\nPrivateKey = ");
        s.append(self.private_key.as_str());
        s.append("\n");
        let ghost head = s@;
        let mut i: usize = 0;
        while i < self.peers.len()
            invariant
                i <= self.peers@.len(),
                s@ == head + peer_sections(peers_view(self.peers@).take(i as int)),
            decreases self.peers@.len() - i,
        {
            append_peer_section(&mut s, &self.peers[i]);
            proof {
                let pv = peers_view(self.peers@);
                assert(pv.take(i + 1).drop_last() =~= pv.take(i as int));
                assert(pv.take(i + 1).last() == self.peers@[i as int]@);
            }
            i = i + 1;
        }
        proof {
            assert(peers_view(self.peers@).take(self.peers@.len() as int) =~= peers_view(self.peers@));
        }
        s
    }
}

} // verus!

verus! {

/// The error when `wg` is missing.
pub open spec fn wg_missing_text() -> Seq<char> {
    "WireGuard tools (wg) not found. Install wireguard-tools: sudo apt install wireguard-tools"@
}

/// The error when `wg-quick` is missing.
pub open spec fn wg_quick_missing_text() -> Seq<char> {
    "wg-quick not found. Install wireguard-tools: sudo apt install wireguard-tools"@
}

/// What follows `wg-quick down` in a teardown: if `still_present` finds the
/// interface, `ip_delete` runs `ip link delete <iface>`; its failure is an
/// error that keeps the configuration, otherwise none is left in force.
pub open spec fn stale_cleanup<P: FnOnce() -> bool, F: FnOnce(Vec<String>) -> CommandRun>(
    still_present: P,
    ip_delete: F,
    before: Option<ConfigView>,
    after: Option<ConfigView>,
    res: Result<(), String>,
) -> bool {
    exists|present: bool| {
        &&& #[trigger] call_ensures(still_present, (), present)
        &&& !present ==> res is Ok && after is None
        &&& present ==> exists|args: Vec<String>, run: CommandRun| {
            &&& #[trigger] call_ensures(ip_delete, (args,), run)
            &&& strs_view(args@) == seq!["ip"@, "link"@, "delete"@, INTERFACE_NAME@]
            &&& match command_error(
                run,
                "Failed to delete stale interface: "@,
                "Failed to delete stale interface "@ + INTERFACE_NAME@ + ": "@,
            ) {
                Some(e) => res matches Err(m) && m@ == e && after == before,
                None => res is Ok && after is None,
            }
        }
    }
}

/// What a teardown does: when the configuration file (at `path`) exists,
/// `wg_quick_down` runs `wg-quick down <path>`, and a run that cannot start
/// is an error that keeps the configuration; then `stale_cleanup` follows.
pub open spec fn teardown_outcome<
    D: FnOnce(Vec<String>) -> CommandRun,
    P: FnOnce() -> bool,
    F: FnOnce(Vec<String>) -> CommandRun,
>(
    file_exists: bool,
    wg_quick_down: D,
    still_present: P,
    ip_delete: F,
    path: Seq<char>,
    before: Option<ConfigView>,
    after: Option<ConfigView>,
    res: Result<(), String>,
) -> bool {
    &&& file_exists ==> exists|args: Vec<String>, run: CommandRun| {
        &&& #[trigger] call_ensures(wg_quick_down, (args,), run)
        &&& strs_view(args@) == seq!["wg-quick"@, "down"@, path]
        &&& match run {
            CommandRun::NotStarted(e) => {
                &&& res matches Err(m) && m@ == "Failed to run wg-quick down: "@ + e@
                &&& after == before
            },
            CommandRun::Finished { .. } => stale_cleanup(still_present, ip_delete, before, after, res),
        }
    }
    &&& !file_exists ==> stale_cleanup(still_present, ip_delete, before, after, res)
}

/// The configuration a setup makes: fresh keys, the given address and port,
/// no peers.
pub open spec fn fresh_config(private_key: Seq<char>, public_key: Seq<char>, interface_ip: Seq<char>, listen_port: u16) -> ConfigView {
    ConfigView { public_key, interface_ip, listen_port, peers: Seq::empty(), private_key }
}

/// The part of a setup after the stale interface is dealt with, starting
/// from configuration `before`: `generate_keypair` gives the keys (its
/// error is returned); `write_file` is handed the file text of the fresh
/// configuration (its error is returned, the configuration left as it was);
/// once written, the fresh configuration is in force whatever `wg_quick_up`
/// (run as `wg-quick up <path>`) gives, and the result says how it went.
pub open spec fn setup_from_keys<
    K: FnOnce() -> Result<(String, String), String>,
    W: FnOnce(String) -> Result<(), String>,
    U: FnOnce(Vec<String>) -> CommandRun,
>(
    generate_keypair: K,
    write_file: W,
    wg_quick_up: U,
    path: Seq<char>,
    interface_ip: Seq<char>,
    listen_port: u16,
    before: Option<ConfigView>,
    after: Option<ConfigView>,
    res: Result<(), String>,
) -> bool {
    exists|keys: Result<(String, String), String>| {
        &&& #[trigger] call_ensures(generate_keypair, (), keys)
        &&& match keys {
            Err(e) => res matches Err(m) && m@ == e@ && after == before,
            Ok((sk, pk)) => {
                let c = fresh_config(sk@, pk@, interface_ip, listen_port);
                exists|text: String, written: Result<(), String>| {
                    &&& #[trigger] call_ensures(write_file, (text,), written)
                    &&& text@ == config_text(c)
                    &&& match written {
                        Err(e) => res matches Err(m) && m@ == e@ && after == before,
                        Ok(_) => {
                            &&& after == Some(c)
                            &&& exists|args: Vec<String>, run: CommandRun| {
                                &&& #[trigger] call_ensures(wg_quick_up, (args,), run)
                                &&& strs_view(args@) == seq!["wg-quick"@, "up"@, path]
                                &&& match command_error(run, "Failed to run wg-quick up: "@, "wg-quick up failed: "@) {
                                    Some(e) => res matches Err(m) && m@ == e,
                                    None => res is Ok,
                                }
                            }
                        },
                    }
                }
            },
        }
    }
}

/// The configuration after adding `p` to its peer table.
pub open spec fn config_with_peer(c: ConfigView, p: PeerView) -> ConfigView {
    ConfigView { peers: upsert_peer(c.peers, p), ..c }
}

/// The configuration after dropping the peers with key `key`.
pub open spec fn config_without_peer(c: ConfigView, key: Seq<char>) -> ConfigView {
    ConfigView { peers: without_key(c.peers, key), ..c }
}

pub open spec fn opt_config_text(c: Option<ConfigView>) -> Option<Seq<char>> {
    match c {
        Some(c) => Some(config_text(c)),
        None => None,
    }
}

/// The shareable config built from `c` and the caller's extra fields.
pub open spec fn shareable_of(
    c: ConfigView,
    endpoint: Option<Seq<char>>,
    peer_id: Option<Seq<char>>,
    libp2p_port: Option<u16>,
) -> ShareableView {
    ShareableView {
        public_key: c.public_key,
        tunnel_ip: prefix_before(c.interface_ip, '/'),
        endpoint,
        listen_port: c.listen_port,
        peer_id,
        libp2p_port,
    }
}

fn upsert_into(peers: &mut Vec<WireGuardPeer>, p: WireGuardPeer)
    ensures
        peers_view(final(peers)@) == upsert_peer(peers_view(old(peers)@), p@),
{
    let ghost pv = peers_view(peers@);
    let mut i: usize = 0;
    while i < peers.len()
        invariant
            i <= peers@.len(),
            pv == peers_view(peers@),
            peers@ == old(peers)@,
            forall|j: int| 0 <= j < i ==> pv[j].public_key != p@.public_key,
        decreases peers@.len() - i,
    {
        if peers[i].public_key == p.public_key {
            proof {
                assert(is_first_with_key(pv, p@.public_key, i as int));
                assert(has_key(pv, p@.public_key));
                let c = choose|k: int| is_first_with_key(pv, p@.public_key, k);
                assert(is_first_with_key(pv, p@.public_key, c));
                assert(c == i);
            }
            let ghost pview = p@;
            peers.set(i, p);
            assert(peers_view(peers@) =~= pv.update(i as int, pview));
            assert(upsert_peer(pv, pview) == pv.update(i as int, pview));
            return;
        }
        i = i + 1;
    }
    assert(!has_key(pv, p@.public_key));
    let ghost pview = p@;
    peers.push(p);
    assert(peers_view(peers@) =~= pv.push(pview));
}

fn remove_key(peers: &Vec<WireGuardPeer>, key: &String) -> (r: Vec<WireGuardPeer>)
    ensures
        peers_view(r@) == without_key(peers_view(peers@), key@),
{
    let ghost pv = peers_view(peers@);
    let mut r: Vec<WireGuardPeer> = Vec::new();
    let mut i: usize = 0;
    while i < peers.len()
        invariant
            i <= peers@.len(),
            pv == peers_view(peers@),
            peers_view(r@) == without_key(pv.take(i as int), key@),
        decreases peers@.len() - i,
    {
        proof {
            assert(pv.take(i + 1).drop_last() =~= pv.take(i as int));
            assert(pv.take(i + 1).last() == pv[i as int]);
        }
        if peers[i].public_key != *key {
            let ghost before = peers_view(r@);
            r.push(peers[i].duplicate());
            assert(peers_view(r@) =~= before.push(pv[i as int]));
        }
        i = i + 1;
    }
    assert(pv.take(peers@.len() as int) =~= pv);
    r
}

impl WireGuardManager {
    /// A manager with no configuration, whose file lives at `config_path`.
    pub fn with_config_path(config_path: String) -> (m: WireGuardManager)
        ensures
            m.config_view() is None,
            m.path_view() == config_path@,
    {
        WireGuardManager { config: None, config_path }
    }

    /// Where the configuration file is written.
    pub fn config_path(&self) -> (p: String)
        ensures
            p@ == self.path_view(),
    {
        self.config_path.clone()
    }

    /// Return the public configuration in force: everything but the
    /// private key, which comes back empty.
    pub fn get_config(&self) -> (c: Option<WireGuardConfig>)
        ensures
            match self.config_view() {
                Some(v) => c matches Some(r) && r@ == public_config(v) && r.private_key@ == ""@,
                None => c is None,
            },
    {
        match &self.config {
            Some(c) => {
                let mut r = c.duplicate();
                r.private_key = String::new();
                proof {
                    reveal_strlit("");
                }
                assert(r@ =~= public_config(c@));
                Some(r)
            },
            None => None,
        }
    }

    /// Generate keys, write the config file, and bring up the WireGuard
    /// interface. `interface_ip` is in CIDR notation, e.g. `10.10.10.1/24`.
    /// In order: `check_dependencies` (its error is returned); if
    /// `is_active` finds the interface up, a teardown (see `teardown`,
    /// with `config_file_exists` telling whether the file is there), whose
    /// error is returned; then `generate_keypair`, `write_file` of the fresh
    /// configuration's text and `wg-quick up` (see `setup_from_keys`). A
    /// configuration written to the file stays in force even when
    /// `wg-quick up` fails.
    pub fn setup<
        C: FnOnce() -> Result<(), String>,
        A: FnOnce() -> bool,
        X: FnOnce() -> bool,
        D: FnOnce(Vec<String>) -> CommandRun,
        P: FnOnce() -> bool,
        F: FnOnce(Vec<String>) -> CommandRun,
        K: FnOnce() -> Result<(String, String), String>,
        W: FnOnce(String) -> Result<(), String>,
        U: FnOnce(Vec<String>) -> CommandRun,
    >(
        &mut self,
        interface_ip: String,
        listen_port: u16,
        check_dependencies: C,
        is_active: A,
        config_file_exists: X,
        wg_quick_down: D,
        still_present: P,
        ip_delete: F,
        generate_keypair: K,
        write_file: W,
        wg_quick_up: U,
    ) -> (res: Result<(), String>)
        requires
            call_requires(check_dependencies, ()),
            call_requires(is_active, ()),
            call_requires(config_file_exists, ()),
            forall|a: Vec<String>| #[trigger] call_requires(wg_quick_down, (a,)),
            call_requires(still_present, ()),
            forall|a: Vec<String>| #[trigger] call_requires(ip_delete, (a,)),
            call_requires(generate_keypair, ()),
            forall|t: String| #[trigger] call_requires(write_file, (t,)),
            forall|a: Vec<String>| #[trigger] call_requires(wg_quick_up, (a,)),
        ensures
            final(self).path_view() == old(self).path_view(),
            exists|deps: Result<(), String>| {
                &&& #[trigger] call_ensures(check_dependencies, (), deps)
                &&& match deps {
                    Err(e) => res matches Err(m) && m@ == e@ && final(self).config_view() == old(self).config_view(),
                    Ok(_) => exists|active: bool| {
                        &&& #[trigger] call_ensures(is_active, (), active)
                        &&& !active ==> setup_from_keys(
                            generate_keypair,
                            write_file,
                            wg_quick_up,
                            old(self).path_view(),
                            interface_ip@,
                            listen_port,
                            old(self).config_view(),
                            final(self).config_view(),
                            res,
                        )
                        &&& active ==> exists|file_exists: bool, down: Option<ConfigView>, down_res: Result<(), String>| {
                            &&& call_ensures(config_file_exists, (), file_exists)
                            &&& #[trigger] teardown_outcome(
                                file_exists,
                                wg_quick_down,
                                still_present,
                                ip_delete,
                                old(self).path_view(),
                                old(self).config_view(),
                                down,
                                down_res,
                            )
                            &&& match down_res {
                                Err(e) => res matches Err(m) && m@ == e@ && final(self).config_view() == down,
                                Ok(_) => setup_from_keys(
                                    generate_keypair,
                                    write_file,
                                    wg_quick_up,
                                    old(self).path_view(),
                                    interface_ip@,
                                    listen_port,
                                    down,
                                    final(self).config_view(),
                                    res,
                                ),
                            }
                        }
                    },
                }
            },
    {
        let deps = check_dependencies();
        let ghost d = deps;
        assert(call_ensures(check_dependencies, (), d));
        match deps {
            Err(e) => return Err(e),
            Ok(()) => {},
        }
        let active = is_active();
        assert(call_ensures(is_active, (), active));
        let ghost before = self.config_view();
        if active {
            let file_exists = config_file_exists();
            assert(call_ensures(config_file_exists, (), file_exists));
            let down_res = self.teardown(file_exists, wg_quick_down, still_present, ip_delete);
            let ghost dr = down_res;
            let ghost down = self.config_view();
            assert(teardown_outcome(file_exists, wg_quick_down, still_present, ip_delete, self.path_view(), before, down, dr));
            match down_res {
                Err(e) => return Err(e),
                Ok(()) => {},
            }
        }
        let ghost mid = self.config_view();
        let keys = generate_keypair();
        let ghost k = keys;
        assert(call_ensures(generate_keypair, (), k));
        let (private_key, public_key) = match keys {
            Err(e) => return Err(e),
            Ok(pair) => pair,
        };
        let config = WireGuardConfig::fresh(private_key, public_key, interface_ip, listen_port);
        let text = config.file_text();
        let ghost t = text;
        let written = write_file(text);
        let ghost w = written;
        assert(call_ensures(write_file, (t,), w));
        match written {
            Err(e) => return Err(e),
            Ok(()) => {},
        }
        self.config = Some(config);
        self.bring_up(wg_quick_up)
    }

    /// Remove an interface left up by an earlier run, if `active` says it is
    /// there: a teardown (see `teardown`), with its error prefixed. Returns
    /// whether a cleanup was done.
    pub fn cleanup_stale<
        D: FnOnce(Vec<String>) -> CommandRun,
        P: FnOnce() -> bool,
        F: FnOnce(Vec<String>) -> CommandRun,
    >(
        &mut self,
        active: bool,
        file_exists: bool,
        wg_quick_down: D,
        still_present: P,
        ip_delete: F,
    ) -> (res: Result<bool, String>)
        requires
            forall|a: Vec<String>| #[trigger] call_requires(wg_quick_down, (a,)),
            call_requires(still_present, ()),
            forall|a: Vec<String>| #[trigger] call_requires(ip_delete, (a,)),
        ensures
            final(self).path_view() == old(self).path_view(),
            !active ==> res == Ok::<bool, String>(false) && final(self).config_view() == old(self).config_view(),
            active ==> exists|down_res: Result<(), String>| {
                &&& #[trigger] teardown_outcome(
                    file_exists,
                    wg_quick_down,
                    still_present,
                    ip_delete,
                    old(self).path_view(),
                    old(self).config_view(),
                    final(self).config_view(),
                    down_res,
                )
                &&& match down_res {
                    Err(e) => res matches Err(m) && m@ == "Failed to cleanup stale WireGuard interface: "@ + e@,
                    Ok(_) => res == Ok::<bool, String>(true),
                }
            },
    {
        if !active {
            return Ok(false);
        }
        let r = self.teardown(file_exists, wg_quick_down, still_present, ip_delete);
        match r {
            Err(e) => Err(String::from_str("Failed to cleanup stale WireGuard interface: ").concat(e.as_str())),
            Ok(()) => Ok(true),
        }
    }

    /// Returns an error unless `wg` and then `wg-quick` are found: `which_wg`
    /// and `which_wg_quick` run `which wg` and `which wg-quick`; a run that
    /// cannot start gives its own error, a failing one the advice to install
    /// wireguard-tools.
    pub fn check_dependencies<Q: FnOnce(Vec<String>) -> CommandRun, R: FnOnce(Vec<String>) -> CommandRun>(
        which_wg: Q,
        which_wg_quick: R,
    ) -> (res: Result<(), String>)
        requires
            forall|a: Vec<String>| #[trigger] call_requires(which_wg, (a,)),
            forall|a: Vec<String>| #[trigger] call_requires(which_wg_quick, (a,)),
        ensures
            exists|args: Vec<String>, run: CommandRun| {
                &&& #[trigger] call_ensures(which_wg, (args,), run)
                &&& strs_view(args@) == seq!["which"@, "wg"@]
                &&& match command_error(run, ""@, ""@) {
                    Some(_) => match run {
                        CommandRun::NotStarted(e) => res matches Err(m) && m@ == e@,
                        CommandRun::Finished { .. } => res matches Err(m) && m@ == wg_missing_text(),
                    },
                    None => exists|args2: Vec<String>, run2: CommandRun| {
                        &&& #[trigger] call_ensures(which_wg_quick, (args2,), run2)
                        &&& strs_view(args2@) == seq!["which"@, "wg-quick"@]
                        &&& match run2 {
                            CommandRun::NotStarted(e) => res matches Err(m) && m@ == e@,
                            CommandRun::Finished { success, .. } => if success {
                                res is Ok
                            } else {
                                res matches Err(m) && m@ == wg_quick_missing_text()
                            },
                        }
                    },
                }
            },
    {
        let args = str_vec(&["which", "wg"]);
        assert(strs_view(args@) =~= seq!["which"@, "wg"@]);
        let ghost a = args;
        let run = which_wg(args);
        let ghost r = run;
        assert(call_ensures(which_wg, (a,), r));
        match run {
            CommandRun::NotStarted(e) => return Err(e),
            CommandRun::Finished { success, .. } => {
                if !success {
                    return Err(String::from_str(
                        "WireGuard tools (wg) not found. Install wireguard-tools: sudo apt install wireguard-tools",
                    ));
                }
            },
        }
        let args2 = str_vec(&["which", "wg-quick"]);
        assert(strs_view(args2@) =~= seq!["which"@, "wg-quick"@]);
        let ghost a2 = args2;
        let run2 = which_wg_quick(args2);
        let ghost r2 = run2;
        assert(call_ensures(which_wg_quick, (a2,), r2));
        match run2 {
            CommandRun::NotStarted(e) => Err(e),
            CommandRun::Finished { success, .. } => {
                if success {
                    Ok(())
                } else {
                    Err(String::from_str("wg-quick not found. Install wireguard-tools: sudo apt install wireguard-tools"))
                }
            },
        }
    }

    /// Arguments of the privileged `ip link delete` that removes an interface
    /// left behind.
    pub fn stale_delete_command() -> (args: Vec<String>)
        ensures
            strs_view(args@) == seq!["ip"@, "link"@, "delete"@, INTERFACE_NAME@],
    {
        let args = str_vec(&["ip", "link", "delete", INTERFACE_NAME]);
        assert(strs_view(args@) =~= seq!["ip"@, "link"@, "delete"@, INTERFACE_NAME@]);
        args
    }

    /// Arguments of the privileged `wg-quick down <config file>`.
    pub fn bring_down_command(&self) -> (args: Vec<String>)
        ensures
            strs_view(args@) == seq!["wg-quick"@, "down"@, self.path_view()],
    {
        let mut args = str_vec(&["wg-quick", "down"]);
        args.push(self.config_path.clone());
        assert(strs_view(args@) =~= seq!["wg-quick"@, "down"@, self.path_view()]);
        args
    }

    /// Bring the interface down and clean up. When the configuration file
    /// exists, `wg_quick_down` runs `wg-quick down <file>` (and removes the
    /// file once the command ran); a command that cannot be started is an
    /// error, a failing one is not. Then, if `still_present` finds the
    /// interface still there, `ip_delete` runs `ip link delete <iface>`,
    /// whose failure is an error. On success no configuration is in force;
    /// on an error the configuration is kept.
    pub fn teardown<
        D: FnOnce(Vec<String>) -> CommandRun,
        P: FnOnce() -> bool,
        F: FnOnce(Vec<String>) -> CommandRun,
    >(&mut self, file_exists: bool, wg_quick_down: D, still_present: P, ip_delete: F) -> (res: Result<(), String>)
        requires
            forall|a: Vec<String>| #[trigger] call_requires(wg_quick_down, (a,)),
            call_requires(still_present, ()),
            forall|a: Vec<String>| #[trigger] call_requires(ip_delete, (a,)),
        ensures
            final(self).path_view() == old(self).path_view(),
            teardown_outcome(
                file_exists,
                wg_quick_down,
                still_present,
                ip_delete,
                old(self).path_view(),
                old(self).config_view(),
                final(self).config_view(),
                res,
            ),
    {
        if file_exists {
            let args = self.bring_down_command();
            let ghost a = args;
            let run = wg_quick_down(args);
            let ghost r = run;
            assert(call_ensures(wg_quick_down, (a,), r));
            match run {
                CommandRun::NotStarted(e) => {
                    return Err(String::from_str("Failed to run wg-quick down: ").concat(e.as_str()));
                },
                CommandRun::Finished { .. } => {},
            }
        }
        let present = still_present();
        assert(call_ensures(still_present, (), present));
        if present {
            let args = Self::stale_delete_command();
            let ghost a = args;
            let run = ip_delete(args);
            let ghost r = run;
            assert(call_ensures(ip_delete, (a,), r));
            let failed = String::from_str("Failed to delete stale interface ").concat(INTERFACE_NAME).concat(": ");
            match command_result(run, "Failed to delete stale interface: ", failed.as_str()) {
                Err(e) => return Err(e),
                Ok(()) => {},
            }
        }
        self.config = None;
        Ok(())
    }

    /// Arguments of the privileged `wg set` that adds or updates a peer.
    pub fn peer_set_command(public_key: &String, allowed_ips: &String, endpoint: &Option<String>) -> (args: Vec<String>)
        ensures
            strs_view(args@) == peer_set_args(public_key@, allowed_ips@, opt_str(*endpoint)),
    {
        let mut args = str_vec(&["wg", "set", INTERFACE_NAME, "peer"]);
        args.push(public_key.clone());
        args.push(String::from_str("allowed-ips"));
        args.push(allowed_ips.clone());
        match endpoint {
            Some(ep) => {
                args.push(String::from_str("endpoint"));
                args.push(ep.clone());
            },
            None => {},
        }
        assert(strs_view(args@) =~= peer_set_args(public_key@, allowed_ips@, opt_str(*endpoint)));
        args
    }

    /// Arguments of the privileged `wg set` that removes a peer.
    pub fn peer_remove_command(public_key: &str) -> (args: Vec<String>)
        ensures
            strs_view(args@) == peer_remove_args(public_key@),
    {
        let args = str_vec(&["wg", "set", INTERFACE_NAME, "peer", public_key, "remove"]);
        assert(strs_view(args@) =~= peer_remove_args(public_key@));
        args
    }

    /// Add a peer to the running interface and to the table. When the
    /// interface is not up (`active` false) nothing is run and an error is
    /// returned. Otherwise `wg_set` runs the privileged command whose
    /// arguments it is given (`wg set <iface> peer <key> allowed-ips <ips>
    /// [endpoint <ep>]`) and reports how it went; the table changes only when
    /// it succeeded, and then the file text to persist is returned when a
    /// configuration is in force.
    pub fn add_peer<F: FnOnce(Vec<String>) -> CommandRun>(
        &mut self,
        public_key: String,
        allowed_ips: String,
        endpoint: Option<String>,
        active: bool,
        wg_set: F,
    ) -> (res: Result<Option<String>, String>)
        requires
            forall|a: Vec<String>| #[trigger] call_requires(wg_set, (a,)),
        ensures
            final(self).path_view() == old(self).path_view(),
            !active ==> {
                &&& res matches Err(e) && e@ == "WireGuard interface is not up. Run Setup first."@
                &&& final(self).config_view() == old(self).config_view()
            },
            active ==> exists|args: Vec<String>, run: CommandRun| {
                &&& #[trigger] call_ensures(wg_set, (args,), run)
                &&& strs_view(args@) == peer_set_args(public_key@, allowed_ips@, opt_str(endpoint))
                &&& match command_error(run, "Failed to run `wg set` for peer: "@, "`wg set peer` failed: "@) {
                    Some(e) => {
                        &&& res matches Err(m) && m@ == e
                        &&& final(self).config_view() == old(self).config_view()
                    },
                    None => {
                        let p = PeerView { public_key: public_key@, allowed_ips: allowed_ips@, endpoint: opt_str(endpoint) };
                        let new_config = match old(self).config_view() {
                            Some(c) => Some(config_with_peer(c, p)),
                            None => None,
                        };
                        &&& final(self).config_view() == new_config
                        &&& res matches Ok(text) && opt_str(text) == opt_config_text(new_config)
                    },
                }
            },
    {
        if !active {
            return Err(String::from_str("WireGuard interface is not up. Run Setup first."));
        }
        let args = Self::peer_set_command(&public_key, &allowed_ips, &endpoint);
        let ghost a = args;
        let run = wg_set(args);
        let ghost r = run;
        assert(call_ensures(wg_set, (a,), r));
        match command_result(run, "Failed to run `wg set` for peer: ", "`wg set peer` failed: ") {
            Err(e) => return Err(e),
            Ok(()) => {},
        }
        let peer = WireGuardPeer { public_key, allowed_ips, endpoint };
        match self.config.take() {
            Some(mut config) => {
                upsert_into(&mut config.peers, peer);
                let text = config.file_text();
                self.config = Some(config);
                Ok(Some(text))
            },
            None => Ok(None),
        }
    }

    /// Remove a peer from the running interface and from the table. When the
    /// interface is not active nothing is run and an error is returned.
    /// Otherwise `wg_remove` runs the privileged command whose arguments it
    /// is given (`wg set <iface> peer <key> remove`) and reports how it went;
    /// the table changes only when it succeeded, and then the file text to
    /// persist is returned when a configuration is in force.
    pub fn remove_peer<F: FnOnce(Vec<String>) -> CommandRun>(
        &mut self,
        public_key: &str,
        active: bool,
        wg_remove: F,
    ) -> (res: Result<Option<String>, String>)
        requires
            forall|a: Vec<String>| #[trigger] call_requires(wg_remove, (a,)),
        ensures
            final(self).path_view() == old(self).path_view(),
            !active ==> {
                &&& res matches Err(e) && e@ == "WireGuard interface is not active."@
                &&& final(self).config_view() == old(self).config_view()
            },
            active ==> exists|args: Vec<String>, run: CommandRun| {
                &&& #[trigger] call_ensures(wg_remove, (args,), run)
                &&& strs_view(args@) == peer_remove_args(public_key@)
                &&& match command_error(run, "Failed to run `wg set` remove: "@, "`wg peer remove` failed: "@) {
                    Some(e) => {
                        &&& res matches Err(m) && m@ == e
                        &&& final(self).config_view() == old(self).config_view()
                    },
                    None => {
                        let new_config = match old(self).config_view() {
                            Some(c) => Some(config_without_peer(c, public_key@)),
                            None => None,
                        };
                        &&& final(self).config_view() == new_config
                        &&& res matches Ok(text) && opt_str(text) == opt_config_text(new_config)
                    },
                }
            },
    {
        if !active {
            return Err(String::from_str("WireGuard interface is not active."));
        }
        let args = Self::peer_remove_command(public_key);
        let ghost a = args;
        let run = wg_remove(args);
        let ghost r = run;
        assert(call_ensures(wg_remove, (a,), r));
        match command_result(run, "Failed to run `wg set` remove: ", "`wg peer remove` failed: ") {
            Err(e) => return Err(e),
            Ok(()) => {},
        }
        let key = String::from_str(public_key);
        match self.config.take() {
            Some(mut config) => {
                config.peers = remove_key(&config.peers, &key);
                let text = config.file_text();
                self.config = Some(config);
                Ok(Some(text))
            },
            None => Ok(None),
        }
    }

    /// Build the shareable peer config from the configuration in force.
    /// `endpoint` is the caller's external IP:port (optional, e.g. behind NAT);
    /// `peer_id` and `libp2p_port` let recipients dial the P2P layer.
    pub fn get_shareable_config(
        &self,
        endpoint: Option<String>,
        peer_id: Option<String>,
        libp2p_port: Option<u16>,
    ) -> (r: Option<ShareablePeerConfig>)
        ensures
            match self.config_view() {
                Some(c) => r matches Some(s) && s@ == shareable_of(c, opt_str(endpoint), opt_str(peer_id), libp2p_port),
                None => r is None,
            },
    {
        match &self.config {
            Some(c) => {
                let tunnel_ip = prefix_before_char(c.interface_ip.as_str(), '/');
                Some(ShareablePeerConfig {
                    public_key: c.public_key.clone(),
                    tunnel_ip,
                    endpoint,
                    listen_port: c.listen_port,
                    peer_id,
                    libp2p_port,
                })
            },
            None => None,
        }
    }

    /// Arguments of the privileged `wg-quick up <config file>`.
    pub fn bring_up_command(&self) -> (args: Vec<String>)
        ensures
            strs_view(args@) == seq!["wg-quick"@, "up"@, self.path_view()],
    {
        let mut args = str_vec(&["wg-quick", "up"]);
        args.push(self.config_path.clone());
        assert(strs_view(args@) =~= seq!["wg-quick"@, "up"@, self.path_view()]);
        args
    }

    /// Bring the interface up: `wg_quick_up` runs the privileged command
    /// whose arguments it is given (`wg-quick up <config file>`), and the
    /// result says how it went.
    pub fn bring_up<F: FnOnce(Vec<String>) -> CommandRun>(&self, wg_quick_up: F) -> (res: Result<(), String>)
        requires
            forall|a: Vec<String>| #[trigger] call_requires(wg_quick_up, (a,)),
        ensures
            exists|args: Vec<String>, run: CommandRun| {
                &&& #[trigger] call_ensures(wg_quick_up, (args,), run)
                &&& strs_view(args@) == seq!["wg-quick"@, "up"@, self.path_view()]
                &&& match command_error(run, "Failed to run wg-quick up: "@, "wg-quick up failed: "@) {
                    Some(e) => res matches Err(m) && m@ == e,
                    None => res is Ok,
                }
            },
    {
        let args = self.bring_up_command();
        let ghost a = args;
        let run = wg_quick_up(args);
        let ghost r = run;
        assert(call_ensures(wg_quick_up, (a,), r));
        command_result(run, "Failed to run wg-quick up: ", "wg-quick up failed: ")
    }
}

} // verus!

verus! {

// ─── Laws of the peer table ──────────────────────────────────────────────

proof fn lemma_without_key_absent(peers: Seq<PeerView>, key: Seq<char>)
    requires
        !has_key(peers, key),
    ensures
        without_key(peers, key) == peers,
    decreases peers.len(),
{
    if peers.len() > 0 {
        let init = peers.drop_last();
        assert(!has_key(init, key)) by {
            if has_key(init, key) {
                let i = choose|i: int| 0 <= i < init.len() && init[i].public_key == key;
                assert(peers[i].public_key == key);
            }
        }
        lemma_without_key_absent(init, key);
        assert(peers.last().public_key != key);
        assert(init.push(peers.last()) =~= peers);
    }
}

proof fn lemma_without_key_update(peers: Seq<PeerView>, key: Seq<char>, i: int, p: PeerView)
    requires
        0 <= i < peers.len(),
        peers[i].public_key == key,
        p.public_key == key,
    ensures
        without_key(peers.update(i, p), key) == without_key(peers, key),
    decreases peers.len(),
{
    let upd = peers.update(i, p);
    if i == peers.len() - 1 {
        assert(upd.drop_last() =~= peers.drop_last());
    } else {
        lemma_without_key_update(peers.drop_last(), key, i, p);
        assert(upd.drop_last() =~= peers.drop_last().update(i, p));
        assert(upd.last() == peers.last());
    }
}

proof fn lemma_without_key_members(peers: Seq<PeerView>, key: Seq<char>)
    ensures
        forall|j: int| 0 <= j < without_key(peers, key).len() ==> {
            &&& without_key(peers, key)[j].public_key != key
            &&& peers.contains(#[trigger] without_key(peers, key)[j])
        },
    decreases peers.len(),
{
    if peers.len() > 0 {
        let init = peers.drop_last();
        lemma_without_key_members(init, key);
        let w = without_key(peers, key);
        let wi = without_key(init, key);
        assert forall|j: int| 0 <= j < w.len() implies w[j].public_key != key && peers.contains(#[trigger] w[j]) by {
            if j < wi.len() {
                assert(w[j] == wi[j]);
                assert(init.contains(wi[j]));
                let k = choose|k: int| 0 <= k < init.len() && init[k] == wi[j];
                assert(peers[k] == init[k]);
            } else {
                assert(w[j] == peers.last());
                assert(peers[peers.len() - 1] == peers.last());
            }
        }
    }
}

proof fn lemma_without_key_distinct(peers: Seq<PeerView>, key: Seq<char>)
    requires
        keys_distinct(peers),
    ensures
        keys_distinct(without_key(peers, key)),
    decreases peers.len(),
{
    if peers.len() > 0 {
        let init = peers.drop_last();
        assert(keys_distinct(init)) by {
            assert forall|i: int, j: int|
                0 <= i < init.len() && 0 <= j < init.len() && i != j implies init[i].public_key
                != init[j].public_key by {
                assert(init[i] == peers[i] && init[j] == peers[j]);
            }
        }
        lemma_without_key_distinct(init, key);
        lemma_without_key_members(init, key);
        let wi = without_key(init, key);
        let last = peers.last();
        if last.public_key != key {
            assert forall|j: int| 0 <= j < wi.len() implies #[trigger] wi[j].public_key != last.public_key by {
                assert(init.contains(wi[j]));
                let k = choose|k: int| 0 <= k < init.len() && init[k] == wi[j];
                assert(peers[k] == init[k]);
                assert(peers[peers.len() - 1] == last);
            }
            let w = wi.push(last);
            assert forall|i: int, j: int|
                0 <= i < w.len() && 0 <= j < w.len() && i != j implies w[i].public_key
                != w[j].public_key by {
                if i < wi.len() && j < wi.len() {
                    assert(w[i] == wi[i] && w[j] == wi[j]);
                } else if i < wi.len() {
                    assert(w[i] == wi[i]);
                } else {
                    assert(w[j] == wi[j]);
                }
            }
        }
    }
}

/// Removing a peer undoes adding it: after `add_peer` of a key and then
/// `remove_peer` of the same key, the table is the table without that key
/// before the addition, and it is the table as it was when the key was new.
pub proof fn law_remove_undoes_add(c: ConfigView, p: PeerView)
    ensures
        config_without_peer(config_with_peer(c, p), p.public_key) == config_without_peer(c, p.public_key),
        !has_key(c.peers, p.public_key) ==> config_without_peer(config_with_peer(c, p), p.public_key) == c,
{
    let key = p.public_key;
    if has_key(c.peers, key) {
        let i = choose|i: int| is_first_with_key(c.peers, key, i);
        let k = choose|k: int| 0 <= k < c.peers.len() && c.peers[k].public_key == key;
        assert(exists|i: int| is_first_with_key(c.peers, key, i)) by {
            lemma_first_key_exists(c.peers, key, k);
        }
        lemma_without_key_update(c.peers, key, i, p);
    } else {
        assert(c.peers.push(p).drop_last() =~= c.peers);
        lemma_without_key_absent(c.peers, key);
    }
    assert(config_without_peer(config_with_peer(c, p), key) =~= config_without_peer(c, key));
    if !has_key(c.peers, key) {
        assert(config_without_peer(c, key) =~= c);
    }
}

proof fn lemma_first_key_exists(peers: Seq<PeerView>, key: Seq<char>, k: int)
    requires
        0 <= k < peers.len(),
        peers[k].public_key == key,
    ensures
        exists|i: int| is_first_with_key(peers, key, i),
    decreases k,
{
    if forall|j: int| 0 <= j < k ==> peers[j].public_key != key {
        assert(is_first_with_key(peers, key, k));
    } else {
        let j = choose|j: int| 0 <= j < k && peers[j].public_key == key;
        lemma_first_key_exists(peers, key, j);
    }
}

/// Adding a peer leaves exactly one entry for its key, holding the new
/// allowed IPs and endpoint, and keeps the keys of the table distinct.
pub proof fn law_add_peer_entry(c: ConfigView, p: PeerView)
    requires
        keys_distinct(c.peers),
    ensures
        keys_distinct(config_with_peer(c, p).peers),
        exists|i: int| 0 <= i < config_with_peer(c, p).peers.len() && config_with_peer(c, p).peers[i] == p,
        forall|q: PeerView| q.public_key != p.public_key ==> (c.peers.contains(q) <==> config_with_peer(c, p).peers.contains(q)),
{
    let key = p.public_key;
    let old_peers = c.peers;
    let new_peers = config_with_peer(c, p).peers;
    if has_key(old_peers, key) {
        let k = choose|k: int| 0 <= k < old_peers.len() && old_peers[k].public_key == key;
        lemma_first_key_exists(old_peers, key, k);
        let i = choose|i: int| is_first_with_key(old_peers, key, i);
        assert(new_peers == old_peers.update(i, p));
        assert(new_peers[i] == p);
        assert forall|q: PeerView| q.public_key != key implies (old_peers.contains(q) <==> new_peers.contains(q)) by {
            if old_peers.contains(q) {
                let j = choose|j: int| 0 <= j < old_peers.len() && old_peers[j] == q;
                assert(new_peers[j] == q);
            }
            if new_peers.contains(q) {
                let j = choose|j: int| 0 <= j < new_peers.len() && new_peers[j] == q;
                assert(old_peers[j] == q);
            }
        }
    } else {
        assert(new_peers == old_peers.push(p));
        assert(new_peers[old_peers.len() as int] == p);
        assert forall|q: PeerView| q.public_key != key implies (old_peers.contains(q) <==> new_peers.contains(q)) by {
            if old_peers.contains(q) {
                let j = choose|j: int| 0 <= j < old_peers.len() && old_peers[j] == q;
                assert(new_peers[j] == q);
            }
            if new_peers.contains(q) {
                let j = choose|j: int| 0 <= j < new_peers.len() && new_peers[j] == q;
                assert(old_peers[j] == q);
            }
        }
        assert forall|a: int, b: int|
            0 <= a < new_peers.len() && 0 <= b < new_peers.len() && a != b implies new_peers[a].public_key
            != new_peers[b].public_key by {
            if a < old_peers.len() && b < old_peers.len() {
            } else if a < old_peers.len() {
                assert(old_peers[a].public_key != key);
            } else {
                assert(old_peers[b].public_key != key);
            }
        }
    }
}

/// Removing a peer leaves no entry with its key, keeps every other entry,
/// and keeps the keys of the table distinct.
pub proof fn law_remove_peer_entry(c: ConfigView, key: Seq<char>)
    requires
        keys_distinct(c.peers),
    ensures
        keys_distinct(config_without_peer(c, key).peers),
        !has_key(config_without_peer(c, key).peers, key),
        forall|q: PeerView| q.public_key != key && c.peers.contains(q) ==> config_without_peer(c, key).peers.contains(q),
{
    lemma_without_key_distinct(c.peers, key);
    lemma_without_key_members(c.peers, key);
    lemma_without_key_keeps(c.peers, key);
    let w = without_key(c.peers, key);
    if has_key(w, key) {
        let i = choose|i: int| 0 <= i < w.len() && w[i].public_key == key;
        assert(w[i].public_key != key);
    }
}

proof fn lemma_without_key_keeps(peers: Seq<PeerView>, key: Seq<char>)
    ensures
        forall|q: PeerView| q.public_key != key && peers.contains(q) ==> #[trigger] without_key(peers, key).contains(q),
    decreases peers.len(),
{
    if peers.len() > 0 {
        let init = peers.drop_last();
        lemma_without_key_keeps(init, key);
        let wi = without_key(init, key);
        assert forall|q: PeerView| q.public_key != key && peers.contains(q) implies #[trigger] without_key(peers, key).contains(q) by {
            let j = choose|j: int| 0 <= j < peers.len() && peers[j] == q;
            if j < peers.len() - 1 {
                assert(init[j] == q);
                assert(init.contains(q));
                assert(wi.contains(q));
                let k = choose|k: int| 0 <= k < wi.len() && wi[k] == q;
                if peers.last().public_key != key {
                    assert(wi.push(peers.last())[k] == q);
                }
            } else {
                assert(wi.push(peers.last())[wi.len() as int] == q);
            }
        }
    }
}

} // verus!

verus! {

// ─── Commands of the user interface ──────────────────────────────────────

/// The listen port to set up with: the one given, else the default.
pub fn listen_port_or_default(listen_port: Option<u16>) -> (p: u16)
    ensures
        p == match listen_port {
            Some(p) => p,
            None => DEFAULT_LISTEN_PORT,
        },
{
    match listen_port {
        Some(p) => p,
        None => DEFAULT_LISTEN_PORT,
    }
}

/// Report of an added peer: the first 8 bytes of its key and its allowed IPs.
pub fn peer_added_text(public_key: &str, allowed_ip: &str) -> (s: String)
    requires
        can_cut_at(public_key@, 8),
    ensures
        s@ == "Peer "@ + byte_prefix(public_key@, 8) + " added with allowed IP "@ + allowed_ip@,
{
    let head = cut_at(public_key, 8);
    String::from_str("Peer ").concat(head.as_str()).concat(" added with allowed IP ").concat(allowed_ip)
}

/// Report of a removed peer: the first 8 bytes of its key.
pub fn peer_removed_text(public_key: &str) -> (s: String)
    requires
        can_cut_at(public_key@, 8),
    ensures
        s@ == "Peer "@ + byte_prefix(public_key@, 8) + " removed"@,
{
    let head = cut_at(public_key, 8);
    String::from_str("Peer ").concat(head.as_str()).concat(" removed")
}

/// The allowed IPs for a peer added from its shared config: its tunnel IP as a /32.
pub open spec fn route_of(tunnel_ip: Seq<char>) -> Seq<char> {
    tunnel_ip + "/32"@
}

/// The endpoint for a peer added from its shared config: as given when it
/// holds a `:`, else with the peer's listen port appended.
pub open spec fn endpoint_of(endpoint: Option<Seq<char>>, listen_port: u16) -> Option<Seq<char>> {
    match endpoint {
        Some(ep) => if has_char(ep, ':') {
            Some(ep)
        } else {
            Some(ep + ":"@ + decimal(listen_port as nat))
        },
        None => None,
    }
}

/// The libp2p address to dial a peer added from its shared config, when it
/// gives its peer id and libp2p port.
pub open spec fn dial_address_of(c: ShareableView) -> Option<Seq<char>> {
    match (c.peer_id, c.libp2p_port) {
        (Some(pid), Some(port)) => Some("/ip4/"@ + c.tunnel_ip + "/tcp/"@ + decimal(port as nat) + "/p2p/"@ + pid),
        _ => None,
    }
}

/// The allowed IPs and endpoint to add a peer with, from its shared config.
pub fn peer_route(config: &ShareablePeerConfig) -> (r: (String, Option<String>))
    ensures
        r.0@ == route_of(config.tunnel_ip@),
        opt_str(r.1) == endpoint_of(opt_str(config.endpoint), config.listen_port),
{
    let allowed_ip = config.tunnel_ip.clone().concat("/32");
    let endpoint = match &config.endpoint {
        Some(ep) => {
            if contains_char(ep.as_str(), ':') {
                Some(ep.clone())
            } else {
                let port = decimal_string(config.listen_port as u64);
                Some(ep.clone().concat(":").concat(port.as_str()))
            }
        },
        None => None,
    };
    (allowed_ip, endpoint)
}

/// The libp2p address to dial a peer added from its shared config.
pub fn dial_address(config: &ShareablePeerConfig) -> (r: Option<String>)
    ensures
        opt_str(r) == dial_address_of(config@),
{
    match (&config.peer_id, config.libp2p_port) {
        (Some(pid), Some(port)) => {
            let p = decimal_string(port as u64);
            Some(String::from_str("/ip4/").concat(config.tunnel_ip.as_str()).concat("/tcp/").concat(p.as_str()).concat(
                "/p2p/",
            ).concat(pid.as_str()))
        },
        _ => None,
    }
}

/// What became of dialing the P2P layer after adding a peer from its config.
pub enum DialOutcome {
    /// The config gave no peer id and port to dial.
    NotRequested,
    /// The P2P network is not started.
    NoNetwork,
    /// Dialing this address began.
    Initiated(String),
    /// Dialing failed, for this reason.
    Failed(String),
}

pub open spec fn dial_note(d: DialOutcome) -> Seq<char> {
    match d {
        DialOutcome::NotRequested => Seq::empty(),
        DialOutcome::NoNetwork => " — P2P network not started; join a room to enable auto-dial"@,
        DialOutcome::Initiated(a) => " — P2P auto-dial initiated to "@ + a@,
        DialOutcome::Failed(e) => " — P2P dial failed: "@ + e@,
    }
}

/// Report of a peer added from its shared config.
pub fn peer_from_config_text(public_key: &str, tunnel_ip: &str, dial: DialOutcome) -> (s: String)
    requires
        can_cut_at(public_key@, 8),
    ensures
        s@ == "Peer "@ + byte_prefix(public_key@, 8) + " (tunnel IP "@ + tunnel_ip@ + ") added successfully"@ + dial_note(dial),
{
    let head = cut_at(public_key, 8);
    let s = String::from_str("Peer ").concat(head.as_str()).concat(" (tunnel IP ").concat(tunnel_ip).concat(") added successfully");
    match dial {
        DialOutcome::NotRequested => {
            assert(s@ =~= s@ + Seq::<char>::empty());
            s
        },
        DialOutcome::NoNetwork => s.concat(" — P2P network not started; join a room to enable auto-dial"),
        DialOutcome::Initiated(a) => s.concat(" — P2P auto-dial initiated to ").concat(a.as_str()),
        DialOutcome::Failed(e) => s.concat(" — P2P dial failed: ").concat(e.as_str()),
    }
}

/// The TCP port in the pieces of a multiaddr: the piece after the first
/// `tcp` piece that has a successor, if it parses as a port.
pub open spec fn tcp_port_in(parts: Seq<Seq<char>>) -> Option<u16>
    decreases parts.len(),
{
    if parts.len() < 2 {
        None
    } else if parts[0] == "tcp"@ {
        parse_u16(parts[1])
    } else {
        tcp_port_in(parts.drop_first())
    }
}

/// The TCP port of the first listen address that gives one.
pub open spec fn first_tcp_port(addrs: Seq<Seq<char>>) -> Option<u16>
    decreases addrs.len(),
{
    if addrs.len() == 0 {
        None
    } else {
        match tcp_port_in(split_on(addrs[0], '/')) {
            Some(p) => Some(p),
            None => first_tcp_port(addrs.drop_first()),
        }
    }
}

fn tcp_port_of(parts: &Vec<String>) -> (r: Option<u16>)
    ensures
        r == tcp_port_in(text_strs(parts@)),
{
    let ghost pv = text_strs(parts@);
    let tcp = String::from_str("tcp");
    let mut k: usize = 0;
    assert(pv.skip(0) =~= pv);
    while parts.len() > k && parts.len() - k > 1
        invariant
            pv == text_strs(parts@),
            tcp@ == "tcp"@,
            k <= pv.len(),
            tcp_port_in(pv) == tcp_port_in(pv.skip(k as int)),
        decreases pv.len() - k,
    {
        assert(pv.skip(k as int)[0] == pv[k as int]);
        assert(pv.skip(k as int)[1] == pv[k + 1]);
        assert(pv[k as int] == parts@[k as int]@);
        assert(pv[k + 1] == parts@[k + 1]@);
        assert(pv.skip(k as int).len() >= 2);
        let is_tcp = parts[k] == tcp;
        assert(is_tcp == (parts@[k as int]@ == tcp@));
        if is_tcp {
            assert(tcp_port_in(pv.skip(k as int)) == parse_u16(pv.skip(k as int)[1]));
            return parse_u16_str(parts[k + 1].as_str());
        }
        assert(tcp_port_in(pv.skip(k as int)) == tcp_port_in(pv.skip(k as int).drop_first()));
        assert(pv.skip(k as int).drop_first() =~= pv.skip(k + 1));
        k = k + 1;
    }
    None
}

/// The TCP port libp2p listens on, read from its listen addresses of the
/// form `/ip4/.../tcp/PORT`: the first address that gives one wins.
pub fn libp2p_tcp_port(addrs: &Vec<String>) -> (r: Option<u16>)
    ensures
        r == first_tcp_port(text_strs(addrs@)),
{
    let ghost av = text_strs(addrs@);
    let mut i: usize = 0;
    assert(av.skip(0) =~= av);
    while i < addrs.len()
        invariant
            av == text_strs(addrs@),
            i <= av.len(),
            first_tcp_port(av) == first_tcp_port(av.skip(i as int)),
        decreases av.len() - i,
    {
        let parts = split_char(addrs[i].as_str(), '/');
        assert(av.skip(i as int)[0] == av[i as int]);
        assert(av[i as int] == addrs@[i as int]@);
        assert(av.skip(i as int).drop_first() =~= av.skip(i + 1));
        match tcp_port_of(&parts) {
            Some(p) => return Some(p),
            None => {},
        }
        i = i + 1;
    }
    None
}

} // verus!
