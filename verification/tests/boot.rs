//! From a client's MAC address to its boot script and its target.
use std::sync::Arc;
use xboot_core::config::{BootConfig, ByteSize, Client, ClientDefaults, Config, Disk, DiskType};
use xboot_core::iscsi::registry::TargetRegistry;
use xboot_core::manager::{served_disks, ArcStore, BuildError, ClientConfig, ClientManager};
use xboot_core::net::addr::{IpAddr, Ipv4Addr};
use xboot_core::net::dhcp::decide::plan;
use xboot_core::net::dhcp::options::USER_CLASS;
use xboot_core::net::dhcp::packet::{DhcpMessage, DhcpOption};
use xboot_core::net::http::boot_script::generate;
use xboot_core::net::http::{
    build_target, client_iqn, decode_percent, handle, parse_mac_param, Response,
};
use xboot_core::net::{NetError, NetIo};
use xboot_core::storage::{BackingStore, StorageError};
use xboot_core::volume::RamOverlay;

struct Mem(Vec<u8>);

impl BackingStore for Mem {
    fn size_bytes(&self) -> u64 {
        self.0.len() as u64
    }
    fn read_at(&self, offset: u64, buf: &mut [u8]) -> Result<(), StorageError> {
        let s = offset as usize;
        buf.copy_from_slice(&self.0[s..s + buf.len()]);
        Ok(())
    }
}

type Manager = ClientManager<dyn BackingStore>;

fn test_boot() -> BootConfig {
    BootConfig {
        server_ip: Ipv4Addr::new(192, 168, 1, 10),
        bind: IpAddr::V4(Ipv4Addr::unspecified()),
        http_bind: IpAddr::V4(Ipv4Addr::unspecified()),
        http_port: 80,
        iscsi_port: 3260,
        tftp_root: "/tmp".into(),
        bios_filename: "undionly.kpxe".into(),
        uefi_filename: "ipxe.efi".into(),
        http_script_url: "http://192.168.1.10/boot.ipxe".into(),
    }
}

fn disk(id: &str, disk_type: DiskType, backing: &str) -> Disk {
    Disk {
        id: id.into(),
        disk_type,
        backing: backing.into(),
        mode: None,
        ram_cache: ByteSize(1024 * 1024),
        policy: None,
    }
}

fn cfg_with_clients() -> Config {
    Config {
        disks: vec![
            disk("img", DiskType::Image, "img.raw"),
            disk("game1", DiskType::Game, "game.raw"),
            disk("wb", DiskType::Writeback, "wb"),
        ],
        clients: vec![Client {
            mac: "aa:bb:cc:dd:ee:01".into(),
            name: Some("pc-01".into()),
            system: "img".into(),
            games: vec!["game1".into()],
            writeback: "wb".into(),
        }],
        client_defaults: None,
        boot: Some(test_boot()),
    }
}

/// A manager whose images hold `fill` bytes.
fn manager_of(cfg: &Config, fill: u8) -> Manager {
    let stores = served_disks(&cfg.disks)
        .iter()
        .map(|_| Arc::new(Mem(vec![fill; 4096])) as Arc<dyn BackingStore>)
        .collect();
    ClientManager::new(cfg, Ok(stores)).ok().unwrap()
}

// --- Manager ---

#[test]
fn resolve_known_mac() {
    let mgr = manager_of(&cfg_with_clients(), 0);
    let c = mgr.resolve("aa:bb:cc:dd:ee:01").unwrap();
    assert_eq!(c.name.as_deref(), Some("pc-01"));
    assert_eq!(c.system_disk_id, "img");
    assert_eq!(c.game_disk_ids, vec!["game1"]);
}

#[test]
fn resolve_case_insensitive_mac() {
    let mgr = manager_of(&cfg_with_clients(), 0);
    assert!(mgr.resolve("AA:BB:CC:DD:EE:01").is_some());
}

#[test]
fn resolve_unknown_mac_without_defaults_returns_none() {
    let mgr = manager_of(&cfg_with_clients(), 0);
    assert!(mgr.resolve("ff:ff:ff:ff:ff:ff").is_none());
}

#[test]
fn resolve_unknown_mac_falls_back_to_defaults() {
    let mut cfg = cfg_with_clients();
    cfg.client_defaults = Some(ClientDefaults {
        system: "img".into(),
        games: vec!["game1".into()],
        writeback: "wb".into(),
    });
    let mgr = manager_of(&cfg, 0);
    let c = mgr.resolve("ff:ff:ff:ff:ff:ff").unwrap();
    assert_eq!(c.system_disk_id, "img");
}

#[test]
fn get_store_returns_cached_backing() {
    let mgr = manager_of(&cfg_with_clients(), 0xAB);
    let store = mgr.get_store("img").unwrap();
    assert_eq!(store.size_bytes(), 4096);
    let mut buf = [0u8; 4];
    store.read_at(0, &mut buf).unwrap();
    assert_eq!(buf, [0xAB, 0xAB, 0xAB, 0xAB]);
    // The handles lead to one store.
    assert!(Arc::ptr_eq(&store, &mgr.get_store("img").unwrap()));
}

#[test]
fn get_store_unknown_id_returns_none() {
    let mgr = manager_of(&cfg_with_clients(), 0);
    assert!(mgr.get_store("nonexistent").is_none());
    assert!(mgr.get_store("wb").is_none());
}

#[test]
fn arcstore_delegates_to_inner() {
    let store: Arc<dyn BackingStore> = Arc::new(Mem(vec![0xCDu8; 512]));
    let wrapper = ArcStore(store);
    assert_eq!(wrapper.size_bytes(), 512);
    let mut buf = [0u8; 2];
    wrapper.read_at(0, &mut buf).unwrap();
    assert_eq!(buf, [0xCD, 0xCD]);
}

#[test]
fn a_store_that_does_not_open_is_reported() {
    let cfg = cfg_with_clients();
    assert_eq!(served_disks(&cfg.disks), vec![0, 1]);
    let failed: Result<Vec<Arc<Mem>>, _> = Err((1, StorageError::Io("no such file".into())));
    let e = ClientManager::new(&cfg, failed).err().unwrap();
    assert_eq!(e.message(), "failed to open backing store 'game.raw': no such file");
    let e = BuildError::UnknownDisk("x".into());
    assert_eq!(e.message(), "client_defaults references unknown disk 'x'");
}

/// Of two clients under one address the later one counts.
#[test]
fn the_last_listed_client_counts() {
    let mut cfg = cfg_with_clients();
    cfg.clients.push(Client {
        mac: "AA:bb:CC:dd:EE:01".into(),
        name: Some("pc-02".into()),
        system: "img".into(),
        games: vec![],
        writeback: "wb".into(),
    });
    let mgr = manager_of(&cfg, 0);
    assert_eq!(mgr.resolve("aa:bb:cc:dd:ee:01").unwrap().name.as_deref(), Some("pc-02"));
    // Addresses outside ASCII have a lower case, too.
    cfg.clients[0].mac = "\u{c4}".into();
    let mgr = manager_of(&cfg, 0);
    assert_eq!(mgr.resolve("\u{e4}").unwrap().name.as_deref(), Some("pc-01"));
}

// --- Scripts ---

#[test]
fn generates_sanboot_script() {
    let script = generate("iqn.2026-06.dev.xboot:pc-01", "192.168.1.10");
    assert!(script.contains("#!ipxe"));
    assert!(script.contains("set initiator-iqn iqn.2026-06.dev.xboot:pc-01"));
    assert!(script.contains("sanboot iscsi:192.168.1.10::::iqn.2026-06.dev.xboot:pc-01"));
}

#[test]
fn keeps_san_registered_for_windows_handoff() {
    let script = generate("iqn.2026-06.dev.xboot:pc-01", "192.168.1.10");
    let keep_san = script.lines().position(|l| l == "set keep-san 1");
    let sanboot = script.lines().position(|l| l.starts_with("sanboot "));
    assert!(keep_san.is_some(), "script must set keep-san");
    assert!(keep_san < sanboot, "keep-san must be set before sanboot");
}

#[test]
fn generates_script_with_mac_iqn() {
    let script = generate("iqn.2026-06.dev.xboot:aa-bb-cc-dd-ee-01", "10.0.0.1");
    assert!(script.contains("set initiator-iqn iqn.2026-06.dev.xboot:aa-bb-cc-dd-ee-01"));
    assert!(
        script.contains("sanboot iscsi:10.0.0.1::::iqn.2026-06.dev.xboot:aa-bb-cc-dd-ee-01")
    );
}

#[test]
fn output_ends_with_newline() {
    let script = generate("iqn.2026-06.dev.xboot:test", "1.2.3.4");
    assert!(script.ends_with('\n'));
}

#[test]
fn parse_mac_extracts_value() {
    assert_eq!(
        parse_mac_param("mac=aa:bb:cc:dd:ee:01"),
        Some("aa:bb:cc:dd:ee:01".into())
    );
    assert_eq!(
        parse_mac_param("other=foo&mac=11:22:33:44:55:66"),
        Some("11:22:33:44:55:66".into())
    );
    assert_eq!(parse_mac_param("mac="), Some(String::new()));
    assert_eq!(parse_mac_param(""), None);
    assert_eq!(parse_mac_param("foo=bar"), None);
}

#[test]
fn parse_mac_decodes_percent_encoded_colon() {
    assert_eq!(
        parse_mac_param("mac=aa%3Abb%3Acc%3Add%3Aee%3A01"),
        Some("aa:bb:cc:dd:ee:01".into())
    );
}

#[test]
fn decode_percent_handles_plain_and_encoded() {
    assert_eq!(decode_percent("hello"), "hello");
    assert_eq!(decode_percent("ab%3Acd"), "ab:cd");
    assert_eq!(decode_percent("%20"), " ");
    assert_eq!(decode_percent("%gg"), "%gg"); // invalid hex left as-is
}

#[test]
fn client_iqn_uses_name_when_present() {
    let c = ClientConfig {
        mac: "aa:bb:cc:dd:ee:01".into(),
        name: Some("pc-01".into()),
        system_disk_id: "img".into(),
        game_disk_ids: vec![],
        writeback_disk_id: "wb".into(),
    };
    assert_eq!(client_iqn(&c), "iqn.2026-06.dev.xboot:pc-01");
}

#[test]
fn client_iqn_falls_back_to_mac() {
    let c = ClientConfig {
        mac: "aa-bb-cc-dd-ee-01".into(),
        name: None,
        system_disk_id: "img".into(),
        game_disk_ids: vec![],
        writeback_disk_id: "wb".into(),
    };
    assert_eq!(client_iqn(&c), "iqn.2026-06.dev.xboot:aa-bb-cc-dd-ee-01");
}

#[test]
fn scripts_are_exact() {
    assert_eq!(
        generate("iqn:a", "1.2.3.4"),
        "#!ipxe\nset initiator-iqn iqn:a\nset keep-san 1\nsanboot iscsi:1.2.3.4::::iqn:a\n"
    );
}

#[test]
fn bytes_of_a_query_are_characters() {
    assert_eq!(decode_percent("%C3%a9"), "\u{c3}\u{a9}");
    assert_eq!(decode_percent("a%2"), "a%2");
    assert_eq!(decode_percent("%%41"), "%A");
    assert_eq!(parse_mac_param("xmac=1&mac=2&mac=3"), Some("2".into()));
}

/// The URL that DHCP hands iPXE leads back to the client it was made for.
#[test]
fn planned_urls_name_their_client() {
    let mut chaddr = [0u8; 16];
    chaddr[..6].copy_from_slice(&[0xaa, 0xbb, 0xcc, 0xdd, 0xee, 0x01]);
    let zero = Ipv4Addr::unspecified();
    let request = DhcpMessage {
        op: 1,
        htype: 1,
        hlen: 6,
        hops: 0,
        xid: 1,
        secs: 0,
        flags: 0,
        ciaddr: zero,
        yiaddr: zero,
        siaddr: zero,
        giaddr: zero,
        chaddr,
        options: vec![DhcpOption { code: USER_CLASS, data: b"iPXE".to_vec() }],
    };
    let url = plan(&request, &test_boot()).unwrap().bootfile;
    let query = url.split('?').nth(1).unwrap();
    let mac = parse_mac_param(query).unwrap();
    assert_eq!(mac, "aa:bb:cc:dd:ee:01");
    assert!(manager_of(&cfg_with_clients(), 0).resolve(&mac).is_some());
}

// --- Requests ---

type Registry = TargetRegistry<ArcStore<dyn BackingStore>, RamOverlay>;

fn get(path: &str, query: Option<&str>, registry: &mut Registry) -> Response {
    let cfg = cfg_with_clients();
    let manager = manager_of(&cfg, 0x5A);
    handle("GET", path, query, &test_boot(), &manager, registry)
}

#[test]
fn get_boot_ipxe_returns_200_with_script() {
    let mut registry = TargetRegistry::new();
    let resp = get("/boot.ipxe", Some("mac=aa:bb:cc:dd:ee:01"), &mut registry);
    assert_eq!(resp.status, 200);
    assert!(resp.plain_text);
    assert!(resp.body.contains("#!ipxe"));
    assert!(resp.body.contains("iqn.2026-06.dev.xboot:pc-01"));
    assert!(resp.body.contains("sanboot iscsi:192.168.1.10"));
}

#[test]
fn missing_mac_returns_400() {
    let mut registry = TargetRegistry::new();
    let resp = get("/boot.ipxe", None, &mut registry);
    assert_eq!(resp.status, 400);
    assert_eq!(resp.body, "Missing 'mac' parameter");
    assert_eq!(get("/boot.ipxe", Some("a=b"), &mut registry).status, 400);
}

#[test]
fn unknown_mac_without_defaults_returns_404() {
    let mut registry = TargetRegistry::new();
    let resp = get("/boot.ipxe", Some("mac=ff:ff:ff:ff:ff:ff"), &mut registry);
    assert_eq!(resp.status, 404);
    assert!(registry.iqns().is_empty());
}

#[test]
fn wrong_path_returns_404() {
    let mut registry = TargetRegistry::new();
    let resp = get("/other", None, &mut registry);
    assert_eq!(resp.status, 404);
    assert_eq!(resp.body, "Not Found");
}

#[test]
fn post_method_returns_404() {
    let cfg = cfg_with_clients();
    let manager = manager_of(&cfg, 0);
    let mut registry = TargetRegistry::new();
    let query = Some("mac=aa:bb:cc:dd:ee:01");
    let resp = handle("POST", "/boot.ipxe", query, &test_boot(), &manager, &mut registry);
    assert_eq!(resp.status, 404);
}

#[test]
fn happy_path_registers_target_in_registry() {
    let mut registry = TargetRegistry::new();
    let resp = get("/boot.ipxe", Some("mac=aa:bb:cc:dd:ee:01"), &mut registry);
    assert_eq!(resp.status, 200);
    // The target was registered.
    assert!(registry.get("iqn.2026-06.dev.xboot:pc-01").is_some());
}

#[test]
fn a_target_has_the_system_disk_and_the_games() {
    let cfg = cfg_with_clients();
    let manager = manager_of(&cfg, 0x5A);
    let client = ClientConfig {
        mac: "x".into(),
        name: None,
        system_disk_id: "img".into(),
        game_disk_ids: vec!["gone".into(), "game1".into()],
        writeback_disk_id: "wb".into(),
    };
    let target = build_target(&manager, &client);
    assert_eq!(target.luns.len(), 2);
    let serials: Vec<String> = target.luns.iter().map(|l| l.as_ref().unwrap().serial.clone()).collect();
    assert_eq!(serials, vec!["iqn.2026-06.dev.xboot:x", "XBOOT0000000001"]);
    // Each unit reads as its master does.
    let mut buf = [0u8; 3];
    target.luns[1].as_ref().unwrap().volume.read_at(100, &mut buf).unwrap();
    assert_eq!(buf, [0x5A; 3]);
}

// --- Raw packets ---

struct Loopback;

impl NetIo for Loopback {
    fn recv(&self, _buf: &mut [u8]) -> Result<usize, NetError> {
        Ok(0)
    }
    fn send(&self, _packet: &[u8]) -> Result<(), NetError> {
        Ok(())
    }
}

#[test]
fn trait_is_object_safe_and_usable() {
    let io: Box<dyn NetIo> = Box::new(Loopback);
    let mut buf = [0u8; 4];
    assert_eq!(io.recv(&mut buf).unwrap(), 0);
    io.send(&[1, 2, 3]).unwrap();
}
