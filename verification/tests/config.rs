//! Configurations and their validation.
use xboot_core::config::{
    is_valid_mac, parse_size, validate, BootConfig, ByteSize, Client, ClientDefaults, Config, Disk,
    DiskMode, DiskType, SizeParseError, ValidationError, ValidationErrors, WritebackPolicy,
};
use xboot_core::net::addr::{IpAddr, Ipv4Addr};

// --- TOML into a configuration ---

fn text(t: &toml::Table, key: &str) -> String {
    t[key].as_str().unwrap().to_string()
}

fn games(t: &toml::Table) -> Vec<String> {
    match t.get("games") {
        Some(list) => {
            list.as_array().unwrap().iter().map(|g| g.as_str().unwrap().to_string()).collect()
        }
        None => vec![],
    }
}

fn v4(s: &str) -> Ipv4Addr {
    let o: Vec<u8> = s.split('.').map(|p| p.parse().unwrap()).collect();
    Ipv4Addr::new(o[0], o[1], o[2], o[3])
}

fn tables(t: &toml::Table, key: &str) -> Vec<toml::Table> {
    match t.get(key) {
        Some(list) => list.as_array().unwrap().iter().map(|x| x.as_table().unwrap().clone()).collect(),
        None => vec![],
    }
}

fn parse(s: &str) -> Config {
    let t: toml::Table = s.parse().unwrap();
    let disks = tables(&t, "disk")
        .iter()
        .map(|d| Disk {
            id: text(d, "id"),
            disk_type: match d["type"].as_str().unwrap() {
                "image" => DiskType::Image,
                "game" => DiskType::Game,
                "writeback" => DiskType::Writeback,
                other => panic!("{other}"),
            },
            backing: text(d, "backing"),
            mode: d.get("mode").map(|m| match m.as_str().unwrap() {
                "readonly" => DiskMode::Readonly,
                "readwrite" => DiskMode::Readwrite,
                other => panic!("{other}"),
            }),
            ram_cache: ByteSize(parse_size(d["ram_cache"].as_str().unwrap()).unwrap()),
            policy: d.get("policy").map(|p| match p.as_str().unwrap() {
                "volatile" => WritebackPolicy::Volatile,
                other => panic!("{other}"),
            }),
        })
        .collect();
    let clients = tables(&t, "client")
        .iter()
        .map(|c| Client {
            mac: text(c, "mac"),
            name: c.get("name").map(|n| n.as_str().unwrap().to_string()),
            system: text(c, "system"),
            games: games(c),
            writeback: text(c, "writeback"),
        })
        .collect();
    let client_defaults = t.get("client_defaults").map(|d| {
        let d = d.as_table().unwrap();
        ClientDefaults { system: text(d, "system"), games: games(d), writeback: text(d, "writeback") }
    });
    let boot = t.get("boot").map(|b| {
        let b = b.as_table().unwrap();
        BootConfig {
            server_ip: v4(b["server_ip"].as_str().unwrap()),
            bind: IpAddr::V4(v4(b["bind"].as_str().unwrap())),
            http_bind: IpAddr::V4(Ipv4Addr::unspecified()),
            http_port: b.get("http_port").map_or(80, |p| p.as_integer().unwrap() as u16),
            iscsi_port: 3260,
            tftp_root: text(b, "tftp_root"),
            bios_filename: text(b, "bios_filename"),
            uefi_filename: text(b, "uefi_filename"),
            http_script_url: text(b, "http_script_url"),
        }
    });
    Config { disks, clients, client_defaults, boot }
}

/// Validate, with a `tftp_root` that is a directory.
fn check(cfg: &Config) -> Result<(), ValidationErrors> {
    validate(cfg, true)
}

const VALID: &str = r#"
[[disk]]
id = "img"
type = "image"
backing = "x"
ram_cache = "1GB"
[[disk]]
id = "g1"
type = "game"
backing = "y"
ram_cache = "1GB"
[[disk]]
id = "wb"
type = "writeback"
backing = "z"
ram_cache = "1GB"
policy = "volatile"
[[client]]
mac = "AA:BB:CC:DD:EE:01"
system = "img"
games = ["g1"]
writeback = "wb"
"#;

// --- Sizes ---

#[test]
fn parses_units() {
    assert_eq!(parse_size("512").unwrap(), 512);
    assert_eq!(parse_size("1KB").unwrap(), 1024);
    assert_eq!(parse_size("8GB").unwrap(), 8 * 1024 * 1024 * 1024);
    assert_eq!(parse_size("2tb").unwrap(), 2 * 1024u64.pow(4));
    assert_eq!(parse_size(" 4MB ").unwrap(), 4 * 1024 * 1024);
}

#[test]
fn rejects_garbage() {
    assert!(parse_size("abc").is_err());
    assert!(parse_size("").is_err());
    assert!(parse_size("1.5GB").is_err());
}

#[test]
fn sizes_that_do_not_fit_are_told_apart() {
    assert_eq!(parse_size("18446744073709551615").unwrap(), u64::MAX);
    assert_eq!(parse_size("16777216TB"), Err(SizeParseError::Overflow));
    assert_eq!(parse_size("16777216TB").unwrap_err().message(), "size value overflows u64");
    assert_eq!(parse_size("xGB").unwrap_err().message(), "invalid size value: 'xGB'");
}

// --- Validation ---

#[test]
fn validates_mac() {
    assert!(is_valid_mac("AA:BB:CC:DD:EE:01"));
    assert!(!is_valid_mac("AABBCCDDEEFF"));
    assert!(!is_valid_mac("ZZ:BB:CC:DD:EE:01"));
}

#[test]
fn valid_config_passes() {
    assert!(check(&parse(VALID)).is_ok());
}

#[test]
fn detects_unknown_disk() {
    let cfg = parse(
        r#"
[[disk]]
id = "img"
type = "image"
backing = "x"
ram_cache = "1GB"
[[client]]
mac = "AA:BB:CC:DD:EE:01"
system = "img"
writeback = "missing-wb"
"#,
    );
    let errs = check(&cfg).unwrap_err().0;
    assert!(errs.iter().any(|e| matches!(
        e,
        ValidationError::UnknownDisk { reference, .. } if reference == "missing-wb"
    )));
}

#[test]
fn detects_wrong_disk_type() {
    let cfg = parse(
        r#"
[[disk]]
id = "wb"
type = "writeback"
backing = "z"
ram_cache = "1GB"
policy = "volatile"
[[client]]
mac = "AA:BB:CC:DD:EE:01"
system = "wb"
writeback = "wb"
"#,
    );
    let errs = check(&cfg).unwrap_err().0;
    assert!(errs.iter().any(|e| matches!(
        e,
        ValidationError::WrongDiskType {
            expected: DiskType::Image,
            ..
        }
    )));
}

#[test]
fn detects_duplicate_disk_id() {
    let cfg = parse(
        r#"
[[disk]]
id = "a"
type = "image"
backing = "x"
ram_cache = "1GB"
[[disk]]
id = "a"
type = "game"
backing = "y"
ram_cache = "1GB"
"#,
    );
    let errs = check(&cfg).unwrap_err().0;
    assert!(errs.contains(&ValidationError::DuplicateDiskId("a".to_string())));
}

#[test]
fn detects_invalid_mac() {
    let cfg = parse(
        r#"
[[disk]]
id = "img"
type = "image"
backing = "x"
ram_cache = "1GB"
[[disk]]
id = "wb"
type = "writeback"
backing = "z"
ram_cache = "1GB"
policy = "volatile"
[[client]]
mac = "NOT-A-MAC"
system = "img"
writeback = "wb"
"#,
    );
    let errs = check(&cfg).unwrap_err().0;
    assert!(errs
        .iter()
        .any(|e| matches!(e, ValidationError::InvalidMac(m) if m == "NOT-A-MAC")));
}

#[test]
fn detects_duplicate_mac() {
    let cfg = parse(
        r#"
[[disk]]
id = "img"
type = "image"
backing = "x"
ram_cache = "1GB"
[[disk]]
id = "wb"
type = "writeback"
backing = "z"
ram_cache = "1GB"
policy = "volatile"
[[client]]
mac = "AA:BB:CC:DD:EE:01"
system = "img"
writeback = "wb"
[[client]]
mac = "AA:BB:CC:DD:EE:01"
system = "img"
writeback = "wb"
"#,
    );
    let errs = check(&cfg).unwrap_err().0;
    assert!(errs.contains(&ValidationError::DuplicateMac("AA:BB:CC:DD:EE:01".to_string())));
}

#[test]
fn validates_client_defaults() {
    let cfg = parse(
        r#"
[client_defaults]
system = "ghost"
writeback = "ghost"
"#,
    );
    assert!(check(&cfg).is_err());
}

#[test]
fn accepts_valid_boot_section() {
    let cfg = parse(
        r#"
[boot]
server_ip       = "192.168.1.10"
bind            = "0.0.0.0"
tftp_root       = "/srv/xboot/tftp"
bios_filename   = "undionly.kpxe"
uefi_filename   = "ipxe.efi"
http_script_url = "http://192.168.1.10/boot.ipxe"
"#,
    );
    assert!(check(&cfg).is_ok());
}

#[test]
fn rejects_non_http_boot_url() {
    let cfg = parse(
        r#"
[boot]
server_ip       = "192.168.1.10"
bind            = "0.0.0.0"
tftp_root       = "/srv/xboot/tftp"
bios_filename   = "undionly.kpxe"
uefi_filename   = "ipxe.efi"
http_script_url = "tftp://192.168.1.10/boot.ipxe"
"#,
    );
    let errs = check(&cfg).unwrap_err().0;
    assert!(errs
        .iter()
        .any(|e| matches!(e, ValidationError::InvalidHttpUrl(u) if u.starts_with("tftp://"))));
}

#[test]
fn rejects_empty_uefi_filename() {
    let cfg = parse(
        r#"
[boot]
server_ip       = "192.168.1.10"
bind            = "0.0.0.0"
tftp_root       = "/srv/xboot/tftp"
bios_filename   = "undionly.kpxe"
uefi_filename   = ""
http_script_url = "http://192.168.1.10/boot.ipxe"
"#,
    );
    let errs = check(&cfg).unwrap_err().0;
    assert!(errs
        .iter()
        .any(|e| matches!(e, ValidationError::EmptyBootField { field } if field == "uefi_filename")));
}

#[test]
fn rejects_empty_boot_filename() {
    let cfg = parse(
        r#"
[boot]
server_ip       = "192.168.1.10"
bind            = "0.0.0.0"
tftp_root       = "/srv/xboot/tftp"
bios_filename   = ""
uefi_filename   = "ipxe.efi"
http_script_url = "http://192.168.1.10/boot.ipxe"
"#,
    );
    let errs = check(&cfg).unwrap_err().0;
    assert!(errs
        .iter()
        .any(|e| matches!(e, ValidationError::EmptyBootField { field } if field == "bios_filename")));
}

#[test]
fn rejects_zero_http_port() {
    let cfg = parse(
        r#"
[boot]
server_ip       = "192.168.1.10"
bind            = "0.0.0.0"
http_port       = 0
tftp_root       = "/srv/xboot/tftp"
bios_filename   = "undionly.kpxe"
uefi_filename   = "ipxe.efi"
http_script_url = "http://192.168.1.10/boot.ipxe"
"#,
    );
    let errs = check(&cfg).unwrap_err().0;
    assert!(errs.iter().any(|e| matches!(e, ValidationError::HttpPortZero)));
}

#[test]
fn rejects_missing_tftp_root() {
    let cfg = parse(
        r#"
[boot]
server_ip       = "192.168.1.10"
bind            = "0.0.0.0"
tftp_root       = "/nonexistent/path/that/is/not/a/dir"
bios_filename   = "undionly.kpxe"
uefi_filename   = "ipxe.efi"
http_script_url = "http://192.168.1.10/boot.ipxe"
"#,
    );
    let errs = validate(&cfg, false).unwrap_err().0;
    assert!(errs.iter().any(|e| matches!(e, ValidationError::TftpRootNotDirectory(_))));
}

#[test]
fn rejects_parent_traversal_bios_filename() {
    let cfg = parse(
        r#"
[boot]
server_ip       = "192.168.1.10"
bind            = "0.0.0.0"
tftp_root       = "/srv/xboot/tftp"
bios_filename   = "../secret"
uefi_filename   = "ipxe.efi"
http_script_url = "http://192.168.1.10/boot.ipxe"
"#,
    );
    let errs = check(&cfg).unwrap_err().0;
    assert!(errs.iter().any(|e| matches!(
        e,
        ValidationError::BootFileOutsideRoot { field, .. } if field == "bios_filename"
    )));
}

#[test]
fn rejects_absolute_bios_filename() {
    let cfg = parse(
        r#"
[boot]
server_ip       = "192.168.1.10"
bind            = "0.0.0.0"
tftp_root       = "/srv/xboot/tftp"
bios_filename   = "/etc/passwd"
uefi_filename   = "ipxe.efi"
http_script_url = "http://192.168.1.10/boot.ipxe"
"#,
    );
    let errs = check(&cfg).unwrap_err().0;
    assert!(errs.iter().any(|e| matches!(
        e,
        ValidationError::BootFileOutsideRoot { field, .. } if field == "bios_filename"
    )));
}

#[test]
fn accepts_valid_tftp_root() {
    let cfg = parse(
        r#"
[boot]
server_ip       = "192.168.1.10"
bind            = "0.0.0.0"
tftp_root       = "/srv/xboot/tftp"
bios_filename   = "undionly.kpxe"
uefi_filename   = "ipxe.efi"
http_script_url = "http://192.168.1.10/boot.ipxe"
"#,
    );
    assert!(check(&cfg).is_ok());
}

/// What is invalid is reported all at once, in the order of the file.
#[test]
fn all_problems_are_reported_in_order() {
    let cfg = parse(
        r#"
[[disk]]
id = "a"
type = "writeback"
backing = "x"
ram_cache = "1GB"
[[disk]]
id = "a"
type = "writeback"
backing = "y"
ram_cache = "1GB"
[[client]]
mac = "zz"
name = "PC"
system = "a"
games = ["b"]
writeback = "a"
"#,
    );
    let errors = check(&cfg).unwrap_err();
    assert_eq!(
        errors.0,
        vec![
            ValidationError::DuplicateDiskId("a".to_string()),
            ValidationError::InvalidMac("zz".to_string()),
            ValidationError::WrongDiskType {
                id: "a".to_string(),
                expected: DiskType::Image,
                actual: DiskType::Writeback,
                context: "client 'PC'.system".to_string(),
            },
            ValidationError::UnknownDisk {
                reference: "b".to_string(),
                context: "client 'PC'.games".to_string(),
            },
        ]
    );
    assert_eq!(errors.message().lines().count(), 4);
}
