//! Validation of a configuration.
use vstd::prelude::*;
use super::model::{BootConfig, Client, Config, Disk, DiskType};
use crate::net::path;
use crate::text;

verus! {

pub open spec fn is_hex_digit(c: char) -> bool {
    '0' <= c <= '9' || 'a' <= c <= 'f' || 'A' <= c <= 'F'
}

/// `s` is a MAC address: six pairs of hexadecimal digits with colons between
/// them.
pub open spec fn valid_mac(s: Seq<char>) -> bool {
    &&& s.len() == 17
    &&& forall|i: int| 0 <= i < 17 ==> if i % 3 == 2 {
        #[trigger] s[i] == ':'
    } else {
        is_hex_digit(s[i])
    }
}

/// True if `s` is a MAC address of the form `XX:XX:XX:XX:XX:XX` (hex, colon-separated).
pub fn is_valid_mac(s: &str) -> (r: bool)
    ensures
        r == valid_mac(s@),
{
    let c = text::chars_of(s);
    if c.len() != 17 {
        return false;
    }
    let mut i: usize = 0;
    while i < 17
        invariant
            i <= 17,
            c@ == s@,
            c@.len() == 17,
            forall|j: int| 0 <= j < i ==> if j % 3 == 2 {
                #[trigger] c@[j] == ':'
            } else {
                is_hex_digit(c@[j])
            },
        decreases 17 - i,
    {
        let x: char = c[i];
        assert(s@[i as int] == x);
        if i % 3 == 2 {
            if x != ':' {
                return false;
            }
        } else if !(('0' <= x && x <= '9') || ('a' <= x && x <= 'f') || ('A' <= x && x <= 'F')) {
            return false;
        }
        i += 1;
    }
    true
}

/// What is wrong with a configuration.
#[derive(Debug, PartialEq, Eq)]
pub enum ValidationError {
    /// Two disks have this id.
    DuplicateDiskId(String),
    /// `context` refers to a disk that is not defined.
    UnknownDisk { reference: String, context: String },
    /// `context` refers to a disk of another type than it needs.
    WrongDiskType { id: String, expected: DiskType, actual: DiskType, context: String },
    /// A client's MAC address is none.
    InvalidMac(String),
    /// Two clients have this MAC address.
    DuplicateMac(String),
    /// `boot.http_port` is zero.
    HttpPortZero,
    /// `boot.http_script_url` is no HTTP URL.
    InvalidHttpUrl(String),
    /// This field of `boot` is empty.
    EmptyBootField { field: String },
    /// `boot.tftp_root` is no directory.
    TftpRootNotDirectory(String),
    /// This file name leads out of `boot.tftp_root`.
    BootFileOutsideRoot { field: String, value: String },
}

/// A validation error as mathematical values.
pub enum Problem {
    DuplicateDiskId(Seq<char>),
    UnknownDisk { reference: Seq<char>, context: Seq<char> },
    WrongDiskType { id: Seq<char>, expected: DiskType, actual: DiskType, context: Seq<char> },
    InvalidMac(Seq<char>),
    DuplicateMac(Seq<char>),
    HttpPortZero,
    InvalidHttpUrl(Seq<char>),
    EmptyBootField { field: Seq<char> },
    TftpRootNotDirectory(Seq<char>),
    BootFileOutsideRoot { field: Seq<char>, value: Seq<char> },
}

impl View for ValidationError {
    type V = Problem;

    open spec fn view(&self) -> Problem {
        match self {
            ValidationError::DuplicateDiskId(s) => Problem::DuplicateDiskId(s@),
            ValidationError::UnknownDisk { reference, context } => Problem::UnknownDisk {
                reference: reference@,
                context: context@,
            },
            ValidationError::WrongDiskType { id, expected, actual, context } =>
                Problem::WrongDiskType {
                id: id@,
                expected: *expected,
                actual: *actual,
                context: context@,
            },
            ValidationError::InvalidMac(s) => Problem::InvalidMac(s@),
            ValidationError::DuplicateMac(s) => Problem::DuplicateMac(s@),
            ValidationError::HttpPortZero => Problem::HttpPortZero,
            ValidationError::InvalidHttpUrl(s) => Problem::InvalidHttpUrl(s@),
            ValidationError::EmptyBootField { field } => Problem::EmptyBootField { field: field@ },
            ValidationError::TftpRootNotDirectory(s) => Problem::TftpRootNotDirectory(s@),
            ValidationError::BootFileOutsideRoot { field, value } => Problem::BootFileOutsideRoot {
                field: field@,
                value: value@,
            },
        }
    }
}

pub open spec fn type_label(t: DiskType) -> Seq<char> {
    match t {
        DiskType::Image => "Image"@,
        DiskType::Game => "Game"@,
        DiskType::Writeback => "Writeback"@,
    }
}

impl Problem {
    /// The problem in words.
    pub open spec fn text(self) -> Seq<char> {
        match self {
            Problem::DuplicateDiskId(s) => "duplicate disk id: "@ + s,
            Problem::UnknownDisk { reference, context } => "'"@ + reference + "' (referenced by "@
                + context + ") is not a defined disk"@,
            Problem::WrongDiskType { id, expected, actual, context } => "disk '"@ + id + "' is "@
                + type_label(actual) + " but "@ + context + " requires "@ + type_label(expected),
            Problem::InvalidMac(s) => "invalid MAC address: "@ + s,
            Problem::DuplicateMac(s) => "duplicate client MAC address: "@ + s,
            Problem::HttpPortZero => "boot.http_port must not be zero"@,
            Problem::InvalidHttpUrl(s) =>
                "boot.http_script_url must start with http:// or https://: "@ + s,
            Problem::EmptyBootField { field } => "boot."@ + field + " must not be empty"@,
            Problem::TftpRootNotDirectory(s) =>
                "boot.tftp_root does not exist or is not a directory: "@ + s,
            Problem::BootFileOutsideRoot { field, value } => "boot."@ + field + " '"@ + value
                + "' resolves outside tftp_root"@,
        }
    }
}

fn type_text(t: DiskType) -> (s: &'static str)
    ensures
        s@ == type_label(t),
{
    match t {
        DiskType::Image => "Image",
        DiskType::Game => "Game",
        DiskType::Writeback => "Writeback",
    }
}

impl ValidationError {
    /// The error in words.
    pub fn message(&self) -> (m: String)
        ensures
            m@ == self@.text(),
    {
        match self {
            ValidationError::DuplicateDiskId(s) => String::from_str("duplicate disk id: ").concat(
                s.as_str(),
            ),
            ValidationError::UnknownDisk { reference, context } => String::from_str("'").concat(
                reference.as_str(),
            ).concat("' (referenced by ").concat(context.as_str()).concat(
                ") is not a defined disk",
            ),
            ValidationError::WrongDiskType { id, expected, actual, context } => String::from_str(
                "disk '",
            ).concat(id.as_str()).concat("' is ").concat(type_text(*actual)).concat(" but ").concat(
                context.as_str(),
            ).concat(" requires ").concat(type_text(*expected)),
            ValidationError::InvalidMac(s) => String::from_str("invalid MAC address: ").concat(
                s.as_str(),
            ),
            ValidationError::DuplicateMac(s) => String::from_str(
                "duplicate client MAC address: ",
            ).concat(s.as_str()),
            ValidationError::HttpPortZero => String::from_str("boot.http_port must not be zero"),
            ValidationError::InvalidHttpUrl(s) => String::from_str(
                "boot.http_script_url must start with http:// or https://: ",
            ).concat(s.as_str()),
            ValidationError::EmptyBootField { field } => String::from_str("boot.").concat(
                field.as_str(),
            ).concat(" must not be empty"),
            ValidationError::TftpRootNotDirectory(s) => String::from_str(
                "boot.tftp_root does not exist or is not a directory: ",
            ).concat(s.as_str()),
            ValidationError::BootFileOutsideRoot { field, value } => String::from_str(
                "boot.",
            ).concat(field.as_str()).concat(" '").concat(value.as_str()).concat(
                "' resolves outside tftp_root",
            ),
        }
    }
}

/// Collection of validation errors with a readable multi-line message.
#[derive(Debug, PartialEq, Eq)]
pub struct ValidationErrors(pub Vec<ValidationError>);

/// The errors as mathematical values.
pub open spec fn problems(errors: Seq<ValidationError>) -> Seq<Problem> {
    Seq::new(errors.len(), |i: int| errors[i]@)
}

/// The first `k` errors, one to a line, each behind a dash.
pub open spec fn listing(errors: Seq<Problem>, k: int) -> Seq<char>
    decreases k,
{
    if k <= 0 {
        Seq::empty()
    } else {
        listing(errors, k - 1) + (if k > 1 {
            "\n"@
        } else {
            Seq::empty()
        }) + "  - "@ + errors[k - 1].text()
    }
}

impl ValidationErrors {
    /// All errors, one to a line.
    pub fn message(&self) -> (m: String)
        ensures
            m@ == listing(problems(self.0@), self.0@.len() as int),
    {
        let mut m: String = String::new();
        let mut i: usize = 0;
        while i < self.0.len()
            invariant
                i <= self.0@.len(),
                m@ == listing(problems(self.0@), i as int),
            decreases self.0@.len() - i,
        {
            let ghost before = m@;
            if i > 0 {
                m.append("\n");
            }
            m.append("  - ");
            let e = self.0[i].message();
            m.append(e.as_str());
            i += 1;
            assert(m@ =~= listing(problems(self.0@), i as int));
        }
        m
    }
}

/// Some of the first `k` disks has the id `id`.
pub open spec fn has_id(disks: Seq<Disk>, k: int, id: Seq<char>) -> bool {
    exists|j: int| 0 <= j < k && (#[trigger] disks[j]).id@ == id
}

/// The problems among the ids of the first `k` disks.
pub open spec fn disk_problems(disks: Seq<Disk>, k: int) -> Seq<Problem>
    decreases k,
{
    if k <= 0 {
        Seq::empty()
    } else if has_id(disks, k - 1, disks[k - 1].id@) {
        disk_problems(disks, k - 1).push(Problem::DuplicateDiskId(disks[k - 1].id@))
    } else {
        disk_problems(disks, k - 1)
    }
}

/// The last of the first `k` disks with the id `id`.
pub open spec fn disk_with_id(disks: Seq<Disk>, k: int, id: Seq<char>) -> Option<int>
    decreases k,
{
    if k <= 0 {
        None
    } else if disks[k - 1].id@ == id {
        Some(k - 1)
    } else {
        disk_with_id(disks, k - 1, id)
    }
}

/// The problem with a reference, if there is one.
pub open spec fn ref_problems(
    disks: Seq<Disk>,
    reference: Seq<char>,
    expected: DiskType,
    context: Seq<char>,
) -> Seq<Problem> {
    match disk_with_id(disks, disks.len() as int, reference) {
        None => seq![Problem::UnknownDisk { reference, context }],
        Some(i) => if disks[i].disk_type != expected {
            seq![
                Problem::WrongDiskType {
                    id: disks[i].id@,
                    expected,
                    actual: disks[i].disk_type,
                    context,
                },
            ]
        } else {
            Seq::empty()
        },
    }
}

/// The problems with the first `k` game references.
pub open spec fn game_problems(
    disks: Seq<Disk>,
    games: Seq<String>,
    k: int,
    context: Seq<char>,
) -> Seq<Problem>
    decreases k,
{
    if k <= 0 {
        Seq::empty()
    } else {
        game_problems(disks, games, k - 1, context) + ref_problems(
            disks,
            games[k - 1]@,
            DiskType::Game,
            context,
        )
    }
}

/// The problems with a profile: its system, its games, its writeback disk.
pub open spec fn profile_problems(
    disks: Seq<Disk>,
    system: Seq<char>,
    games: Seq<String>,
    writeback: Seq<char>,
    who: Seq<char>,
) -> Seq<Problem> {
    ref_problems(disks, system, DiskType::Image, who + ".system"@) + game_problems(
        disks,
        games,
        games.len() as int,
        who + ".games"@,
    ) + ref_problems(disks, writeback, DiskType::Writeback, who + ".writeback"@)
}

/// Some of the first `k` clients has the MAC address `mac`.
pub open spec fn has_mac(clients: Seq<Client>, k: int, mac: Seq<char>) -> bool {
    exists|j: int| 0 <= j < k && (#[trigger] clients[j]).mac@ == mac
}

/// How a client is called in messages.
pub open spec fn client_label(c: Client) -> Seq<char> {
    "client '"@ + match c.name {
        Some(name) => name@,
        None => c.mac@,
    } + "'"@
}

/// The problem with the MAC address of client `k`.
pub open spec fn mac_problems(clients: Seq<Client>, k: int) -> Seq<Problem> {
    if !valid_mac(clients[k].mac@) {
        seq![Problem::InvalidMac(clients[k].mac@)]
    } else if has_mac(clients, k, clients[k].mac@) {
        seq![Problem::DuplicateMac(clients[k].mac@)]
    } else {
        Seq::empty()
    }
}

/// The problems with the first `k` clients.
pub open spec fn client_problems(disks: Seq<Disk>, clients: Seq<Client>, k: int) -> Seq<Problem>
    decreases k,
{
    if k <= 0 {
        Seq::empty()
    } else {
        let c = clients[k - 1];
        client_problems(disks, clients, k - 1) + mac_problems(clients, k - 1) + profile_problems(
            disks,
            c.system@,
            c.games@,
            c.writeback@,
            client_label(c),
        )
    }
}

/// The problem with a boot file name.
pub open spec fn file_problems(field: Seq<char>, value: Seq<char>) -> Seq<Problem> {
    if value.len() == 0 {
        seq![Problem::EmptyBootField { field }]
    } else if !path::is_relative(vstd::utf8::encode_utf8(value)) {
        seq![Problem::BootFileOutsideRoot { field, value }]
    } else {
        Seq::empty()
    }
}

/// `prefix` starts `s`.
pub open spec fn starts_with(s: Seq<char>, prefix: Seq<char>) -> bool {
    s.len() >= prefix.len() && s.take(prefix.len() as int) == prefix
}

/// The problem with the boot script's URL.
pub open spec fn url_problems(url: Seq<char>) -> Seq<Problem> {
    if url.len() == 0 {
        seq![Problem::EmptyBootField { field: "http_script_url"@ }]
    } else if !starts_with(url, "http://"@) && !starts_with(url, "https://"@) {
        seq![Problem::InvalidHttpUrl(url)]
    } else {
        Seq::empty()
    }
}

/// The problems with a boot section whose `tftp_root` is a directory or not.
pub open spec fn boot_problems(boot: BootConfig, root_is_dir: bool) -> Seq<Problem> {
    (if boot.http_port == 0 {
        seq![Problem::HttpPortZero]
    } else {
        Seq::empty()
    }) + (if root_is_dir {
        Seq::empty()
    } else {
        seq![Problem::TftpRootNotDirectory(boot.tftp_root@)]
    }) + file_problems("bios_filename"@, boot.bios_filename@) + file_problems(
        "uefi_filename"@,
        boot.uefi_filename@,
    ) + url_problems(boot.http_script_url@)
}

/// Everything that is wrong with a configuration, in order.
pub open spec fn all_problems(cfg: Config, root_is_dir: bool) -> Seq<Problem> {
    disk_problems(cfg.disks@, cfg.disks@.len() as int) + client_problems(
        cfg.disks@,
        cfg.clients@,
        cfg.clients@.len() as int,
    ) + (match cfg.client_defaults {
        Some(d) => profile_problems(
            cfg.disks@,
            d.system@,
            d.games@,
            d.writeback@,
            "client_defaults"@,
        ),
        None => Seq::empty(),
    }) + (match cfg.boot {
        Some(b) => boot_problems(b, root_is_dir),
        None => Seq::empty(),
    })
}

/// Append an error.
fn report(errors: &mut Vec<ValidationError>, e: ValidationError)
    ensures
        problems(final(errors)@) == problems(old(errors)@).push(e@),
{
    errors.push(e);
    assert(problems(errors@) =~= problems(old(errors)@).push(e@));
}

/// The last disk with the id `id`.
fn find_disk<'a>(disks: &'a [Disk], id: &str) -> (r: Option<&'a Disk>)
    ensures
        match disk_with_id(disks@, disks@.len() as int, id@) {
            Some(i) => r == Some(&disks@[i]) && disks@[i].id@ == id@,
            None => r is None,
        },
{
    let mut k: usize = disks.len();
    while k > 0
        invariant
            k <= disks@.len(),
            disk_with_id(disks@, disks@.len() as int, id@) == disk_with_id(disks@, k as int, id@),
        decreases k,
    {
        if text::same_text(disks[k - 1].id.as_str(), id) {
            return Some(&disks[k - 1]);
        }
        k -= 1;
    }
    None
}

fn check_ref(
    errors: &mut Vec<ValidationError>,
    disks: &[Disk],
    reference: &str,
    expected: DiskType,
    context: &str,
)
    ensures
        problems(final(errors)@) == problems(old(errors)@) + ref_problems(
            disks@,
            reference@,
            expected,
            context@,
        ),
{
    match find_disk(disks, reference) {
        None => report(
            errors,
            ValidationError::UnknownDisk {
                reference: String::from_str(reference),
                context: String::from_str(context),
            },
        ),
        Some(disk) => if disk.disk_type != expected {
            report(
                errors,
                ValidationError::WrongDiskType {
                    id: disk.id.clone(),
                    expected,
                    actual: disk.disk_type,
                    context: String::from_str(context),
                },
            )
        },
    }
    assert(problems(errors@) =~= problems(old(errors)@) + ref_problems(
        disks@,
        reference@,
        expected,
        context@,
    ));
}

fn check_profile(
    errors: &mut Vec<ValidationError>,
    disks: &[Disk],
    system: &str,
    games: &[String],
    writeback: &str,
    who: &str,
)
    ensures
        problems(final(errors)@) == problems(old(errors)@) + profile_problems(
            disks@,
            system@,
            games@,
            writeback@,
            who@,
        ),
{
    let ghost p0 = problems(errors@);
    let of_system = String::from_str(who).concat(".system");
    check_ref(errors, disks, system, DiskType::Image, of_system.as_str());
    let ghost p1 = problems(errors@);
    let of_games = String::from_str(who).concat(".games");
    let mut i: usize = 0;
    while i < games.len()
        invariant
            i <= games@.len(),
            of_games@ == who@ + ".games"@,
            problems(errors@) == p1 + game_problems(disks@, games@, i as int, who@ + ".games"@),
        decreases games@.len() - i,
    {
        let ghost before = problems(errors@);
        check_ref(errors, disks, games[i].as_str(), DiskType::Game, of_games.as_str());
        i += 1;
        assert(problems(errors@) =~= p1 + game_problems(
            disks@,
            games@,
            i as int,
            who@ + ".games"@,
        ));
    }
    let of_writeback = String::from_str(who).concat(".writeback");
    check_ref(errors, disks, writeback, DiskType::Writeback, of_writeback.as_str());
    assert(problems(errors@) =~= p0 + profile_problems(
        disks@,
        system@,
        games@,
        writeback@,
        who@,
    ));
}

/// Whether `s` starts with `prefix`.
pub fn has_prefix(s: &str, prefix: &str) -> (r: bool)
    ensures
        r == starts_with(s@, prefix@),
{
    let a = text::chars_of(s);
    let b = text::chars_of(prefix);
    if a.len() < b.len() {
        return false;
    }
    assert(a@.subrange(0, b@.len() as int) =~= a@.take(b@.len() as int));
    text::chars_eq(vstd::slice::slice_subrange(a.as_slice(), 0, b.len()), b.as_slice())
}

fn check_file(errors: &mut Vec<ValidationError>, field: &str, value: &str)
    ensures
        problems(final(errors)@) == problems(old(errors)@) + file_problems(field@, value@),
{
    if value.is_empty() {
        report(errors, ValidationError::EmptyBootField { field: String::from_str(field) });
    } else if !path::stays_below(value) {
        report(
            errors,
            ValidationError::BootFileOutsideRoot {
                field: String::from_str(field),
                value: String::from_str(value),
            },
        );
    }
    assert(problems(errors@) =~= problems(old(errors)@) + file_problems(field@, value@));
}

fn check_boot(errors: &mut Vec<ValidationError>, boot: &BootConfig, root_is_dir: bool)
    ensures
        problems(final(errors)@) == problems(old(errors)@) + boot_problems(*boot, root_is_dir),
{
    let ghost p0 = problems(errors@);
    if boot.http_port == 0 {
        report(errors, ValidationError::HttpPortZero);
    }
    if !root_is_dir {
        report(errors, ValidationError::TftpRootNotDirectory(boot.tftp_root.clone()));
    }
    check_file(errors, "bios_filename", boot.bios_filename.as_str());
    check_file(errors, "uefi_filename", boot.uefi_filename.as_str());
    let url = boot.http_script_url.as_str();
    if url.is_empty() {
        report(
            errors,
            ValidationError::EmptyBootField { field: String::from_str("http_script_url") },
        );
    } else if !(has_prefix(url, "http://") || has_prefix(url, "https://")) {
        report(errors, ValidationError::InvalidHttpUrl(String::from_str(url)));
    }
    assert(problems(errors@) =~= p0 + boot_problems(*boot, root_is_dir));
}

/// Whether one of the first `k` disks has the id `id`.
fn id_seen(disks: &[Disk], k: usize, id: &str) -> (r: bool)
    requires
        k <= disks@.len(),
    ensures
        r == has_id(disks@, k as int, id@),
{
    let mut j: usize = 0;
    while j < k
        invariant
            j <= k <= disks@.len(),
            forall|i: int| 0 <= i < j ==> (#[trigger] disks@[i]).id@ != id@,
        decreases k - j,
    {
        if text::same_text(disks[j].id.as_str(), id) {
            return true;
        }
        j += 1;
    }
    false
}

/// Whether one of the first `k` clients has the MAC address `mac`.
fn mac_seen(clients: &[Client], k: usize, mac: &str) -> (r: bool)
    requires
        k <= clients@.len(),
    ensures
        r == has_mac(clients@, k as int, mac@),
{
    let mut j: usize = 0;
    while j < k
        invariant
            j <= k <= clients@.len(),
            forall|i: int| 0 <= i < j ==> (#[trigger] clients@[i]).mac@ != mac@,
        decreases k - j,
    {
        if text::same_text(clients[j].mac.as_str(), mac) {
            return true;
        }
        j += 1;
    }
    false
}

fn check_disks(errors: &mut Vec<ValidationError>, disks: &[Disk])
    ensures
        problems(final(errors)@) == problems(old(errors)@) + disk_problems(
            disks@,
            disks@.len() as int,
        ),
{
    let ghost p0 = problems(errors@);
    let mut i: usize = 0;
    assert(problems(errors@) =~= p0 + disk_problems(disks@, 0));
    while i < disks.len()
        invariant
            i <= disks@.len(),
            problems(errors@) == p0 + disk_problems(disks@, i as int),
        decreases disks@.len() - i,
    {
        if id_seen(disks, i, disks[i].id.as_str()) {
            report(errors, ValidationError::DuplicateDiskId(disks[i].id.clone()));
        }
        i += 1;
        assert(problems(errors@) =~= p0 + disk_problems(disks@, i as int));
    }
}

fn check_clients(errors: &mut Vec<ValidationError>, disks: &[Disk], clients: &[Client])
    ensures
        problems(final(errors)@) == problems(old(errors)@) + client_problems(
            disks@,
            clients@,
            clients@.len() as int,
        ),
{
    let ghost p0 = problems(errors@);
    let mut i: usize = 0;
    assert(problems(errors@) =~= p0 + client_problems(disks@, clients@, 0));
    while i < clients.len()
        invariant
            i <= clients@.len(),
            problems(errors@) == p0 + client_problems(disks@, clients@, i as int),
        decreases clients@.len() - i,
    {
        let c = &clients[i];
        let ghost p1 = problems(errors@);
        if !is_valid_mac(c.mac.as_str()) {
            report(errors, ValidationError::InvalidMac(c.mac.clone()));
        } else if mac_seen(clients, i, c.mac.as_str()) {
            report(errors, ValidationError::DuplicateMac(c.mac.clone()));
        }
        assert(problems(errors@) =~= p1 + mac_problems(clients@, i as int));
        let label = match &c.name {
            Some(name) => name.as_str(),
            None => c.mac.as_str(),
        };
        let who = String::from_str("client '").concat(label).concat("'");
        check_profile(
            errors,
            disks,
            c.system.as_str(),
            c.games.as_slice(),
            c.writeback.as_str(),
            who.as_str(),
        );
        i += 1;
        assert(problems(errors@) =~= p0 + client_problems(disks@, clients@, i as int));
    }
}

/// Validate referential integrity, disk-type/role consistency, and MAC formats.
/// `root_is_dir` says whether the boot section's `tftp_root` is a directory.
pub fn validate(cfg: &Config, root_is_dir: bool) -> (r: Result<(), ValidationErrors>)
    ensures
        r is Ok <==> all_problems(*cfg, root_is_dir).len() == 0,
        r matches Err(e) ==> problems(e.0@) == all_problems(*cfg, root_is_dir),
{
    let mut errors: Vec<ValidationError> = Vec::new();
    check_disks(&mut errors, cfg.disks.as_slice());
    check_clients(&mut errors, cfg.disks.as_slice(), cfg.clients.as_slice());
    match &cfg.client_defaults {
        Some(d) => check_profile(
            &mut errors,
            cfg.disks.as_slice(),
            d.system.as_str(),
            d.games.as_slice(),
            d.writeback.as_str(),
            "client_defaults",
        ),
        None => {},
    }
    match &cfg.boot {
        Some(b) => check_boot(&mut errors, b, root_is_dir),
        None => {},
    }
    assert(problems(errors@) =~= all_problems(*cfg, root_is_dir));
    if errors.len() == 0 {
        Ok(())
    } else {
        Err(ValidationErrors(errors))
    }
}

} // verus!
