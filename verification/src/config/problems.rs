//! Which problems of a configuration are reported.
use vstd::prelude::*;
use super::laws;
use super::model::{BootConfig, Client, Config, Disk, DiskType};
use super::validate;
use super::validate::Problem;
use crate::net::path;

verus! {

/// `p` is the problem with a reference: no disk has the id, or the last that has
/// it is of another type.
pub open spec fn is_ref_problem(
    disks: Seq<Disk>,
    reference: Seq<char>,
    expected: DiskType,
    context: Seq<char>,
    p: Problem,
) -> bool {
    ||| (forall|j: int| 0 <= j < disks.len() ==> (#[trigger] disks[j]).id@ != reference) && p
        == Problem::UnknownDisk { reference, context }
    ||| exists|i: int| #[trigger]
        laws::is_last_with(disks, i, reference) && disks[i].disk_type != expected && p
            == (Problem::WrongDiskType {
            id: reference,
            expected,
            actual: disks[i].disk_type,
            context,
        })
}

/// `p` is the problem with one of the first `k` games.
pub open spec fn is_game_problem(
    disks: Seq<Disk>,
    games: Seq<String>,
    k: int,
    context: Seq<char>,
    p: Problem,
) -> bool {
    exists|g: int|
        0 <= g < k && is_ref_problem(disks, (#[trigger] games[g])@, DiskType::Game, context, p)
}

/// `p` is the problem with the system, a game or the writeback disk of `who`.
pub open spec fn is_profile_problem(
    disks: Seq<Disk>,
    system: Seq<char>,
    games: Seq<String>,
    writeback: Seq<char>,
    who: Seq<char>,
    p: Problem,
) -> bool {
    ||| is_ref_problem(disks, system, DiskType::Image, who + ".system"@, p)
    ||| is_game_problem(disks, games, games.len() as int, who + ".games"@, p)
    ||| is_ref_problem(disks, writeback, DiskType::Writeback, who + ".writeback"@, p)
}

/// What a client is called: its name, or else its address.
pub open spec fn called(c: Client) -> Seq<char> {
    "client '"@ + (match c.name {
        Some(name) => name@,
        None => c.mac@,
    }) + "'"@
}

/// Some client before `k` has the address of client `k`.
pub open spec fn is_repeated(clients: Seq<Client>, k: int) -> bool {
    exists|j: int| 0 <= j < k && (#[trigger] clients[j]).mac@ == clients[k].mac@
}

/// `p` is a problem with client `k`: its address is none, or another's, or one of
/// its disks is a problem.
pub open spec fn is_client_problem(
    disks: Seq<Disk>,
    clients: Seq<Client>,
    k: int,
    p: Problem,
) -> bool {
    let c = clients[k];
    ||| !laws::is_mac(c.mac@) && p == Problem::InvalidMac(c.mac@)
    ||| laws::is_mac(c.mac@) && is_repeated(clients, k) && p == Problem::DuplicateMac(c.mac@)
    ||| is_profile_problem(disks, c.system@, c.games@, c.writeback@, called(c), p)
}

/// `p` is a problem with one of the first `k` clients.
pub open spec fn is_problem_of_clients(
    disks: Seq<Disk>,
    clients: Seq<Client>,
    k: int,
    p: Problem,
) -> bool {
    exists|c: int| 0 <= c < k && #[trigger] is_client_problem(disks, clients, c, p)
}

/// `p` is the problem that a disk among the first `k` has the id of an earlier
/// one.
pub open spec fn is_disk_problem(disks: Seq<Disk>, k: int, p: Problem) -> bool {
    exists|i: int, j: int|
        #![trigger disks[i], disks[j]]
        0 <= i < j < k && disks[i].id@ == disks[j].id@ && p == Problem::DuplicateDiskId(
            disks[j].id@,
        )
}

/// `p` is the problem with the boot file `value`.
pub open spec fn is_file_problem(field: Seq<char>, value: Seq<char>, p: Problem) -> bool {
    ||| value.len() == 0 && p == Problem::EmptyBootField { field }
    ||| value.len() > 0 && !path::is_relative(vstd::utf8::encode_utf8(value)) && p
        == Problem::BootFileOutsideRoot { field, value }
}

/// `p` is a problem with a boot section.
pub open spec fn is_boot_problem(b: BootConfig, root_is_dir: bool, p: Problem) -> bool {
    let url = b.http_script_url@;
    ||| b.http_port == 0 && p == Problem::HttpPortZero
    ||| !root_is_dir && p == Problem::TftpRootNotDirectory(b.tftp_root@)
    ||| is_file_problem("bios_filename"@, b.bios_filename@, p)
    ||| is_file_problem("uefi_filename"@, b.uefi_filename@, p)
    ||| url.len() == 0 && p == Problem::EmptyBootField { field: "http_script_url"@ }
    ||| url.len() > 0 && !(url.len() >= 7 && url.take(7) == "http://"@) && !(url.len() >= 8
        && url.take(8) == "https://"@) && p == Problem::InvalidHttpUrl(url)
}

/// `p` is a problem with a configuration.
pub open spec fn is_problem(cfg: Config, root_is_dir: bool, p: Problem) -> bool {
    ||| is_disk_problem(cfg.disks@, cfg.disks@.len() as int, p)
    ||| is_problem_of_clients(cfg.disks@, cfg.clients@, cfg.clients@.len() as int, p)
    ||| cfg.client_defaults matches Some(d) && is_profile_problem(
        cfg.disks@,
        d.system@,
        d.games@,
        d.writeback@,
        "client_defaults"@,
        p,
    )
    ||| cfg.boot matches Some(b) && is_boot_problem(b, root_is_dir, p)
}

proof fn in_either(a: Seq<Problem>, b: Seq<Problem>, p: Problem)
    ensures
        (a + b).contains(p) == (a.contains(p) || b.contains(p)),
{
    let all = a + b;
    if a.contains(p) {
        let i = choose|i: int| 0 <= i < a.len() && a[i] == p;
        assert(all[i] == p);
    }
    if b.contains(p) {
        let i = choose|i: int| 0 <= i < b.len() && b[i] == p;
        assert(all[a.len() + i] == p);
    }
    if all.contains(p) {
        let i = choose|i: int| 0 <= i < all.len() && all[i] == p;
        if i < a.len() {
            assert(a[i] == p);
        } else {
            assert(b[i - a.len()] == p);
        }
    }
}

proof fn one_problem(q: Problem, p: Problem)
    ensures
        seq![q].contains(p) == (p == q),
        !Seq::<Problem>::empty().contains(p),
{
    assert(seq![q][0] == q);
}

proof fn reference_is_told(
    disks: Seq<Disk>,
    reference: Seq<char>,
    expected: DiskType,
    context: Seq<char>,
    p: Problem,
)
    ensures
        validate::ref_problems(disks, reference, expected, context).contains(p) == is_ref_problem(
            disks,
            reference,
            expected,
            context,
            p,
        ),
{
    let n = disks.len() as int;
    match validate::disk_with_id(disks, n, reference) {
        Some(k) => {
            laws::found_is_last(disks, n, reference);
            assert(laws::is_last_with(disks, k, reference));
            assert forall|i: int| #[trigger]
                laws::is_last_with(disks, i, reference) implies i == k by {
                laws::one_is_last(disks, i, k, reference);
            }
            one_problem(
                Problem::WrongDiskType {
                    id: disks[k].id@,
                    expected,
                    actual: disks[k].disk_type,
                    context,
                },
                p,
            );
        },
        None => {
            assert forall|j: int| 0 <= j < disks.len() implies (#[trigger] disks[j]).id@
                != reference by {
                laws::none_is_found(disks, n, reference, j);
            }
            one_problem(Problem::UnknownDisk { reference, context }, p);
        },
    }
}

proof fn games_are_told(
    disks: Seq<Disk>,
    games: Seq<String>,
    k: int,
    context: Seq<char>,
    p: Problem,
)
    requires
        0 <= k <= games.len(),
    ensures
        validate::game_problems(disks, games, k, context).contains(p) == is_game_problem(
            disks,
            games,
            k,
            context,
            p,
        ),
    decreases k,
{
    if k > 0 {
        games_are_told(disks, games, k - 1, context, p);
        reference_is_told(disks, games[k - 1]@, DiskType::Game, context, p);
        in_either(
            validate::game_problems(disks, games, k - 1, context),
            validate::ref_problems(disks, games[k - 1]@, DiskType::Game, context),
            p,
        );
        if is_game_problem(disks, games, k - 1, context, p) {
            let g = choose|g: int|
                0 <= g < k - 1 && is_ref_problem(
                    disks,
                    (#[trigger] games[g])@,
                    DiskType::Game,
                    context,
                    p,
                );
            assert(is_ref_problem(disks, games[g]@, DiskType::Game, context, p));
        }
    }
}

proof fn profile_is_told(
    disks: Seq<Disk>,
    system: Seq<char>,
    games: Seq<String>,
    writeback: Seq<char>,
    who: Seq<char>,
    p: Problem,
)
    ensures
        validate::profile_problems(disks, system, games, writeback, who).contains(p)
            == is_profile_problem(disks, system, games, writeback, who, p),
{
    let a = validate::ref_problems(disks, system, DiskType::Image, who + ".system"@);
    let b = validate::game_problems(disks, games, games.len() as int, who + ".games"@);
    let c = validate::ref_problems(disks, writeback, DiskType::Writeback, who + ".writeback"@);
    reference_is_told(disks, system, DiskType::Image, who + ".system"@, p);
    games_are_told(disks, games, games.len() as int, who + ".games"@, p);
    reference_is_told(disks, writeback, DiskType::Writeback, who + ".writeback"@, p);
    in_either(a, b, p);
    in_either(a + b, c, p);
}

proof fn disks_are_told(disks: Seq<Disk>, k: int, p: Problem)
    requires
        0 <= k <= disks.len(),
    ensures
        validate::disk_problems(disks, k).contains(p) == is_disk_problem(disks, k, p),
    decreases k,
{
    if k > 0 {
        disks_are_told(disks, k - 1, p);
        let before = validate::disk_problems(disks, k - 1);
        let id = disks[k - 1].id@;
        let q = Problem::DuplicateDiskId(id);
        one_problem(q, p);
        in_either(before, seq![q], p);
        assert(before.push(q) =~= before + seq![q]);
        if validate::has_id(disks, k - 1, id) {
            let i = choose|i: int| 0 <= i < k - 1 && (#[trigger] disks[i]).id@ == id;
            assert(disks[i].id@ == disks[k - 1].id@);
        }
        if is_disk_problem(disks, k - 1, p) {
            let (i, j) = choose|i: int, j: int|
                #![trigger disks[i], disks[j]]
                0 <= i < j < k - 1 && disks[i].id@ == disks[j].id@ && p
                    == Problem::DuplicateDiskId(disks[j].id@);
            assert(disks[i].id@ == disks[j].id@);
        }
        if is_disk_problem(disks, k, p) {
            let (i, j) = choose|i: int, j: int|
                #![trigger disks[i], disks[j]]
                0 <= i < j < k && disks[i].id@ == disks[j].id@ && p == Problem::DuplicateDiskId(
                    disks[j].id@,
                );
            if j == k - 1 {
                assert(disks[i].id@ == id);
            } else {
                assert(is_disk_problem(disks, k - 1, p)) by {
                    assert(disks[i].id@ == disks[j].id@);
                }
            }
        }
    } else {
        one_problem(p, p);
    }
}

proof fn client_is_told(disks: Seq<Disk>, clients: Seq<Client>, k: int, p: Problem)
    requires
        0 <= k < clients.len(),
    ensures
        ({
            let c = clients[k];
            (validate::mac_problems(clients, k) + validate::profile_problems(
                disks,
                c.system@,
                c.games@,
                c.writeback@,
                validate::client_label(c),
            )).contains(p) == is_client_problem(disks, clients, k, p)
        }),
{
    let c = clients[k];
    assert(validate::client_label(c) =~= called(c));
    laws::mac_forms(c.mac@);
    profile_is_told(disks, c.system@, c.games@, c.writeback@, called(c), p);
    one_problem(Problem::InvalidMac(c.mac@), p);
    one_problem(Problem::DuplicateMac(c.mac@), p);
    assert(validate::has_mac(clients, k, c.mac@) == is_repeated(clients, k));
    in_either(
        validate::mac_problems(clients, k),
        validate::profile_problems(
            disks,
            c.system@,
            c.games@,
            c.writeback@,
            validate::client_label(c),
        ),
        p,
    );
}

proof fn clients_are_told(disks: Seq<Disk>, clients: Seq<Client>, k: int, p: Problem)
    requires
        0 <= k <= clients.len(),
    ensures
        validate::client_problems(disks, clients, k).contains(p) == is_problem_of_clients(
            disks,
            clients,
            k,
            p,
        ),
    decreases k,
{
    if k > 0 {
        clients_are_told(disks, clients, k - 1, p);
        client_is_told(disks, clients, k - 1, p);
        let c = clients[k - 1];
        let before = validate::client_problems(disks, clients, k - 1);
        let a = validate::mac_problems(clients, k - 1);
        let b = validate::profile_problems(
            disks,
            c.system@,
            c.games@,
            c.writeback@,
            validate::client_label(c),
        );
        in_either(before, a + b, p);
        assert(before + a + b =~= before + (a + b));
        if is_problem_of_clients(disks, clients, k - 1, p) {
            let i = choose|i: int|
                0 <= i < k - 1 && #[trigger] is_client_problem(disks, clients, i, p);
            assert(is_client_problem(disks, clients, i, p));
        }
    } else {
        one_problem(p, p);
    }
}

proof fn file_is_told(field: Seq<char>, value: Seq<char>, p: Problem)
    ensures
        validate::file_problems(field, value).contains(p) == is_file_problem(field, value, p),
{
    one_problem(Problem::EmptyBootField { field }, p);
    one_problem(Problem::BootFileOutsideRoot { field, value }, p);
}

proof fn boot_is_told(b: BootConfig, root_is_dir: bool, p: Problem)
    ensures
        validate::boot_problems(b, root_is_dir).contains(p) == is_boot_problem(b, root_is_dir, p),
{
    let none = Seq::<Problem>::empty();
    let port = if b.http_port == 0 {
        seq![Problem::HttpPortZero]
    } else {
        none
    };
    let root = if root_is_dir {
        none
    } else {
        seq![Problem::TftpRootNotDirectory(b.tftp_root@)]
    };
    let bios = validate::file_problems("bios_filename"@, b.bios_filename@);
    let uefi = validate::file_problems("uefi_filename"@, b.uefi_filename@);
    let url = validate::url_problems(b.http_script_url@);
    one_problem(Problem::HttpPortZero, p);
    one_problem(Problem::TftpRootNotDirectory(b.tftp_root@), p);
    one_problem(Problem::EmptyBootField { field: "http_script_url"@ }, p);
    one_problem(Problem::InvalidHttpUrl(b.http_script_url@), p);
    file_is_told("bios_filename"@, b.bios_filename@, p);
    file_is_told("uefi_filename"@, b.uefi_filename@, p);
    reveal_strlit("http://");
    reveal_strlit("https://");
    in_either(port, root, p);
    in_either(port + root, bios, p);
    in_either(port + root + bios, uefi, p);
    in_either(port + root + bios + uefi, url, p);
}

/// Every problem of a configuration is reported, and nothing else is: one does
/// not hide another.
pub proof fn every_problem_is_reported(cfg: Config, root_is_dir: bool, p: Problem)
    ensures
        validate::all_problems(cfg, root_is_dir).contains(p) <==> is_problem(cfg, root_is_dir, p),
{
    let none = Seq::<Problem>::empty();
    let disks = validate::disk_problems(cfg.disks@, cfg.disks@.len() as int);
    let clients = validate::client_problems(
        cfg.disks@,
        cfg.clients@,
        cfg.clients@.len() as int,
    );
    let defaults = match cfg.client_defaults {
        Some(d) => validate::profile_problems(
            cfg.disks@,
            d.system@,
            d.games@,
            d.writeback@,
            "client_defaults"@,
        ),
        None => none,
    };
    let boot = match cfg.boot {
        Some(b) => validate::boot_problems(b, root_is_dir),
        None => none,
    };
    one_problem(p, p);
    disks_are_told(cfg.disks@, cfg.disks@.len() as int, p);
    clients_are_told(cfg.disks@, cfg.clients@, cfg.clients@.len() as int, p);
    if let Some(d) = cfg.client_defaults {
        profile_is_told(cfg.disks@, d.system@, d.games@, d.writeback@, "client_defaults"@, p);
    }
    if let Some(b) = cfg.boot {
        boot_is_told(b, root_is_dir, p);
    }
    in_either(disks, clients, p);
    in_either(disks + clients, defaults, p);
    in_either(disks + clients + defaults, boot, p);
}

} // verus!
