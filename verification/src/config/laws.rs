//! Which configurations are accepted, and which sizes.
use vstd::prelude::*;
use super::model::{BootConfig, Config, Disk, DiskType};
use super::size;
use super::validate;
use crate::net::path;
use crate::text;

verus! {

/// Disk `i` is the last with the id `id`.
pub open spec fn is_last_with(disks: Seq<Disk>, i: int, id: Seq<char>) -> bool {
    &&& 0 <= i < disks.len()
    &&& disks[i].id@ == id
    &&& forall|j: int| i < j < disks.len() ==> (#[trigger] disks[j]).id@ != id
}

/// The last disk with the id `id` is one of the type `kind`.
pub open spec fn refers_to(disks: Seq<Disk>, id: Seq<char>, kind: DiskType) -> bool {
    exists|i: int| #[trigger] is_last_with(disks, i, id) && disks[i].disk_type == kind
}

/// A system, games and a writeback disk are of their types.
pub open spec fn refers_well(
    disks: Seq<Disk>,
    system: Seq<char>,
    games: Seq<String>,
    writeback: Seq<char>,
) -> bool {
    &&& refers_to(disks, system, DiskType::Image)
    &&& are_games(disks, games, games.len() as int)
    &&& refers_to(disks, writeback, DiskType::Writeback)
}

/// `s` is six pairs of hexadecimal digits with colons between them.
pub open spec fn is_mac(s: Seq<char>) -> bool {
    &&& s.len() == 17
    &&& forall|i: int|
        #![trigger s[i]]
        0 <= i < 17 ==> if i == 2 || i == 5 || i == 8 || i == 11 || i == 14 {
            s[i] as int == 0x3a
        } else {
            ||| 0x30 <= s[i] as int <= 0x39
            ||| 0x41 <= s[i] as int <= 0x46
            ||| 0x61 <= s[i] as int <= 0x66
        }
}

/// A boot section is sound: a port, a root that is a directory, file names that
/// stay below it, and a URL of HTTP.
pub open spec fn is_sound_boot(b: BootConfig, root_is_dir: bool) -> bool {
    let url = b.http_script_url@;
    &&& b.http_port != 0
    &&& root_is_dir
    &&& b.bios_filename@.len() > 0
    &&& path::is_relative(vstd::utf8::encode_utf8(b.bios_filename@))
    &&& b.uefi_filename@.len() > 0
    &&& path::is_relative(vstd::utf8::encode_utf8(b.uefi_filename@))
    &&& url.len() >= 7 && url.take(7) == "http://"@ || url.len() >= 8 && url.take(8) == "https://"@
}

/// A configuration is sound: no two disks share an id, every client has a MAC
/// address of its own, every reference is to a disk of the right type, and the
/// boot section is sound.
pub open spec fn is_sound(cfg: Config, root_is_dir: bool) -> bool {
    let disks = cfg.disks@;
    &&& ids_differ(disks, disks.len() as int)
    &&& are_sound_clients(cfg, cfg.clients@.len() as int)
    &&& macs_differ(cfg, cfg.clients@.len() as int)
    &&& cfg.client_defaults matches Some(d) ==> refers_well(
        disks,
        d.system@,
        d.games@,
        d.writeback@,
    )
    &&& cfg.boot matches Some(b) ==> is_sound_boot(b, root_is_dir)
}

pub(crate) proof fn mac_forms(s: Seq<char>)
    ensures
        validate::valid_mac(s) == is_mac(s),
{
    if s.len() == 17 {
        if validate::valid_mac(s) {
            assert forall|i: int|
                #![trigger s[i]]
                0 <= i < 17 implies if i == 2 || i == 5 || i == 8 || i == 11 || i == 14 {
                s[i] as int == 0x3a
            } else {
                ||| 0x30 <= s[i] as int <= 0x39
                ||| 0x41 <= s[i] as int <= 0x46
                ||| 0x61 <= s[i] as int <= 0x66
            } by {
                if i % 3 == 2 {
                    assert(s[i] == ':');
                } else {
                    assert(validate::is_hex_digit(s[i]));
                }
            }
        }
        if is_mac(s) {
            assert forall|i: int| 0 <= i < 17 implies if i % 3 == 2 {
                #[trigger] s[i] == ':'
            } else {
                validate::is_hex_digit(s[i])
            } by {}
        }
    }
}

proof fn reference_forms(disks: Seq<Disk>, id: Seq<char>, kind: DiskType, who: Seq<char>)
    ensures
        (validate::ref_problems(disks, id, kind, who).len() == 0) == refers_to(disks, id, kind),
{
    let n = disks.len() as int;
    match validate::disk_with_id(disks, n, id) {
        Some(k) => {
            found_is_last(disks, n, id);
            assert(is_last_with(disks, k, id));
            assert forall|i: int| #[trigger] is_last_with(disks, i, id) implies i == k by {
                one_is_last(disks, i, k, id);
            }
        },
        None => {
            assert forall|i: int| !#[trigger] is_last_with(disks, i, id) by {
                if is_last_with(disks, i, id) {
                    none_is_found(disks, n, id, i);
                }
            }
        },
    }
}

pub(crate) proof fn one_is_last(disks: Seq<Disk>, i: int, k: int, id: Seq<char>)
    requires
        is_last_with(disks, i, id),
        is_last_with(disks, k, id),
    ensures
        i == k,
{
    if i < k {
        assert(disks[k].id@ != id);
    } else if k < i {
        assert(disks[i].id@ != id);
    }
}

pub(crate) proof fn none_is_found(disks: Seq<Disk>, k: int, id: Seq<char>, i: int)
    requires
        0 <= i < k <= disks.len(),
        validate::disk_with_id(disks, k, id) is None,
    ensures
        disks[i].id@ != id,
    decreases k,
{
    if i < k - 1 {
        none_is_found(disks, k - 1, id, i);
    }
}

pub(crate) proof fn found_is_last(disks: Seq<Disk>, k: int, id: Seq<char>)
    requires
        0 <= k <= disks.len(),
        validate::disk_with_id(disks, k, id) is Some,
    ensures
        ({
            let i = validate::disk_with_id(disks, k, id)->0;
            &&& 0 <= i < k
            &&& disks[i].id@ == id
            &&& forall|j: int| i < j < k ==> (#[trigger] disks[j]).id@ != id
        }),
    decreases k,
{
    if disks[k - 1].id@ != id {
        found_is_last(disks, k - 1, id);
    }
}

/// The first `k` games are game disks.
pub open spec fn are_games(disks: Seq<Disk>, games: Seq<String>, k: int) -> bool {
    forall|g: int| 0 <= g < k ==> refers_to(disks, (#[trigger] games[g])@, DiskType::Game)
}

proof fn game_forms(disks: Seq<Disk>, games: Seq<String>, k: int, who: Seq<char>)
    requires
        0 <= k <= games.len(),
    ensures
        (validate::game_problems(disks, games, k, who).len() == 0) == are_games(disks, games, k),
    decreases k,
{
    if k > 0 {
        game_forms(disks, games, k - 1, who);
        reference_forms(disks, games[k - 1]@, DiskType::Game, who);
        assert(are_games(disks, games, k) ==> refers_to(disks, games[k - 1]@, DiskType::Game));
        assert(are_games(disks, games, k) ==> are_games(disks, games, k - 1));
        if are_games(disks, games, k - 1) && refers_to(disks, games[k - 1]@, DiskType::Game) {
            assert forall|g: int| 0 <= g < k implies refers_to(
                disks,
                (#[trigger] games[g])@,
                DiskType::Game,
            ) by {
                if g < k - 1 {
                    assert(refers_to(disks, games[g]@, DiskType::Game));
                }
            }
        }
    }
}

proof fn profile_forms(
    disks: Seq<Disk>,
    system: Seq<char>,
    games: Seq<String>,
    writeback: Seq<char>,
    who: Seq<char>,
)
    ensures
        (validate::profile_problems(disks, system, games, writeback, who).len() == 0)
            == refers_well(disks, system, games, writeback),
{
    reference_forms(disks, system, DiskType::Image, who + ".system"@);
    game_forms(disks, games, games.len() as int, who + ".games"@);
    reference_forms(disks, writeback, DiskType::Writeback, who + ".writeback"@);
}

/// The ids of the first `k` disks differ.
pub open spec fn ids_differ(disks: Seq<Disk>, k: int) -> bool {
    forall|i: int, j: int|
        #![trigger disks[i], disks[j]]
        0 <= i < j < k ==> disks[i].id@ != disks[j].id@
}

proof fn disk_forms(disks: Seq<Disk>, k: int)
    requires
        0 <= k <= disks.len(),
    ensures
        (validate::disk_problems(disks, k).len() == 0) == ids_differ(disks, k),
    decreases k,
{
    if k > 0 {
        disk_forms(disks, k - 1);
        let id = disks[k - 1].id@;
        assert(ids_differ(disks, k) ==> ids_differ(disks, k - 1));
        if validate::has_id(disks, k - 1, id) {
            let i = choose|i: int| 0 <= i < k - 1 && (#[trigger] disks[i]).id@ == id;
            assert(!ids_differ(disks, k)) by {
                assert(disks[i].id@ == disks[k - 1].id@);
            }
        } else if ids_differ(disks, k - 1) {
            assert(ids_differ(disks, k));
        }
    }
}

/// Client `c` is sound by itself.
pub open spec fn is_sound_client(cfg: Config, c: int) -> bool {
    let client = cfg.clients@[c];
    is_mac(client.mac@) && refers_well(
        cfg.disks@,
        client.system@,
        client.games@,
        client.writeback@,
    )
}

/// The first `k` clients are sound, each by itself.
pub open spec fn are_sound_clients(cfg: Config, k: int) -> bool {
    forall|c: int| 0 <= c < k ==> #[trigger] is_sound_client(cfg, c)
}

/// The addresses of the first `k` clients differ.
pub open spec fn macs_differ(cfg: Config, k: int) -> bool {
    forall|i: int, j: int|
        #![trigger cfg.clients@[i], cfg.clients@[j]]
        0 <= i < j < k ==> cfg.clients@[i].mac@ != cfg.clients@[j].mac@
}

proof fn client_forms(cfg: Config, k: int)
    requires
        0 <= k <= cfg.clients@.len(),
    ensures
        (validate::client_problems(cfg.disks@, cfg.clients@, k).len() == 0) == (are_sound_clients(
            cfg,
            k,
        ) && macs_differ(cfg, k)),
    decreases k,
{
    if k > 0 {
        let clients = cfg.clients@;
        client_forms(cfg, k - 1);
        let c = clients[k - 1];
        mac_forms(c.mac@);
        profile_forms(cfg.disks@, c.system@, c.games@, c.writeback@, validate::client_label(c));
        assert(are_sound_clients(cfg, k) == (are_sound_clients(cfg, k - 1) && is_sound_client(
            cfg,
            k - 1,
        ))) by {
            if are_sound_clients(cfg, k) {
                assert(is_sound_client(cfg, k - 1));
            }
        }
        assert(macs_differ(cfg, k) ==> macs_differ(cfg, k - 1));
        if validate::has_mac(clients, k - 1, c.mac@) {
            let i = choose|i: int| 0 <= i < k - 1 && (#[trigger] clients[i]).mac@ == c.mac@;
            assert(!macs_differ(cfg, k)) by {
                assert(clients[i].mac@ == clients[k - 1].mac@);
            }
        } else if macs_differ(cfg, k - 1) {
            assert(macs_differ(cfg, k));
        }
    }
}

proof fn boot_forms(b: BootConfig, root_is_dir: bool)
    ensures
        (validate::boot_problems(b, root_is_dir).len() == 0) == is_sound_boot(b, root_is_dir),
{
    reveal_strlit("http://");
    reveal_strlit("https://");
    assert("http://"@.len() == 7 && "https://"@.len() == 8);
}

/// A configuration has no problems just when it is sound.
pub proof fn sound_configurations_are_accepted(cfg: Config, root_is_dir: bool)
    ensures
        (validate::all_problems(cfg, root_is_dir).len() == 0) == is_sound(cfg, root_is_dir),
{
    disk_forms(cfg.disks@, cfg.disks@.len() as int);
    client_forms(cfg, cfg.clients@.len() as int);
    if let Some(d) = cfg.client_defaults {
        profile_forms(cfg.disks@, d.system@, d.games@, d.writeback@, "client_defaults"@);
    }
    if let Some(b) = cfg.boot {
        boot_forms(b, root_is_dir);
    }
}

/// A size is a number and a unit: powers of 1024 for `KB`, `MB`, `GB` and `TB`,
/// in either case, and bytes for `B` or nothing.
pub proof fn sizes_are_numbers_of_units(n: nat, unit: Seq<char>)
    requires
        n <= u64::MAX,
    ensures
        ({
            let s = text::decimal(n) + unit;
            let bytes = size::unit_of(s).1;
            let number = size::number_of(s);
            &&& unit == "TB"@ || unit == "tb"@ ==> number == Some(n as int) && bytes == 1024 * 1024
                * 1024 * 1024
            &&& unit == "GB"@ || unit == "gb"@ ==> number == Some(n as int) && bytes == 1024 * 1024
                * 1024
            &&& unit == "MB"@ || unit == "mb"@ ==> number == Some(n as int) && bytes == 1024 * 1024
            &&& unit == "KB"@ || unit == "kb"@ ==> number == Some(n as int) && bytes == 1024
            &&& unit == "B"@ || unit == "b"@ ==> number == Some(n as int) && bytes == 1
            &&& unit == Seq::<char>::empty() ==> number == Some(n as int) && bytes == 1
        }),
{
    reveal_strlit("TB");
    reveal_strlit("tb");
    reveal_strlit("GB");
    reveal_strlit("gb");
    reveal_strlit("MB");
    reveal_strlit("mb");
    reveal_strlit("KB");
    reveal_strlit("kb");
    reveal_strlit("B");
    reveal_strlit("b");
    let d = text::decimal(n);
    let s = d + unit;
    text::decimal_round_trip(n, u64::MAX as int);
    digits_are_digits(n);
    digits_are_not_trimmed(d);
    assert(text::is_digit(d.last()));
    if unit.len() <= 2 {
        assert(s.take(d.len() as int) =~= d);
        assert(unit.len() > 0 ==> s.last() == unit.last());
        assert(unit.len() == 2 ==> s[s.len() - 2] == unit[0]);
        assert(unit.len() == 1 ==> s[s.len() - 2] == d.last());
        assert(unit.len() == 0 ==> s =~= d);
    }
}

proof fn digits_are_digits(n: nat)
    ensures
        text::decimal(n).len() > 0,
        text::all_digits(text::decimal(n)),
    decreases n,
{
    if n >= 10 {
        digits_are_digits(n / 10);
        let front = text::decimal(n / 10);
        assert forall|i: int| 0 <= i < text::decimal(n).len() implies text::is_digit(
            #[trigger] text::decimal(n)[i],
        ) by {
            if i < front.len() {
                assert(text::decimal(n)[i] == front[i]);
            }
        }
    }
}

proof fn digits_are_not_trimmed(d: Seq<char>)
    requires
        d.len() > 0,
        text::all_digits(d),
    ensures
        text::trim(d) == d,
{
    assert(text::is_digit(d[0]));
    assert(text::is_digit(d.last()));
}

/// Every character of `s` is a blank.
pub open spec fn is_gap(s: Seq<char>) -> bool {
    forall|i: int| 0 <= i < s.len() ==> text::is_blank(#[trigger] s[i])
}

/// `c` is the letter with the code `upper`, or the same letter in lower case.
pub open spec fn is_letter(c: char, upper: int) -> bool {
    c as int == upper || c as int == upper + 32
}

/// How many bytes the unit `u` is, if it is one.
pub open spec fn bytes_of(u: Seq<char>) -> Option<int> {
    if u.len() == 0 {
        Some(1)
    } else if u.len() == 1 && is_letter(u[0], 0x42) {
        Some(1)
    } else if u.len() == 2 && is_letter(u[1], 0x42) {
        if is_letter(u[0], 0x4b) {
            Some(1024)
        } else if is_letter(u[0], 0x4d) {
            Some(1024int * 1024)
        } else if is_letter(u[0], 0x47) {
            Some(1024int * 1024 * 1024)
        } else if is_letter(u[0], 0x54) {
            Some(1024int * 1024 * 1024 * 1024)
        } else {
            None
        }
    } else {
        None
    }
}

/// A size is written as a number and a unit, with blanks around them and between
/// them: it is as many times the unit, if that fits in 64 bits, and else it
/// overflows.
pub proof fn sizes_are_read(
    a: Seq<char>,
    n: nat,
    gap: Seq<char>,
    unit: Seq<char>,
    b: Seq<char>,
    r: Result<u64, size::SizeParseError>,
)
    requires
        is_gap(a),
        is_gap(gap),
        is_gap(b),
        n <= u64::MAX,
        bytes_of(unit) is Some,
        unit.len() == 0 ==> gap.len() == 0,
        size::is_size(a + text::decimal(n) + gap + unit + b, r),
    ensures
        n * bytes_of(unit)->0 <= 0xffff_ffff_ffff_ffff ==> (r matches Ok(v) && v == n * bytes_of(
            unit,
        )->0),
        n * bytes_of(unit)->0 > 0xffff_ffff_ffff_ffff ==> (r matches Err(e) && e is Overflow),
{
    let d = text::decimal(n);
    let core = d + gap + unit;
    digits_are_digits(n);
    assert(text::is_digit(d[0]) && text::is_digit(d.last()));
    assert(a + d + gap + unit + b =~= a + core + b);
    assert(core[0] == d[0]);
    assert(unit.len() > 0 ==> core.last() == unit.last());
    assert(unit.len() == 0 ==> core =~= d);
    text::trimming_keeps_what_is_between(a, core, b);
    let none = Seq::<char>::empty();
    text::trimming_keeps_what_is_between(none, d, gap);
    assert(none + d + gap =~= d + gap);
    text::decimal_round_trip(n, u64::MAX as int);
    assert(core.take(core.len() - unit.len()) =~= d + gap);
    if unit.len() == 1 {
        let c = core[core.len() - 2];
        if gap.len() > 0 {
            assert(c == gap.last());
            assert(text::is_blank(gap[gap.len() - 1]));
        } else {
            assert(c == d.last());
        }
    } else if unit.len() == 2 {
        assert(core[core.len() - 2] == unit[0]);
    }
    assert(size::unit_of(core) == (unit.len() as int, bytes_of(unit)->0));
}

} // verus!
