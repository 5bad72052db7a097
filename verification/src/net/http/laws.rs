//! What a client that asks for its boot script gets.
use std::sync::Arc;
use vstd::prelude::*;
use super::boot_script;
use super::Response;
use crate::config::model::BootConfig;
use crate::iscsi::registry::TargetRegistry;
use crate::iscsi::scsi::{LogicalUnit, ScsiTarget};
use crate::manager::{ArcStore, ClientManager, Profile};
use crate::net::addr;
use crate::storage::BackingStore;
use crate::text;
use crate::volume;
use crate::volume::RamOverlay;

verus! {

/// `lu` shows the bytes of `store`, in blocks of 512, and nothing is written to
/// it.
pub open spec fn shows<S: BackingStore + ?Sized>(
    lu: Option<LogicalUnit<ArcStore<S>, RamOverlay>>,
    store: Arc<S>,
) -> bool {
    &&& lu is Some
    &&& lu->0.volume.content() == store.content()
    &&& lu->0.volume.blocks().dom() == Set::<u64>::empty()
    &&& lu->0.block_size == 512
    &&& !lu->0.removable
}

/// How many of the first `k` games have a store.
pub open spec fn count_stored<S: BackingStore + ?Sized>(
    m: &ClientManager<S>,
    games: Seq<Seq<char>>,
    k: int,
) -> int
    decreases k,
{
    if k <= 0 {
        0
    } else {
        count_stored(m, games, k - 1) + if m.store(games[k - 1]) is Some {
            1int
        } else {
            0int
        }
    }
}

proof fn games_in_order<S: BackingStore + ?Sized>(
    m: &ClientManager<S>,
    games: Seq<Seq<char>>,
    k: int,
)
    requires
        0 <= k <= games.len(),
    ensures
        super::game_units(m, games, k).len() == count_stored(m, games, k),
        0 <= count_stored(m, games, k) <= k,
        forall|g: int|
            0 <= g < k && m.store(games[g]) is Some ==> 0 <= #[trigger] count_stored(m, games, g)
                < super::game_units(m, games, k).len() && super::game_units(
                m,
                games,
                k,
            )[count_stored(m, games, g)].0 == m.store(games[g])->0,
    decreases k,
{
    if k > 0 {
        games_in_order(m, games, k - 1);
        let all = super::game_units(m, games, k);
        let front = super::game_units(m, games, k - 1);
        assert forall|g: int| 0 <= g < k && m.store(games[g]) is Some implies 0
            <= #[trigger] count_stored(m, games, g) < all.len() && all[count_stored(
            m,
            games,
            g,
        )].0 == m.store(games[g])->0 by {
            if g < k - 1 {
                assert(all[count_stored(m, games, g)] == front[count_stored(m, games, g)]);
            }
        }
    }
}

/// A client's target has the system disk as LUN 0 and the games behind it, in
/// order, each with the bytes of its own store; a disk without a store is left
/// out, and there is no other unit.
pub proof fn target_has_the_disks_of_the_profile<S: BackingStore + ?Sized>(
    m: &ClientManager<S>,
    p: Profile,
    t: ScsiTarget<ArcStore<S>, RamOverlay>,
)
    requires
        super::are_fresh_units(t.luns@, super::client_units(m, p)),
    ensures
        ({
            let system: int = if m.store(p.system) is Some {
                1
            } else {
                0
            };
            &&& t.luns@.len() == system + count_stored(m, p.games, p.games.len() as int)
            &&& m.store(p.system) matches Some(s) ==> shows(t.luns@[0], s)
            &&& forall|g: int|
                0 <= g < p.games.len() && m.store(p.games[g]) is Some ==> 0 <= system
                    + #[trigger] count_stored(m, p.games, g) < t.luns@.len() && shows(
                    t.luns@[system + count_stored(m, p.games, g)],
                    m.store(p.games[g])->0,
                )
        }),
{
    let units = super::client_units(m, p);
    let games = super::game_units(m, p.games, p.games.len() as int);
    games_in_order(m, p.games, p.games.len() as int);
    assert forall|i: int| 0 <= i < units.len() implies shows(
        #[trigger] t.luns@[i],
        units[i].0,
    ) by {
        super::boot_starts_from_the_masters(t, units, i);
        assert(super::is_fresh_unit(t.luns@[i]->0, units[i].0, units[i].1));
        assert(t.luns@[i]->0.volume.blocks().dom() =~= Set::<u64>::empty());
    }
    let system: int = if m.store(p.system) is Some {
        1
    } else {
        0
    };
    if m.store(p.system) is Some {
        assert(units[0].0 == m.store(p.system)->0);
    }
    assert forall|g: int| 0 <= g < p.games.len() && m.store(p.games[g]) is Some implies 0 <= system
        + #[trigger] count_stored(m, p.games, g) < t.luns@.len() && shows(
        t.luns@[system + count_stored(m, p.games, g)],
        m.store(p.games[g])->0,
    ) by {
        let i = system + count_stored(m, p.games, g);
        assert(units[i] == games[count_stored(m, p.games, g)]);
    }
}

/// Where every disk of the profile has a store, game `g` is LUN `g + 1`, and
/// nothing is left out.
pub proof fn every_game_is_a_lun<S: BackingStore + ?Sized>(
    m: &ClientManager<S>,
    p: Profile,
    t: ScsiTarget<ArcStore<S>, RamOverlay>,
)
    requires
        super::are_fresh_units(t.luns@, super::client_units(m, p)),
        m.store(p.system) is Some,
        forall|g: int| 0 <= g < p.games.len() ==> m.store(#[trigger] p.games[g]) is Some,
    ensures
        t.luns@.len() == 1 + p.games.len(),
        shows(t.luns@[0], m.store(p.system)->0),
        forall|g: int|
            0 <= g < p.games.len() ==> shows(
                t.luns@[1 + g],
                m.store(#[trigger] p.games[g])->0,
            ),
{
    target_has_the_disks_of_the_profile(m, p, t);
    assert forall|g: int| 0 <= g <= p.games.len() implies #[trigger] count_stored(m, p.games, g)
        == g by {
        all_stored(m, p.games, g);
    }
    assert(count_stored(m, p.games, p.games.len() as int) == p.games.len());
    assert forall|g: int| 0 <= g < p.games.len() implies shows(
        t.luns@[1 + g],
        m.store(#[trigger] p.games[g])->0,
    ) by {
        assert(count_stored(m, p.games, g) == g);
    }
}

proof fn all_stored<S: BackingStore + ?Sized>(m: &ClientManager<S>, games: Seq<Seq<char>>, k: int)
    requires
        0 <= k <= games.len(),
        forall|g: int| 0 <= g < games.len() ==> m.store(#[trigger] games[g]) is Some,
    ensures
        count_stored(m, games, k) == k,
    decreases k,
{
    if k > 0 {
        all_stored(m, games, k - 1);
        assert(m.store(games[k - 1]) is Some);
    }
}

/// The system disk's unit carries the target's name as its serial number, and
/// the name is made of the client's name, or else of its address.
pub proof fn system_unit_is_named<S: BackingStore + ?Sized>(
    m: &ClientManager<S>,
    p: Profile,
    t: ScsiTarget<ArcStore<S>, RamOverlay>,
)
    requires
        super::are_fresh_units(t.luns@, super::client_units(m, p)),
        m.store(p.system) is Some,
    ensures
        t.luns@.len() > 0,
        t.luns@[0] is Some,
        t.luns@[0]->0.serial@ == super::iqn_of(p),
        p.name matches Some(name) ==> super::iqn_of(p) == "iqn.2026-06.dev.xboot:"@ + name,
        p.name is None ==> super::iqn_of(p) == "iqn.2026-06.dev.xboot:"@ + p.mac,
{
    let units = super::client_units(m, p);
    assert(super::is_fresh_unit(t.luns@[0]->0, units[0].0, units[0].1));
}

/// Bytes `i..j` of a query are a parameter: no `&` within, and one or an end of
/// the query on either side.
pub open spec fn is_parameter(q: Seq<u8>, i: int, j: int) -> bool {
    &&& 0 <= i <= j <= q.len()
    &&& i == 0 || q[i - 1] == 0x26
    &&& j == q.len() || q[j] == 0x26
    &&& forall|k: int| i <= k < j ==> #[trigger] q[k] != 0x26
}

/// Bytes `i..j` of a query start with `mac=`.
pub open spec fn says_mac(q: Seq<u8>, i: int, j: int) -> bool {
    i + 4 <= j && q[i] == 0x6d && q[i + 1] == 0x61 && q[i + 2] == 0x63 && q[i + 3] == 0x3d
}

/// Where the first parameter of a query ends, and whether it is a `mac`.
proof fn first_parameter(q: Seq<u8>) -> (first: int)
    ensures
        is_parameter(q, 0, first),
        says_mac(q, 0, first) ==> super::mac_in(q) == Some(super::decoded(q.subrange(4, first))),
        !says_mac(q, 0, first) ==> super::mac_in(q) == if first < q.len() {
            super::mac_in(q.skip(first + 1))
        } else {
            None
        },
{
    let end = text::find(q, 0x26);
    text::find_bounds(q, 0x26);
    let first = if 0 <= end < q.len() {
        end
    } else {
        q.len() as int
    };
    let part = q.take(first);
    assert(super::is_mac_part(part) == says_mac(q, 0, first)) by {
        if first >= 4 {
            let w = part.take(4);
            assert(w[0] == q[0] && w[1] == q[1] && w[2] == q[2] && w[3] == q[3]);
            if says_mac(q, 0, first) {
                assert(w =~= super::mac_key());
            }
        }
    }
    assert(first == q.len() ==> part =~= q);
    if says_mac(q, 0, first) {
        assert(part.skip(4) =~= q.subrange(4, first));
    }
    first
}

/// Parameters that overlap in their start are one.
proof fn parameters_end_alike(q: Seq<u8>, i: int, j: int, k: int)
    requires
        is_parameter(q, i, j),
        is_parameter(q, i, k),
    ensures
        j == k,
{
    if j < k {
        assert(q[j] != 0x26);
    } else if k < j {
        assert(q[k] != 0x26);
    }
}

/// The parameters behind the first are those of the rest of the query.
proof fn parameter_of_the_rest(q: Seq<u8>, first: int, i: int, j: int)
    requires
        is_parameter(q, 0, first),
        first < q.len(),
    ensures
        is_parameter(q.skip(first + 1), i - first - 1, j - first - 1) == (is_parameter(q, i, j) && i
            > first),
        i > first && j <= q.len() ==> says_mac(q.skip(first + 1), i - first - 1, j - first - 1)
            == says_mac(q, i, j),
{
    let rest = q.skip(first + 1);
    let (a, b) = (i - first - 1, j - first - 1);
    if is_parameter(rest, a, b) {
        assert forall|k: int| i <= k < j implies #[trigger] q[k] != 0x26 by {
            assert(rest[k - first - 1] != 0x26);
        }
        if a > 0 {
            assert(rest[a - 1] == q[i - 1]);
        }
    }
    if is_parameter(q, i, j) && i > first {
        assert forall|k: int| a <= k < b implies #[trigger] rest[k] != 0x26 by {
            assert(q[k + first + 1] != 0x26);
        }
        if a > 0 {
            assert(rest[a - 1] == q[i - 1]);
        }
    }
}

/// The address that a query asks for is that of its first `mac` parameter.
pub proof fn first_mac_parameter_counts(q: Seq<u8>, i: int, j: int)
    requires
        is_parameter(q, i, j),
        says_mac(q, i, j),
        forall|a: int, b: int| #[trigger]
            is_parameter(q, a, b) && a < i ==> !says_mac(q, a, b),
    ensures
        super::mac_in(q) == Some(super::decoded(q.subrange(i + 4, j))),
    decreases q.len(),
{
    let first = first_parameter(q);
    if i == 0 {
        parameters_end_alike(q, 0, j, first);
    } else {
        assert(!says_mac(q, 0, first));
        if i <= first {
            assert(q[i - 1] != 0x26);
        }
        parameter_of_the_rest(q, first, i, j);
        let rest = q.skip(first + 1);
        let (x, y) = (i - first - 1, j - first - 1);
        assert forall|a: int, b: int| #[trigger]
            is_parameter(rest, a, b) && a < x implies !says_mac(rest, a, b) by {
            parameter_of_the_rest(q, first, a + first + 1, b + first + 1);
            assert(is_parameter(q, a + first + 1, b + first + 1));
        }
        first_mac_parameter_counts(rest, x, y);
        assert(rest.subrange(x + 4, y) =~= q.subrange(i + 4, j));
    }
}

/// A query without a `mac` parameter asks for no address.
pub proof fn no_mac_parameter_no_address(q: Seq<u8>)
    requires
        forall|a: int, b: int| #[trigger] is_parameter(q, a, b) ==> !says_mac(q, a, b),
    ensures
        super::mac_in(q) is None,
    decreases q.len(),
{
    let first = first_parameter(q);
    assert(!says_mac(q, 0, first));
    if first < q.len() {
        let rest = q.skip(first + 1);
        assert forall|a: int, b: int| #[trigger] is_parameter(rest, a, b) implies !says_mac(
            rest,
            a,
            b,
        ) by {
            parameter_of_the_rest(q, first, a + first + 1, b + first + 1);
            assert(is_parameter(q, a + first + 1, b + first + 1));
        }
        no_mac_parameter_no_address(rest);
    }
}

/// `d` is the hexadecimal digit of value `v`, in either case.
pub open spec fn is_hex(d: u8, v: int) -> bool {
    ||| 0 <= v < 10 && d == 0x30 + v
    ||| 10 <= v < 16 && d == 0x41 + (v - 10)
    ||| 10 <= v < 16 && d == 0x61 + (v - 10)
}

/// A percent sign and two hexadecimal digits stand for one byte; any other byte
/// stands for itself. Each byte becomes the character of its value.
pub proof fn decoding_goes_byte_by_byte(b: Seq<u8>)
    ensures
        b.len() == 0 ==> super::decoded(b).len() == 0,
        forall|h: int, l: int|
            #![trigger is_hex(b[1], h), is_hex(b[2], l)]
            b.len() >= 3 && b[0] == 0x25 && is_hex(b[1], h) && is_hex(b[2], l) ==> super::decoded(b)
                == seq![(16 * h + l) as u8 as char] + super::decoded(b.skip(3)),
        b.len() > 0 && (b[0] != 0x25 || b.len() < 3 || (forall|h: int| !#[trigger] is_hex(b[1], h))
            || (forall|l: int| !#[trigger] is_hex(b[2], l))) ==> super::decoded(b) == seq![
            b[0] as char,
        ] + super::decoded(b.skip(1)),
{
    if b.len() >= 3 {
        if let Some(v) = super::hex_value(b[1]) {
            assert(is_hex(b[1], v as int));
        }
        if let Some(v) = super::hex_value(b[2]) {
            assert(is_hex(b[2], v as int));
        }
    }
}

/// Who is answered what: the script for a client that is known and asks for it
/// with its address; 400 without an address; 404 for anything else.
pub proof fn who_is_answered_what<S: BackingStore + ?Sized>(
    m: &ClientManager<S>,
    method: Seq<char>,
    path: Seq<char>,
    query: Option<Seq<char>>,
)
    ensures
        ({
            let asks = method == "GET"@ && path == "/boot.ipxe"@;
            let mac = match query {
                Some(q) => super::mac_in(vstd::utf8::encode_utf8(q)),
                None => None,
            };
            let r = super::booted(m, method, path, query);
            &&& !asks ==> r == Err::<Profile, u16>(404)
            &&& asks && mac is None ==> r == Err::<Profile, u16>(400)
            &&& asks && mac is Some && m.profile(mac->0) is None ==> r == Err::<Profile, u16>(404)
            &&& asks && mac is Some && m.profile(mac->0) is Some ==> r == Ok::<Profile, u16>(
                m.profile(mac->0)->0,
            )
        }),
{
}

/// A target that a connection holds is kept, as it is, when another one is
/// registered under its name, and so is every target under another name; the
/// new one is found under its own.
pub proof fn registering_keeps_the_others<S: BackingStore + ?Sized>(
    before: &TargetRegistry<ArcStore<S>, RamOverlay>,
    after: &TargetRegistry<ArcStore<S>, RamOverlay>,
    iqn: Seq<char>,
    t: ScsiTarget<ArcStore<S>, RamOverlay>,
    id: usize,
)
    requires
        before.wf(),
        after.wf(),
        after.registers(before, iqn, t),
    ensures
        id < before.slots@.len() && before.slots@[id as int] is Some
            && before.slots@[id as int]->0.holders > 0 ==> id < after.slots@.len()
            && after.slots@[id as int] == before.slots@[id as int],
        forall|i: int|
            0 <= i < before.names@.len() && (#[trigger] before.names@[i]).0@ != iqn ==> {
                let k = before.names@[i].1;
                &&& exists|j: int|
                    0 <= j < after.names@.len() && (#[trigger] after.names@[j]).0@
                        == before.names@[i].0@ && after.names@[j].1 == k
                &&& k < after.slots@.len()
                &&& after.slots@[k as int] == before.slots@[k as int]
            },
        exists|j: int|
            0 <= j < after.names@.len() && (#[trigger] after.names@[j]).0@ == iqn && (
            after.slots@[after.names@[j].1 as int] matches Some(s) && s.target == t && s.holders
                == 0),
{
    if before.held(id) {
        assert(after.present(id));
    }
    assert forall|i: int| 0 <= i < before.names@.len() && (#[trigger] before.names@[i]).0@
        != iqn implies {
        let k = before.names@[i].1;
        &&& exists|j: int|
            0 <= j < after.names@.len() && (#[trigger] after.names@[j]).0@ == before.names@[i].0@
                && after.names@[j].1 == k
        &&& k < after.slots@.len()
        &&& after.slots@[k as int] == before.slots@[k as int]
    } by {
        let k = before.names@[i].1;
        let other = before.names@[i].0@;
        assert(before.named(other, k));
        assert(after.named(other, k));
        assert(before.present(k));
        if before.named(iqn, k) {
            let j = choose|j: int|
                #![trigger before.names@[j]]
                0 <= j < before.names@.len() && before.names@[j].0@ == iqn && before.names@[j].1
                    == k;
            assert(i != j);
        }
        assert(after.present(k));
    }
    let new = choose|id: usize| #[trigger]
        after.named(iqn, id) && !before.present(id) && after.present(id)
            && after.slots@[id as int]->0.target == t && after.slots@[id as int]->0.holders == 0;
    let j = choose|j: int|
        #![trigger after.names@[j]]
        0 <= j < after.names@.len() && after.names@[j].0@ == iqn && after.names@[j].1 == new;
    assert(after.names@[j].0@ == iqn);
}

/// The name of a client's target: made of the client's name, or else of its
/// address.
pub open spec fn target_name(p: Profile) -> Seq<char> {
    "iqn.2026-06.dev.xboot:"@ + (match p.name {
        Some(name) => name,
        None => p.mac,
    })
}

/// A client that asks for its script with its address is answered by it, with
/// its own name and the server's address, and finds its system disk as LUN 0 of
/// the target that is registered under that name.
pub proof fn boot_request_leads_to_the_disk<S: BackingStore + ?Sized>(
    m: &ClientManager<S>,
    boot: BootConfig,
    query: Seq<char>,
    mac: Seq<char>,
    before: &TargetRegistry<ArcStore<S>, RamOverlay>,
    after: &TargetRegistry<ArcStore<S>, RamOverlay>,
    r: Response,
)
    requires
        super::mac_in(vstd::utf8::encode_utf8(query)) == Some(mac),
        super::answers(
            super::booted(m, "GET"@, "/boot.ipxe"@, Some(query)),
            boot,
            m,
            before,
            after,
            r,
        ),
    ensures
        m.profile(mac) is None ==> r.status == 404 && *after == *before,
        m.profile(mac) matches Some(p) ==> {
            let iqn = target_name(p);
            let end = seq!['\n'];
            &&& r.status == 200
            &&& r.plain_text
            &&& r.body@ == "#!ipxe"@ + end + "set initiator-iqn "@ + iqn + end + "set keep-san 1"@
                + end + "sanboot iscsi:"@ + addr::dotted_text(boot.server_ip.octets@) + "::::"@
                + iqn + end
            &&& exists|t: ScsiTarget<ArcStore<S>, RamOverlay>| #[trigger]
                after.registers(before, iqn, t) && (m.store(p.system) matches Some(s)
                    ==> t.luns@.len() > 0 && shows(t.luns@[0], s))
        },
{
    who_is_answered_what(m, "GET"@, "/boot.ipxe"@, Some(query));
    if m.profile(mac) is Some {
        let p = m.profile(mac)->0;
        let iqn = super::iqn_of(p);
        assert(iqn =~= target_name(p));
        boot_script::script_has_four_lines(iqn, addr::dotted_text(boot.server_ip.octets@));
        let t = choose|t: ScsiTarget<ArcStore<S>, RamOverlay>| #[trigger]
            after.registers(before, iqn, t) && super::are_fresh_units(
                t.luns@,
                super::client_units(m, p),
            );
        target_has_the_disks_of_the_profile(m, p, t);
        if m.store(p.system) is Some {
            assert(super::client_units(m, p).len() > 0);
        }
    }
}

/// A request that is refused says why, and registers nothing.
pub proof fn refusals_say_why<S: BackingStore + ?Sized>(
    m: &ClientManager<S>,
    boot: BootConfig,
    method: Seq<char>,
    path: Seq<char>,
    query: Option<Seq<char>>,
    before: &TargetRegistry<ArcStore<S>, RamOverlay>,
    after: &TargetRegistry<ArcStore<S>, RamOverlay>,
    r: Response,
)
    requires
        super::answers(super::booted(m, method, path, query), boot, m, before, after, r),
    ensures
        method != "GET"@ || path != "/boot.ipxe"@ ==> r.status == 404 && r.body@ == "Not Found"@
            && *after == *before,
        method == "GET"@ && path == "/boot.ipxe"@ && query is None ==> r.status == 400 && r.body@
            == "Missing 'mac' parameter"@ && *after == *before,
        r.status == 404 ==> r.body@ == "Not Found"@ && *after == *before,
        r.status == 400 ==> r.body@ == "Missing 'mac' parameter"@ && *after == *before,
        r.status == 200 || r.status == 400 || r.status == 404,
        r.status != 200 ==> !r.plain_text,
{
    who_is_answered_what(m, method, path, query);
}

} // verus!
