//! The HTTP service that hands clients their boot scripts: one endpoint, which
//! resolves a MAC address, assembles the client's target and registers it.
pub mod boot_script;
pub mod laws;

use std::sync::Arc;
use vstd::prelude::*;
use crate::config::model::BootConfig;
use crate::iscsi::registry::TargetRegistry;
use crate::iscsi::scsi::{LogicalUnit, ScsiTarget};
use crate::manager::{ArcStore, ClientConfig, ClientManager, Profile};
use crate::net::addr;
use crate::net::dhcp::decide;
use crate::storage::BackingStore;
use crate::text;
use crate::volume;
use crate::volume::{RamOverlay, Volume};

verus! {

/// The value of a hexadecimal digit.
pub open spec fn hex_value(b: u8) -> Option<u8> {
    if 0x30 <= b <= 0x39 {
        Some((b - 0x30) as u8)
    } else if 0x41 <= b <= 0x46 {
        Some((b - 0x41 + 10) as u8)
    } else if 0x61 <= b <= 0x66 {
        Some((b - 0x61 + 10) as u8)
    } else {
        None
    }
}

/// `b` with its percent-encoded bytes decoded, a character for a byte. What is
/// no encoded byte stands for itself.
pub open spec fn decoded(b: Seq<u8>) -> Seq<char>
    decreases b.len(),
{
    if b.len() == 0 {
        Seq::empty()
    } else if b[0] == 0x25 && b.len() >= 3 && hex_value(b[1]) is Some && hex_value(
        b[2],
    ) is Some {
        seq![(hex_value(b[1])->0 * 16 + hex_value(b[2])->0) as u8 as char] + decoded(b.skip(3))
    } else {
        seq![b[0] as char] + decoded(b.skip(1))
    }
}

/// The start of the parameter that is looked for.
pub open spec fn mac_key() -> Seq<u8> {
    seq![0x6du8, 0x61, 0x63, 0x3d]
}

/// `part` is the parameter that is looked for.
pub open spec fn is_mac_part(part: Seq<u8>) -> bool {
    part.len() >= 4 && part.take(4) == mac_key()
}

/// The value of the first `mac` parameter of a query.
pub open spec fn mac_in(query: Seq<u8>) -> Option<Seq<char>>
    decreases query.len(),
{
    let end = text::find(query, 0x26);
    if 0 <= end < query.len() {
        if is_mac_part(query.take(end)) {
            Some(decoded(query.take(end).skip(4)))
        } else {
            mac_in(query.skip(end + 1))
        }
    } else if is_mac_part(query) {
        Some(decoded(query.skip(4)))
    } else {
        None
    }
}

/// The value of a hexadecimal digit.
fn hex_val(b: u8) -> (r: Option<u8>)
    ensures
        r == hex_value(b),
        r matches Some(v) ==> v < 16,
{
    if 0x30 <= b && b <= 0x39 {
        Some(b - 0x30)
    } else if 0x41 <= b && b <= 0x46 {
        Some(b - 0x41 + 10)
    } else if 0x61 <= b && b <= 0x66 {
        Some(b - 0x61 + 10)
    } else {
        None
    }
}

/// Minimal percent-decoder for URL-encoded hex values like `%3A`.
pub fn decode_percent(s: &str) -> (out: String)
    ensures
        out@ == decoded(vstd::utf8::encode_utf8(s@)),
{
    let b = s.as_bytes();
    assert(b@.subrange(0, b@.len() as int) =~= b@);
    decode_bytes(b, 0, b.len())
}

/// Decode `b[from..to]`.
fn decode_bytes(b: &[u8], from: usize, to: usize) -> (out: String)
    requires
        from <= to <= b@.len(),
    ensures
        out@ == decoded(b@.subrange(from as int, to as int)),
{
    let ghost whole = b@.subrange(from as int, to as int);
    let mut out: String = String::new();
    let mut i: usize = from;
    assert(out@ + decoded(whole) =~= decoded(whole));
    while i < to
        invariant
            from <= i <= to <= b@.len(),
            decoded(whole) == out@ + decoded(b@.subrange(i as int, to as int)),
        decreases to - i,
    {
        let ghost rest = b@.subrange(i as int, to as int);
        let ghost before = out@;
        if b[i] == 0x25 && to - i >= 3 {
            if let (Some(hi), Some(lo)) = (hex_val(b[i + 1]), hex_val(b[i + 2])) {
                out.push((hi * 16 + lo) as char);
                assert(rest.skip(3) =~= b@.subrange(i + 3, to as int));
                assert(decoded(whole) =~= out@ + decoded(b@.subrange(i + 3, to as int)));
                i += 3;
                continue ;
            }
        }
        out.push(b[i] as char);
        assert(rest.skip(1) =~= b@.subrange(i + 1, to as int));
        assert(decoded(whole) =~= out@ + decoded(b@.subrange(i + 1, to as int)));
        i += 1;
    }
    assert(b@.subrange(i as int, to as int) =~= Seq::empty());
    assert(decoded(whole) =~= out@);
    out
}

/// Extract `mac=...` from a query string. Percent-decodes the value.
pub fn parse_mac_param(query: &str) -> (r: Option<String>)
    ensures
        r matches Some(m) ==> mac_in(vstd::utf8::encode_utf8(query@)) == Some(m@),
        r is None ==> mac_in(vstd::utf8::encode_utf8(query@)) is None,
{
    let b = query.as_bytes();
    let n: usize = b.len();
    let mut start: usize = 0;
    assert(b@.skip(0) =~= b@);
    loop
        invariant
            start <= n,
            n == b@.len(),
            b@ == vstd::utf8::encode_utf8(query@),
            mac_in(b@) == mac_in(b@.skip(start as int)),
        decreases n - start,
    {
        let ghost rest = b@.skip(start as int);
        let end: usize = text::find_byte(b, start, 0x26);
        let ghost part = b@.subrange(start as int, end as int);
        proof {
            if end < n {
                assert(part =~= rest.take(end - start));
                assert(rest.skip(end - start + 1) =~= b@.skip(end + 1));
            } else {
                assert(part =~= rest);
            }
        }
        if end - start >= 4 && b[start] == 0x6d && b[start + 1] == 0x61 && b[start + 2] == 0x63
            && b[start + 3] == 0x3d {
            assert(part.take(4) =~= mac_key());
            assert(part.skip(4) =~= b@.subrange(start + 4, end as int));
            return Some(decode_bytes(b, start + 4, end));
        }
        assert(!is_mac_part(part)) by {
            if is_mac_part(part) {
                let w = part.take(4);
                assert(w[0] == 0x6d && w[1] == 0x61 && w[2] == 0x63 && w[3] == 0x3d);
            }
        }
        if end >= n {
            return None;
        }
        start = end + 1;
    }
}

/// The target name of a client: by its name, or else by its MAC address.
pub open spec fn iqn_of(p: Profile) -> Seq<char> {
    "iqn.2026-06.dev.xboot:"@ + match p.name {
        Some(name) => name,
        None => p.mac,
    }
}

/// Generate an IQN for a client using its name (preferred) or MAC.
pub fn client_iqn(client: &ClientConfig) -> (iqn: String)
    ensures
        iqn@ == iqn_of(client@),
{
    let mut iqn: String = String::from_str("iqn.2026-06.dev.xboot:");
    match &client.name {
        Some(name) => iqn.append(name.as_str()),
        None => iqn.append(client.mac.as_str()),
    }
    iqn
}

/// The stores of the first `k` game disks that there is a store of, each with
/// the serial number of its unit.
pub open spec fn game_units<S: BackingStore + ?Sized>(
    m: &ClientManager<S>,
    games: Seq<Seq<char>>,
    k: int,
) -> Seq<(Arc<S>, Seq<char>)>
    decreases k,
{
    if k <= 0 {
        Seq::empty()
    } else {
        game_units(m, games, k - 1) + match m.store(games[k - 1]) {
            Some(s) => seq![(s, "XBOOT0000000001"@)],
            None => Seq::empty(),
        }
    }
}

/// The stores of a client's units, LUN by LUN, each with its serial number: the
/// system disk under the target's name, then the games.
pub open spec fn client_units<S: BackingStore + ?Sized>(
    m: &ClientManager<S>,
    p: Profile,
) -> Seq<(Arc<S>, Seq<char>)> {
    (match m.store(p.system) {
        Some(s) => seq![(s, iqn_of(p))],
        None => Seq::empty(),
    }) + game_units(m, p.games, p.games.len() as int)
}

/// A unit of a store with nothing written to it yet.
pub open spec fn is_fresh_unit<S: BackingStore + ?Sized>(
    lu: LogicalUnit<ArcStore<S>, RamOverlay>,
    store: Arc<S>,
    serial: Seq<char>,
) -> bool {
    &&& lu.wf()
    &&& lu.volume.master_content() == store.content()
    &&& forall|i: int| #[trigger] lu.volume.master_readable(i) == store.readable(i)
    &&& lu.volume.blocks() == Map::<u64, Seq<u8>>::empty()
    &&& lu.block_size == 512
    &&& lu.vendor@ == seq![0x58u8, 0x42, 0x4f, 0x4f, 0x54, 0x20, 0x20, 0x20]
    &&& lu.product@ == seq![
        0x56u8, 0x44, 0x49, 0x53, 0x4b, 0x20, 0x20, 0x20,
        0x20, 0x20, 0x20, 0x20, 0x20, 0x20, 0x20, 0x20,
    ]
    &&& lu.revision@ == seq![0x30u8, 0x30, 0x30, 0x31]
    &&& !lu.removable
    &&& lu.serial@ == serial
}

/// `luns` are fresh units of `units`.
pub open spec fn are_fresh_units<S: BackingStore + ?Sized>(
    luns: Seq<Option<LogicalUnit<ArcStore<S>, RamOverlay>>>,
    units: Seq<(Arc<S>, Seq<char>)>,
) -> bool {
    &&& luns.len() == units.len()
    &&& forall|i: int| 0 <= i < luns.len() ==> (#[trigger] luns[i]) is Some && is_fresh_unit(
        luns[i]->0,
        units[i].0,
        units[i].1,
    )
}

/// A unit of a store with nothing written to it yet.
fn fresh_unit<S: BackingStore + ?Sized>(store: Arc<S>) -> (lu: LogicalUnit<
    ArcStore<S>,
    RamOverlay,
>)
    requires
        store.content().len() <= usize::MAX,
    ensures
        is_fresh_unit(lu, store, "XBOOT0000000001"@),
{
    let volume = Volume::new(ArcStore(store), RamOverlay::new());
    LogicalUnit::new(volume)
}

/// Assemble a client's target: LUN 0 = system, LUN 1.. = games. A disk without
/// a store is left out.
pub fn build_target<S: BackingStore + ?Sized>(
    manager: &ClientManager<S>,
    client: &ClientConfig,
) -> (t: ScsiTarget<ArcStore<S>, RamOverlay>)
    requires
        manager.wf(),
    ensures
        t.wf(),
        are_fresh_units(t.luns@, client_units(manager, client@)),
{
    let iqn = client_iqn(client);
    let ghost p = client@;
    let mut luns: Vec<Option<LogicalUnit<ArcStore<S>, RamOverlay>>> = Vec::new();
    let ghost mut units: Seq<(Arc<S>, Seq<char>)> = Seq::empty();
    if let Some(store) = manager.get_store(client.system_disk_id.as_str()) {
        luns.push(Some(fresh_unit(store).with_serial(iqn.as_str())));
        proof {
            units = seq![(store, iqn_of(p))];
        }
    }
    let ghost front = units;
    let mut k: usize = 0;
    assert(units =~= front + game_units(manager, p.games, 0));
    while k < client.game_disk_ids.len()
        invariant
            k <= client.game_disk_ids@.len(),
            p == client@,
            manager.wf(),
            units == front + game_units(manager, p.games, k as int),
            are_fresh_units(luns@, units),
        decreases client.game_disk_ids@.len() - k,
    {
        assert(p.games[k as int] == client.game_disk_ids@[k as int]@);
        if let Some(store) = manager.get_store(client.game_disk_ids[k].as_str()) {
            luns.push(Some(fresh_unit(store)));
            proof {
                units = units.push((store, "XBOOT0000000001"@));
            }
        }
        k += 1;
        assert(units =~= front + game_units(manager, p.games, k as int));
    }
    assert(front + game_units(manager, p.games, p.games.len() as int) == client_units(manager, p));
    ScsiTarget::new(luns)
}

/// An answer to an HTTP request. A script is plain text.
#[derive(Debug)]
pub struct Response {
    pub status: u16,
    pub plain_text: bool,
    pub body: String,
}

/// `r` has this status and body, and is a script or not.
pub open spec fn is_response(r: Response, status: u16, plain_text: bool, body: Seq<char>) -> bool {
    r.status == status && r.plain_text == plain_text && r.body@ == body
}

fn not_found() -> (r: Response)
    ensures
        is_response(r, 404, false, "Not Found"@),
{
    Response { status: 404, plain_text: false, body: String::from_str("Not Found") }
}

fn bad_request(msg: &str) -> (r: Response)
    ensures
        is_response(r, 400, false, msg@),
{
    Response { status: 400, plain_text: false, body: String::from_str(msg) }
}

/// The address that a request asks to boot, or the status of its refusal: 404
/// for anything but `GET /boot.ipxe`, 400 where the address is missing.
pub open spec fn asked_mac(
    method: Seq<char>,
    path: Seq<char>,
    query: Option<Seq<char>>,
) -> Result<Seq<char>, u16> {
    if method != "GET"@ || path != "/boot.ipxe"@ {
        Err(404)
    } else {
        match query {
            None => Err(400),
            Some(q) => match mac_in(vstd::utf8::encode_utf8(q)) {
                Some(mac) => Ok(mac),
                None => Err(400),
            },
        }
    }
}

/// The profile that a request boots, or the status of its refusal: 404 also for
/// a client that is not known.
pub open spec fn booted<S: BackingStore + ?Sized>(
    manager: &ClientManager<S>,
    method: Seq<char>,
    path: Seq<char>,
    query: Option<Seq<char>>,
) -> Result<Profile, u16> {
    match asked_mac(method, path, query) {
        Err(status) => Err(status),
        Ok(mac) => match manager.profile(mac) {
            Some(p) => Ok(p),
            None => Err(404),
        },
    }
}

/// A request is answered by `r`: who is served, `Ok`, by its script, with a fresh
/// target registered under its name; who is not, by the status.
pub open spec fn answers<S: BackingStore + ?Sized>(
    who: Result<Profile, u16>,
    boot: BootConfig,
    manager: &ClientManager<S>,
    before: &TargetRegistry<ArcStore<S>, RamOverlay>,
    after: &TargetRegistry<ArcStore<S>, RamOverlay>,
    r: Response,
) -> bool {
    match who {
        Err(status) => {
            &&& is_response(
                r,
                status,
                false,
                if status == 400 {
                    "Missing 'mac' parameter"@
                } else {
                    "Not Found"@
                },
            )
            &&& *after == *before
        },
        Ok(p) => {
            &&& is_response(
                r,
                200,
                true,
                boot_script::script(iqn_of(p), addr::dotted_text(boot.server_ip.octets@)),
            )
            &&& exists|t: ScsiTarget<ArcStore<S>, RamOverlay>| #[trigger]
                after.registers(before, iqn_of(p), t) && are_fresh_units(
                    t.luns@,
                    client_units(manager, p),
                )
        },
    }
}

/// Handle one HTTP request. A client that is served gets a fresh target,
/// registered under its name, and the script that boots from it.
pub fn handle<S: BackingStore + ?Sized>(
    method: &str,
    path: &str,
    query: Option<&str>,
    boot: &BootConfig,
    manager: &ClientManager<S>,
    registry: &mut TargetRegistry<ArcStore<S>, RamOverlay>,
) -> (r: Response)
    requires
        manager.wf(),
        old(registry).wf(),
    ensures
        final(registry).wf(),
        answers(
            booted(manager, method@, path@, text_of(query)),
            *boot,
            manager,
            old(registry),
            final(registry),
            r,
        ),
{
    // Only GET /boot.ipxe
    if !text::same_text(method, "GET") || !text::same_text(path, "/boot.ipxe") {
        return not_found();
    }
    let found = match query {
        Some(q) => parse_mac_param(q),
        None => None,
    };
    let mac = match found {
        Some(m) => m,
        None => return bad_request("Missing 'mac' parameter"),
    };
    let client = match manager.resolve(mac.as_str()) {
        Some(c) => c,
        None => return not_found(),
    };
    let iqn = client_iqn(client);
    let target = build_target(manager, client);
    registry.insert(iqn.as_str(), target);
    let server_ip = boot.server_ip.dotted();
    let body = boot_script::generate(iqn.as_str(), server_ip.as_str());
    Response { status: 200, plain_text: true, body }
}

pub open spec fn text_of(s: Option<&str>) -> Option<Seq<char>> {
    match s {
        Some(t) => Some(t@),
        None => None,
    }
}

/// The target that a boot script names is registered when the script is
/// handed out, and held by nobody yet.
pub proof fn script_names_a_target<S: BackingStore + ?Sized>(
    before: &TargetRegistry<ArcStore<S>, RamOverlay>,
    after: &TargetRegistry<ArcStore<S>, RamOverlay>,
    p: Profile,
    t: ScsiTarget<ArcStore<S>, RamOverlay>,
)
    requires
        after.registers(before, iqn_of(p), t),
    ensures
        after.registered(iqn_of(p)),
        exists|id: usize| #[trigger]
            after.named(iqn_of(p), id) && after.present(id) && after.slots@[id as int]->0.target == t
                && !after.held(id),
{
    let id = choose|id: usize| #[trigger]
        after.named(iqn_of(p), id) && !before.present(id) && after.present(id)
            && after.slots@[id as int]->0.target == t && after.slots@[id as int]->0.holders == 0;
    assert(after.named(iqn_of(p), id) && after.present(id));
}

/// Every boot starts from the masters: what a client wrote before is gone, and
/// each unit reads as its store does.
pub proof fn boot_starts_from_the_masters<S: BackingStore + ?Sized>(
    t: ScsiTarget<ArcStore<S>, RamOverlay>,
    units: Seq<(Arc<S>, Seq<char>)>,
    i: int,
)
    requires
        are_fresh_units(t.luns@, units),
        0 <= i < units.len(),
    ensures
        t.luns@[i] is Some,
        t.luns@[i]->0.volume.content() == units[i].0.content(),
{
    assert(is_fresh_unit(t.luns@[i]->0, units[i].0, units[i].1));
    volume::empty_overlay_shows_master(units[i].0.content());
}

/// Text without a percent sign or anything outside ASCII decodes to itself.
pub proof fn plain_text_is_kept(s: Seq<char>)
    requires
        vstd::utf8::is_ascii_chars(s),
        !s.contains('%'),
    ensures
        decoded(vstd::utf8::encode_utf8(s)) == s,
    decreases s.len(),
{
    let b = vstd::utf8::encode_utf8(s);
    vstd::utf8::is_ascii_chars_encode_utf8(s);
    if s.len() == 0 {
        assert(decoded(b) =~= s);
    } else {
        let rest = s.drop_first();
        assert(s[0] != '%');
        assert forall|i: int| 0 <= i < rest.len() implies rest[i] != '%' by {
            assert(s[i + 1] != '%');
        }
        assert(vstd::utf8::is_ascii_chars(rest)) by {
            assert forall|i: int| 0 <= i < rest.len() implies '\0' <= #[trigger] rest[i]
                <= '\u{7f}' by {
                assert(rest[i] == s[i + 1]);
            }
        }
        plain_text_is_kept(rest);
        vstd::utf8::is_ascii_chars_encode_utf8(rest);
        assert(b.skip(1) =~= vstd::utf8::encode_utf8(rest)) by {
            assert forall|i: int| 0 <= i < rest.len() implies b.skip(1)[i]
                == vstd::utf8::encode_utf8(rest)[i] by {
                assert(b[i + 1] == s[i + 1] as u8);
                assert(rest[i] == s[i + 1]);
            }
        }
        assert(b[0] == s[0] as u8);
        assert(b[0] != 0x25);
        assert(b[0] as char == s[0]);
        assert(decoded(b) =~= s);
    }
}

/// A hexadecimal digit in lower case, or a colon.
spec fn is_mac_char(c: char) -> bool {
    '0' <= c <= '9' || 'a' <= c <= 'f' || c == ':'
}

proof fn mac_text_is_plain(b: Seq<u8>, k: int)
    ensures
        forall|i: int| 0 <= i < decide::mac_text(b, k).len() ==> is_mac_char(
            #[trigger] decide::mac_text(b, k)[i],
        ),
    decreases k,
{
    let all = decide::mac_text(b, k);
    if k == 1 {
        hex_is_plain(b[0]);
    } else if k > 1 {
        let front = decide::mac_text(b, k - 1);
        mac_text_is_plain(b, k - 1);
        hex_is_plain(b[k - 1]);
        reveal_strlit(":");
        assert forall|i: int| 0 <= i < all.len() implies is_mac_char(#[trigger] all[i]) by {
            if i < front.len() {
                assert(all[i] == front[i]);
            } else if i > front.len() {
                assert(all[i] == text::hex2(b[k - 1])[i - front.len() - 1]);
            }
        }
    }
}

proof fn hex_is_plain(b: u8)
    ensures
        text::hex2(b).len() == 2,
        is_mac_char(text::hex2(b)[0]),
        is_mac_char(text::hex2(b)[1]),
{
}

/// A client that iPXE boots by the URL that DHCP gave it is looked up by its own
/// hardware address.
pub proof fn planned_url_names_the_client(chaddr: Seq<u8>, k: int)
    ensures
        mac_in(vstd::utf8::encode_utf8("mac="@ + decide::mac_text(chaddr, k))) == Some(
            decide::mac_text(chaddr, k),
        ),
{
    let mac = decide::mac_text(chaddr, k);
    let q = "mac="@ + mac;
    let b = vstd::utf8::encode_utf8(q);
    mac_text_is_plain(chaddr, k);
    reveal_strlit("mac=");
    assert(vstd::utf8::is_ascii_chars(mac)) by {
        assert forall|i: int| 0 <= i < mac.len() implies '\0' <= #[trigger] mac[i] <= '\u{7f}' by {
            assert(is_mac_char(mac[i]));
        }
    }
    assert(vstd::utf8::is_ascii_chars(q)) by {
        assert forall|i: int| 0 <= i < q.len() implies '\0' <= #[trigger] q[i] <= '\u{7f}' by {
            if i >= 4 {
                assert(q[i] == mac[i - 4]);
            }
        }
    }
    vstd::utf8::is_ascii_chars_encode_utf8(q);
    vstd::utf8::is_ascii_chars_encode_utf8(mac);
    assert forall|i: int| 0 <= i < b.len() implies b[i] != 0x26 by {
        assert(b[i] == q[i] as u8);
        if i >= 4 {
            assert(is_mac_char(mac[i - 4]));
        }
    }
    text::find_is(b, 0x26, b.len() as int);
    assert(q[0] == 'm' && q[1] == 'a' && q[2] == 'c' && q[3] == '=');
    assert(b[0] == 0x6d && b[1] == 0x61 && b[2] == 0x63 && b[3] == 0x3d);
    assert(b.take(4) =~= mac_key());
    assert(b.skip(4) =~= vstd::utf8::encode_utf8(mac)) by {
        assert forall|i: int| 0 <= i < mac.len() implies b.skip(4)[i] == vstd::utf8::encode_utf8(
            mac,
        )[i] by {
            assert(b[i + 4] == q[i + 4] as u8);
            assert(mac[i] == q[i + 4]);
        }
    }
    assert(!mac.contains('%')) by {
        if mac.contains('%') {
            let i = choose|i: int| 0 <= i < mac.len() && mac[i] == '%';
            assert(is_mac_char(mac[i]));
        }
    }
    plain_text_is_kept(mac);
}

} // verus!
