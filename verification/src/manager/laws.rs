//! Which profile a client gets, and which disks it leads to.
use std::sync::Arc;
use vstd::prelude::*;
use super::{ClientConfig, ClientManager, Profile};
use crate::config::model::{Config, Disk, DiskType};
use crate::config::validate;
use crate::storage::BackingStore;
use crate::text;

verus! {

/// No client is listed under `mac`, in whatever case.
pub open spec fn is_unlisted(cfg: Config, mac: Seq<char>) -> bool {
    forall|j: int|
        0 <= j < cfg.clients@.len() ==> text::lowercase((#[trigger] cfg.clients@[j]).mac@)
            != text::lowercase(mac)
}

/// Client `k` is the last that is listed under `mac`, in whatever case.
pub open spec fn is_last_listed(cfg: Config, mac: Seq<char>, k: int) -> bool {
    &&& 0 <= k < cfg.clients@.len()
    &&& text::lowercase(cfg.clients@[k].mac@) == text::lowercase(mac)
    &&& forall|j: int|
        k < j < cfg.clients@.len() ==> text::lowercase((#[trigger] cfg.clients@[j]).mac@)
            != text::lowercase(mac)
}

/// `p` names these disks: this system, these games, all of them and in order,
/// and this writeback disk.
pub open spec fn names_disks(
    p: Profile,
    system: Seq<char>,
    games: Seq<String>,
    writeback: Seq<char>,
) -> bool {
    &&& p.system == system
    &&& p.games.len() == games.len()
    &&& forall|g: int| 0 <= g < games.len() ==> #[trigger] p.games[g] == games[g]@
    &&& p.writeback == writeback
}

/// A client that is not listed gets the defaults, with all their games, and
/// neither name nor address of its own; without defaults it gets nothing.
pub proof fn unlisted_client_gets_the_defaults(cfg: Config, mac: Seq<char>)
    requires
        is_unlisted(cfg, mac),
    ensures
        cfg.client_defaults is None ==> super::resolved(cfg, mac) is None,
        cfg.client_defaults matches Some(d) ==> {
            &&& super::resolved(cfg, mac) matches Some(p)
            &&& names_disks(p, d.system@, d.games@, d.writeback@)
            &&& p.name is None
            &&& p.mac.len() == 0
        },
{
    let keys = super::client_keys(cfg.clients@);
    super::last_index_bounds(keys, text::lowercase(mac));
    if let Some(i) = super::last_index(keys, text::lowercase(mac)) {
        assert(keys[i] == text::lowercase(cfg.clients@[i].mac@));
    }
}

/// A client that is listed gets what the last entry under its address says,
/// all its games among it.
pub proof fn listed_client_gets_its_entry(cfg: Config, mac: Seq<char>, k: int)
    requires
        is_last_listed(cfg, mac, k),
    ensures
        ({
            let c = cfg.clients@[k];
            &&& super::resolved(cfg, mac) matches Some(p)
            &&& names_disks(p, c.system@, c.games@, c.writeback@)
            &&& p.mac == text::lowercase(c.mac@)
            &&& (c.name is None ==> p.name is None)
            &&& (c.name matches Some(name) ==> p.name == Some(name@))
        }),
{
    super::last_index_is(super::client_keys(cfg.clients@), text::lowercase(mac), k);
}

/// How many of the first `k` disks are images or games.
pub open spec fn count_served(disks: Seq<Disk>, k: int) -> int
    decreases k,
{
    if k <= 0 {
        0
    } else {
        count_served(disks, k - 1) + if disks[k - 1].disk_type == DiskType::Image || disks[k
            - 1].disk_type == DiskType::Game {
            1int
        } else {
            0int
        }
    }
}

proof fn served_counts(disks: Seq<Disk>, k: int)
    requires
        0 <= k <= disks.len(),
    ensures
        super::served(disks, k).len() == count_served(disks, k),
        0 <= count_served(disks, k) <= k,
        forall|i: int|
            0 <= i < k && (disks[i].disk_type == DiskType::Image || disks[i].disk_type
                == DiskType::Game) ==> 0 <= #[trigger] count_served(disks, i) < super::served(
                disks,
                k,
            ).len() && super::served(disks, k)[count_served(disks, i)] == i,
        forall|r: int|
            0 <= r < super::served(disks, k).len() ==> {
                let i = #[trigger] super::served(disks, k)[r];
                &&& 0 <= i < k
                &&& disks[i].disk_type == DiskType::Image || disks[i].disk_type == DiskType::Game
                &&& count_served(disks, i) == r
            },
    decreases k,
{
    if k > 0 {
        served_counts(disks, k - 1);
        let all = super::served(disks, k);
        let front = super::served(disks, k - 1);
        assert forall|r: int| 0 <= r < all.len() implies {
            let i = #[trigger] all[r];
            &&& 0 <= i < k
            &&& disks[i].disk_type == DiskType::Image || disks[i].disk_type == DiskType::Game
            &&& count_served(disks, i) == r
        } by {
            if r < front.len() {
                assert(all[r] == front[r]);
            }
        }
    }
}

/// A disk of the configuration leads to its own store: that which was opened in
/// its turn, among the images and games. Of two disks with one id the later
/// counts. An id that no image or game disk has leads to none.
pub proof fn disk_leads_to_its_store<S: BackingStore + ?Sized>(
    cfg: Config,
    m: ClientManager<S>,
    stores: Seq<Arc<S>>,
    id: Seq<char>,
)
    requires
        m.is_built(cfg, stores),
    ensures
        forall|i: int|
            0 <= i < cfg.disks@.len() && cfg.disks@[i].id@ == id && (cfg.disks@[i].disk_type
                == DiskType::Image || cfg.disks@[i].disk_type == DiskType::Game) && (forall|j: int|
                i < j < cfg.disks@.len() && (#[trigger] cfg.disks@[j]).id@ == id
                    ==> cfg.disks@[j].disk_type == DiskType::Writeback) ==> m.store(id) == Some(
                stores[#[trigger] count_served(cfg.disks@, i)],
            ),
        (forall|i: int|
            0 <= i < cfg.disks@.len() && (#[trigger] cfg.disks@[i]).id@ == id
                ==> cfg.disks@[i].disk_type == DiskType::Writeback) ==> m.store(id) is None,
{
    let disks = cfg.disks@;
    let ids = super::served_ids(disks);
    let places = super::all_served(disks);
    served_counts(disks, disks.len() as int);
    assert forall|i: int|
        0 <= i < disks.len() && disks[i].id@ == id && (disks[i].disk_type == DiskType::Image
            || disks[i].disk_type == DiskType::Game) && (forall|j: int|
            i < j < disks.len() && (#[trigger] disks[j]).id@ == id ==> disks[j].disk_type
                == DiskType::Writeback) implies m.store(id) == Some(
        stores[#[trigger] count_served(disks, i)],
    ) by {
        let r = count_served(disks, i);
        assert(places[r] == i);
        assert(ids[r] == id);
        assert forall|q: int| r < q < ids.len() implies ids[q] != id by {
            let j = places[q];
            if j < i {
                count_grows(disks, j, i);
            }
            assert(disks[j].id@ == ids[q]);
        }
        super::last_index_is(ids, id, r);
    }
    super::last_index_bounds(ids, id);
    if let Some(r) = super::last_index(ids, id) {
        let i = places[r];
        assert(disks[i].id@ == id);
    }
}

proof fn count_grows(disks: Seq<Disk>, i: int, j: int)
    requires
        0 <= i <= j,
    ensures
        count_served(disks, i) <= count_served(disks, j),
    decreases j,
{
    if i < j {
        count_grows(disks, i, j - 1);
    }
}

/// `id` is that of a disk of the type `kind`, and no later disk has it.
pub open spec fn is_disk(disks: Seq<Disk>, id: Seq<char>, kind: DiskType) -> bool {
    exists|i: int|
        0 <= i < disks.len() && (#[trigger] disks[i]).id@ == id && disks[i].disk_type == kind && (
        forall|j: int| i < j < disks.len() ==> (#[trigger] disks[j]).id@ != id)
}

proof fn sound_reference(disks: Seq<Disk>, k: int, id: Seq<char>)
    requires
        0 <= k <= disks.len(),
    ensures
        match validate::disk_with_id(disks, k, id) {
            Some(i) => {
                &&& 0 <= i < k
                &&& disks[i].id@ == id
                &&& forall|j: int| i < j < k ==> (#[trigger] disks[j]).id@ != id
            },
            None => forall|j: int| 0 <= j < k ==> (#[trigger] disks[j]).id@ != id,
        },
    decreases k,
{
    if k > 0 && disks[k - 1].id@ != id {
        sound_reference(disks, k - 1, id);
    }
}

proof fn reference_is_a_disk(disks: Seq<Disk>, id: Seq<char>, kind: DiskType, who: Seq<char>)
    requires
        validate::ref_problems(disks, id, kind, who).len() == 0,
    ensures
        is_disk(disks, id, kind),
{
    sound_reference(disks, disks.len() as int, id);
    let i = validate::disk_with_id(disks, disks.len() as int, id)->0;
    assert(disks[i].id@ == id);
}

proof fn profile_is_sound(
    disks: Seq<Disk>,
    system: Seq<char>,
    games: Seq<String>,
    writeback: Seq<char>,
    who: Seq<char>,
)
    requires
        validate::profile_problems(disks, system, games, writeback, who).len() == 0,
    ensures
        is_disk(disks, system, DiskType::Image),
        forall|g: int| 0 <= g < games.len() ==> is_disk(
            disks,
            (#[trigger] games[g])@,
            DiskType::Game,
        ),
        is_disk(disks, writeback, DiskType::Writeback),
{
    reference_is_a_disk(disks, system, DiskType::Image, who + ".system"@);
    reference_is_a_disk(disks, writeback, DiskType::Writeback, who + ".writeback"@);
    assert forall|g: int| 0 <= g < games.len() implies is_disk(
        disks,
        (#[trigger] games[g])@,
        DiskType::Game,
    ) by {
        super::sound_games(disks, games, games.len() as int, g, who + ".games"@);
        reference_is_a_disk(disks, games[g]@, DiskType::Game, who + ".games"@);
    }
}

/// In a configuration without problems every reference holds: of each client
/// and of the defaults, the system is an image, each game is a game disk, and
/// the writeback disk is one.
pub proof fn valid_configuration_names_its_disks(cfg: Config, root_is_dir: bool)
    requires
        validate::all_problems(cfg, root_is_dir).len() == 0,
    ensures
        forall|k: int|
            0 <= k < cfg.clients@.len() ==> {
                let c = #[trigger] cfg.clients@[k];
                &&& is_disk(cfg.disks@, c.system@, DiskType::Image)
                &&& forall|g: int|
                    0 <= g < c.games@.len() ==> is_disk(
                        cfg.disks@,
                        (#[trigger] c.games@[g])@,
                        DiskType::Game,
                    )
                &&& is_disk(cfg.disks@, c.writeback@, DiskType::Writeback)
            },
        cfg.client_defaults matches Some(d) ==> {
            &&& is_disk(cfg.disks@, d.system@, DiskType::Image)
            &&& forall|g: int|
                0 <= g < d.games@.len() ==> is_disk(
                    cfg.disks@,
                    (#[trigger] d.games@[g])@,
                    DiskType::Game,
                )
            &&& is_disk(cfg.disks@, d.writeback@, DiskType::Writeback)
        },
{
    let disks = cfg.disks@;
    assert forall|k: int| 0 <= k < cfg.clients@.len() implies {
        let c = #[trigger] cfg.clients@[k];
        &&& is_disk(disks, c.system@, DiskType::Image)
        &&& forall|g: int|
            0 <= g < c.games@.len() ==> is_disk(disks, (#[trigger] c.games@[g])@, DiskType::Game)
        &&& is_disk(disks, c.writeback@, DiskType::Writeback)
    } by {
        let c = cfg.clients@[k];
        super::sound_clients(disks, cfg.clients@, cfg.clients@.len() as int, k);
        profile_is_sound(
            disks,
            c.system@,
            c.games@,
            c.writeback@,
            validate::client_label(c),
        );
    }
    if let Some(d) = cfg.client_defaults {
        profile_is_sound(disks, d.system@, d.games@, d.writeback@, "client_defaults"@);
    }
}

/// In a configuration without problems, the defaults' system disk and each of
/// their games lead to the stores of a disk of that type.
pub proof fn valid_defaults_are_served<S: BackingStore + ?Sized>(
    cfg: Config,
    root_is_dir: bool,
    m: ClientManager<S>,
    stores: Seq<Arc<S>>,
    id: Seq<char>,
    kind: DiskType,
)
    requires
        validate::all_problems(cfg, root_is_dir).len() == 0,
        cfg.client_defaults matches Some(d) && (id == d.system@ && kind == DiskType::Image
            || kind == DiskType::Game && exists|g: int|
            0 <= g < d.games@.len() && (#[trigger] d.games@[g])@ == id),
        m.is_built(cfg, stores),
    ensures
        exists|i: int|
            0 <= i < cfg.disks@.len() && (#[trigger] cfg.disks@[i]).id@ == id
                && cfg.disks@[i].disk_type == kind && m.store(id) == Some(
                stores[count_served(cfg.disks@, i)],
            ),
{
    valid_configuration_names_its_disks(cfg, root_is_dir);
    disk_leads_to_its_store(cfg, m, stores, id);
    assert(is_disk(cfg.disks@, id, kind));
    let i = choose|i: int|
        0 <= i < cfg.disks@.len() && (#[trigger] cfg.disks@[i]).id@ == id && cfg.disks@[i].disk_type
            == kind && (forall|j: int|
            i < j < cfg.disks@.len() ==> (#[trigger] cfg.disks@[j]).id@ != id);
    let r = count_served(cfg.disks@, i);
    assert(cfg.disks@[i].id@ == id);
}

/// What a client is given names its disks as its configuration does.
pub proof fn configuration_is_the_profile(c: ClientConfig)
    ensures
        names_disks(c@, c.system_disk_id@, c.game_disk_ids@, c.writeback_disk_id@),
        c@.mac == c.mac@,
        c.name is None ==> c@.name is None,
        c.name matches Some(name) ==> c@.name == Some(name@),
{
}

/// A manager knows the clients of the configuration that it was built from: one
/// that is listed by the last entry under its address, one that is not by the
/// defaults, with all their games, and nobody else.
pub proof fn built_manager_knows_its_clients<S: BackingStore + ?Sized>(
    cfg: Config,
    m: ClientManager<S>,
    stores: Seq<Arc<S>>,
    mac: Seq<char>,
    k: int,
)
    requires
        m.is_built(cfg, stores),
    ensures
        is_last_listed(cfg, mac, k) ==> {
            let c = cfg.clients@[k];
            &&& m.profile(mac) matches Some(p)
            &&& names_disks(p, c.system@, c.games@, c.writeback@)
            &&& p.mac == text::lowercase(c.mac@)
        },
        is_unlisted(cfg, mac) ==> match cfg.client_defaults {
            Some(d) => m.profile(mac) matches Some(p) && names_disks(
                p,
                d.system@,
                d.games@,
                d.writeback@,
            ),
            None => m.profile(mac) is None,
        },
{
    assert(m.profile(mac) == super::resolved(cfg, mac));
    if is_last_listed(cfg, mac, k) {
        listed_client_gets_its_entry(cfg, mac, k);
    }
    if is_unlisted(cfg, mac) {
        unlisted_client_gets_the_defaults(cfg, mac);
    }
}

} // verus!
