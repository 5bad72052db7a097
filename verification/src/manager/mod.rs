//! Clients by MAC address, and the read-only disks they boot from.
pub mod laws;

use std::sync::Arc;
use vstd::prelude::*;
use crate::config::model::{Client, ClientDefaults, Config, Disk, DiskType};
use crate::config::validate;
use crate::storage::{BackingStore, StorageError};
use crate::text;

verus! {

/// Resolved configuration for one client.
#[derive(Debug)]
pub struct ClientConfig {
    pub mac: String,
    pub name: Option<String>,
    pub system_disk_id: String,
    pub game_disk_ids: Vec<String>,
    pub writeback_disk_id: String,
}

/// What a `ClientConfig` says.
pub struct Profile {
    pub mac: Seq<char>,
    pub name: Option<Seq<char>>,
    pub system: Seq<char>,
    pub games: Seq<Seq<char>>,
    pub writeback: Seq<char>,
}

/// The texts of a list of strings.
pub open spec fn texts(list: Seq<String>) -> Seq<Seq<char>> {
    Seq::new(list.len(), |i: int| list[i]@)
}

pub open spec fn text_of(s: Option<String>) -> Option<Seq<char>> {
    match s {
        Some(t) => Some(t@),
        None => None,
    }
}

impl View for ClientConfig {
    type V = Profile;

    open spec fn view(&self) -> Profile {
        Profile {
            mac: self.mac@,
            name: text_of(self.name),
            system: self.system_disk_id@,
            games: texts(self.game_disk_ids@),
            writeback: self.writeback_disk_id@,
        }
    }
}

#[derive(Debug)]
pub enum BuildError {
    /// The client defaults name a disk that there is none of.
    UnknownDisk(String),
    /// A backing store could not be opened.
    OpenBacking { path: String, source: StorageError },
}

impl BuildError {
    /// The error in words.
    pub open spec fn text(&self) -> Seq<char> {
        match self {
            BuildError::UnknownDisk(id) => "client_defaults references unknown disk '"@ + id@
                + "'"@,
            BuildError::OpenBacking { path, source } => "failed to open backing store '"@ + path@
                + "': "@ + source.text(),
        }
    }

    /// The error in words.
    pub fn message(&self) -> (m: String)
        ensures
            m@ == self.text(),
    {
        match self {
            BuildError::UnknownDisk(id) => {
                let mut m: String = String::from_str("client_defaults references unknown disk '");
                m.append(id.as_str());
                m.append("'");
                m
            },
            BuildError::OpenBacking { path, source } => {
                let mut m: String = String::from_str("failed to open backing store '");
                m.append(path.as_str());
                m.append("': ");
                m.append(source.message().as_str());
                m
            },
        }
    }
}

/// A store that many volumes share.
pub struct ArcStore<S: ?Sized>(pub Arc<S>);

impl<S: BackingStore + ?Sized> BackingStore for ArcStore<S> {
    open spec fn content(&self) -> Seq<u8> {
        self.0.content()
    }

    open spec fn readable(&self, i: int) -> bool {
        self.0.readable(i)
    }

    fn size_bytes(&self) -> (n: u64) {
        self.0.size_bytes()
    }

    fn read_at(&self, offset: u64, buf: &mut [u8]) -> (r: Result<(), StorageError>) {
        assert(forall|i: int| #[trigger] self.0.readable(i) == self.readable(i));
        self.0.read_at(offset, buf)
    }
}

/// `Arc::clone`: another handle on the same store.
#[verifier::external_body]
fn share<S: ?Sized>(store: &Arc<S>) -> (handle: Arc<S>)
    ensures
        handle == *store,
{
    store.clone()
}

/// Where the last `key` stands in `keys`.
pub open spec fn last_index(keys: Seq<Seq<char>>, key: Seq<char>) -> Option<int>
    decreases keys.len(),
{
    if keys.len() == 0 {
        None
    } else if keys.last() == key {
        Some(keys.len() - 1)
    } else {
        last_index(keys.drop_last(), key)
    }
}

proof fn last_index_is(keys: Seq<Seq<char>>, key: Seq<char>, i: int)
    requires
        0 <= i < keys.len(),
        keys[i] == key,
        forall|j: int| i < j < keys.len() ==> keys[j] != key,
    ensures
        last_index(keys, key) == Some(i),
    decreases keys.len(),
{
    if i < keys.len() - 1 {
        last_index_is(keys.drop_last(), key, i);
    }
}

proof fn last_index_bounds(keys: Seq<Seq<char>>, key: Seq<char>)
    ensures
        last_index(keys, key) matches Some(i) ==> 0 <= i < keys.len() && keys[i] == key,
        last_index(keys, key) is None ==> forall|j: int| 0 <= j < keys.len() ==> keys[j] != key,
    decreases keys.len(),
{
    if keys.len() > 0 && keys.last() != key {
        last_index_bounds(keys.drop_last(), key);
        if last_index(keys, key) is None {
            assert forall|j: int| 0 <= j < keys.len() implies keys[j] != key by {
                if j < keys.len() - 1 {
                    assert(keys.drop_last()[j] != key);
                }
            }
        }
    }
}

/// The lower-case MAC addresses of the clients.
pub open spec fn client_keys(clients: Seq<Client>) -> Seq<Seq<char>> {
    Seq::new(clients.len(), |i: int| text::lowercase(clients[i].mac@))
}

/// The profile of a listed client.
pub open spec fn client_profile(c: Client) -> Profile {
    Profile {
        mac: text::lowercase(c.mac@),
        name: text_of(c.name),
        system: c.system@,
        games: texts(c.games@),
        writeback: c.writeback@,
    }
}

/// The profile of a client that is not listed.
pub open spec fn default_profile(d: ClientDefaults) -> Profile {
    Profile {
        mac: Seq::empty(),
        name: None,
        system: d.system@,
        games: texts(d.games@),
        writeback: d.writeback@,
    }
}

/// The profile that `cfg` gives the client with the address `mac`: that of the
/// last client listed under it, in whatever case, or else the defaults.
pub open spec fn resolved(cfg: Config, mac: Seq<char>) -> Option<Profile> {
    match last_index(client_keys(cfg.clients@), text::lowercase(mac)) {
        Some(i) => Some(client_profile(cfg.clients@[i])),
        None => match cfg.client_defaults {
            Some(d) => Some(default_profile(d)),
            None => None,
        },
    }
}

/// A disk that clients read from: an image or a game disk.
pub open spec fn is_served(d: Disk) -> bool {
    d.disk_type == DiskType::Image || d.disk_type == DiskType::Game
}

/// The places of those of the first `k` disks that clients read from.
pub open spec fn served(disks: Seq<Disk>, k: int) -> Seq<int>
    decreases k,
{
    if k <= 0 {
        Seq::empty()
    } else if is_served(disks[k - 1]) {
        served(disks, k - 1).push(k - 1)
    } else {
        served(disks, k - 1)
    }
}

/// The places of the disks that clients read from.
pub open spec fn all_served(disks: Seq<Disk>) -> Seq<int> {
    served(disks, disks.len() as int)
}

/// The ids of the disks that clients read from.
pub open spec fn served_ids(disks: Seq<Disk>) -> Seq<Seq<char>> {
    ids_of(disks, all_served(disks))
}

/// The ids of the disks at `places`.
pub open spec fn ids_of(disks: Seq<Disk>, places: Seq<int>) -> Seq<Seq<char>> {
    Seq::new(places.len(), |i: int| disks[places[i]].id@)
}

/// The places of the disks whose backing stores `ClientManager::new` wants, in
/// order.
pub fn served_disks(disks: &[Disk]) -> (places: Vec<usize>)
    ensures
        places@.len() == all_served(disks@).len(),
        forall|i: int| 0 <= i < places@.len() ==> #[trigger] places@[i] == all_served(disks@)[i],
        forall|i: int| 0 <= i < places@.len() ==> #[trigger] places@[i] < disks@.len(),
{
    let mut places: Vec<usize> = Vec::new();
    let mut k: usize = 0;
    while k < disks.len()
        invariant
            k <= disks@.len(),
            places@.len() == served(disks@, k as int).len(),
            forall|i: int| 0 <= i < places@.len() ==> #[trigger] places@[i] == served(
                disks@,
                k as int,
            )[i],
            forall|i: int| 0 <= i < places@.len() ==> #[trigger] places@[i] < k,
        decreases disks@.len() - k,
    {
        let t: DiskType = disks[k].disk_type;
        if t == DiskType::Image || t == DiskType::Game {
            places.push(k);
        }
        k += 1;
    }
    places
}

/// Copies of the strings of a list.
fn clone_list(list: &Vec<String>) -> (out: Vec<String>)
    ensures
        texts(out@) == texts(list@),
{
    let mut out: Vec<String> = Vec::new();
    let mut i: usize = 0;
    while i < list.len()
        invariant
            i <= list@.len(),
            out@.len() == i,
            forall|j: int| 0 <= j < i ==> (#[trigger] out@[j])@ == list@[j]@,
        decreases list@.len() - i,
    {
        out.push(list[i].clone());
        i += 1;
    }
    assert(texts(out@) =~= texts(list@));
    out
}

/// Maps MAC addresses to client configurations and keeps the opened read-only
/// backing stores.
pub struct ClientManager<S: ?Sized> {
    clients: Vec<ClientConfig>,
    defaults: Option<ClientConfig>,
    ids: Vec<String>,
    stores: Vec<Arc<S>>,
}

impl<S: BackingStore + ?Sized> ClientManager<S> {
    spec fn keys(&self) -> Seq<Seq<char>> {
        Seq::new(self.clients@.len(), |i: int| self.clients@[i].mac@)
    }

    /// The profile of the client with the address `mac`.
    pub closed spec fn profile(&self, mac: Seq<char>) -> Option<Profile> {
        match last_index(self.keys(), text::lowercase(mac)) {
            Some(i) => Some(self.clients@[i]@),
            None => match self.defaults {
                Some(d) => Some(d@),
                None => None,
            },
        }
    }

    /// The store of the disk `id`.
    pub closed spec fn store(&self, id: Seq<char>) -> Option<Arc<S>> {
        match last_index(texts(self.ids@), id) {
            Some(i) => Some(self.stores@[i]),
            None => None,
        }
    }

    /// There is one store for each id, none larger than memory addresses reach.
    pub closed spec fn wf(&self) -> bool {
        &&& self.ids@.len() == self.stores@.len()
        &&& forall|i: int| 0 <= i < self.stores@.len() ==> (#[trigger] self.stores@[i]).content().len()
            <= usize::MAX
    }

    /// This manager knows the clients of `cfg`, and each disk that is served by the
    /// store that was opened for it.
    pub open spec fn is_built(&self, cfg: Config, stores: Seq<Arc<S>>) -> bool {
        &&& forall|mac: Seq<char>| #[trigger] self.profile(mac) == resolved(cfg, mac)
        &&& forall|id: Seq<char>| #[trigger]
            self.store(id) == match last_index(served_ids(cfg.disks@), id) {
                Some(i) => Some(stores[i]),
                None => None,
            }
    }

    /// Build the manager from a configuration and its opened backing stores:
    /// those of `served_disks`, in order, or the place among them of the first
    /// that did not open and why.
    pub fn new(cfg: &Config, opened: Result<Vec<Arc<S>>, (usize, StorageError)>) -> (r: Result<
        Self,
        BuildError,
    >)
        requires
            opened matches Ok(stores) ==> {
                &&& stores@.len() == all_served(cfg.disks@).len()
                &&& forall|i: int| 0 <= i < stores@.len() ==> (
                #[trigger] stores@[i]).content().len() <= usize::MAX
            },
            opened matches Err(e) ==> e.0 < all_served(cfg.disks@).len(),
        ensures
            opened matches Ok(stores) ==> r matches Ok(m) && {
                &&& m.wf()
                &&& m.is_built(*cfg, stores@)
            },
            opened matches Err(e) ==> r matches Err(BuildError::OpenBacking { path, source })
                && path@ == cfg.disks@[all_served(cfg.disks@)[e.0 as int]].backing@ && source
                == e.1,
    {
        let places = served_disks(cfg.disks.as_slice());
        let stores = match opened {
            Ok(stores) => stores,
            Err((i, source)) => {
                let path = cfg.disks[places[i]].backing.clone();
                return Err(BuildError::OpenBacking { path, source });
            },
        };
        let mut clients: Vec<ClientConfig> = Vec::new();
        let mut k: usize = 0;
        while k < cfg.clients.len()
            invariant
                k <= cfg.clients@.len(),
                clients@.len() == k,
                forall|j: int| 0 <= j < k ==> (#[trigger] clients@[j])@ == client_profile(
                    cfg.clients@[j],
                ),
            decreases cfg.clients@.len() - k,
        {
            let c = &cfg.clients[k];
            let name: Option<String> = match &c.name {
                Some(n) => Some(n.clone()),
                None => None,
            };
            clients.push(
                ClientConfig {
                    mac: text::to_lowercase(c.mac.as_str()),
                    name,
                    system_disk_id: c.system.clone(),
                    game_disk_ids: clone_list(&c.games),
                    writeback_disk_id: c.writeback.clone(),
                },
            );
            k += 1;
        }
        let defaults: Option<ClientConfig> = match &cfg.client_defaults {
            Some(d) => Some(
                ClientConfig {
                    mac: String::new(),
                    name: None,
                    system_disk_id: d.system.clone(),
                    game_disk_ids: clone_list(&d.games),
                    writeback_disk_id: d.writeback.clone(),
                },
            ),
            None => None,
        };
        let mut ids: Vec<String> = Vec::new();
        let mut i: usize = 0;
        while i < places.len()
            invariant
                i <= places@.len(),
                places@.len() == all_served(cfg.disks@).len(),
                forall|j: int| 0 <= j < places@.len() ==> #[trigger] places@[j] == all_served(
                    cfg.disks@,
                )[j],
                forall|j: int| 0 <= j < places@.len() ==> #[trigger] places@[j] < cfg.disks@.len(),
                ids@.len() == i,
                forall|j: int| 0 <= j < i ==> (#[trigger] ids@[j])@
                    == cfg.disks@[all_served(cfg.disks@)[j]].id@,
            decreases places@.len() - i,
        {
            ids.push(cfg.disks[places[i]].id.clone());
            i += 1;
        }
        let m = ClientManager { clients, defaults, ids, stores };
        proof {
            assert(m.keys() =~= client_keys(cfg.clients@)) by {
                assert forall|j: int| 0 <= j < m.keys().len() implies m.keys()[j] == client_keys(
                    cfg.clients@,
                )[j] by {
                    assert(clients@[j]@ == client_profile(cfg.clients@[j]));
                }
            }
            assert(texts(m.ids@) =~= served_ids(cfg.disks@));
            assert forall|mac: Seq<char>| #[trigger] m.profile(mac) == resolved(*cfg, mac) by {
                last_index_bounds(m.keys(), text::lowercase(mac));
            }
            assert forall|id: Seq<char>| #[trigger]
                m.store(id) == (match last_index(served_ids(cfg.disks@), id) {
                    Some(i) => Some(stores@[i]),
                    None => None,
                }) by {
                last_index_bounds(texts(m.ids@), id);
            }
        }
        Ok(m)
    }

    /// Resolve a MAC address to a client config. Falls back to the defaults.
    pub fn resolve(&self, mac: &str) -> (r: Option<&ClientConfig>)
        ensures
            r matches Some(c) ==> self.profile(mac@) == Some(c@),
            r is None ==> self.profile(mac@) is None,
    {
        let key = text::to_lowercase(mac);
        let mut i: usize = self.clients.len();
        while i > 0
            invariant
                i <= self.clients@.len(),
                key@ == text::lowercase(mac@),
                forall|j: int| i <= j < self.keys().len() ==> #[trigger] self.keys()[j] != key@,
            decreases i,
        {
            i -= 1;
            if text::same_text(self.clients[i].mac.as_str(), key.as_str()) {
                proof {
                    last_index_is(self.keys(), key@, i as int);
                }
                return Some(&self.clients[i]);
            }
        }
        proof {
            last_index_bounds(self.keys(), key@);
        }
        self.defaults.as_ref()
    }

    /// Another handle on the read-only backing store of a disk.
    pub fn get_store(&self, disk_id: &str) -> (r: Option<Arc<S>>)
        requires
            self.wf(),
        ensures
            r == self.store(disk_id@),
            r matches Some(s) ==> s.content().len() <= usize::MAX,
    {
        let mut i: usize = self.ids.len();
        while i > 0
            invariant
                i <= self.ids@.len(),
                self.wf(),
                forall|j: int| i <= j < texts(self.ids@).len() ==> #[trigger] texts(self.ids@)[j]
                    != disk_id@,
            decreases i,
        {
            i -= 1;
            if text::same_text(self.ids[i].as_str(), disk_id) {
                proof {
                    last_index_is(texts(self.ids@), disk_id@, i as int);
                }
                return Some(share(&self.stores[i]));
            }
        }
        proof {
            last_index_bounds(texts(self.ids@), disk_id@);
        }
        None
    }
}

/// A client is found whatever the case of the letters in its MAC address.
pub proof fn resolve_ignores_case(cfg: Config, mac: Seq<char>, other: Seq<char>)
    requires
        validate::valid_mac(mac),
        validate::valid_mac(other),
        text::same_ignoring_case(mac, other),
    ensures
        resolved(cfg, mac) == resolved(cfg, other),
{
    assert(vstd::utf8::is_ascii_chars(mac)) by {
        assert forall|i: int| 0 <= i < mac.len() implies 0 <= (#[trigger] mac[i] as nat) < 128 by {
            assert(i % 3 == 2 ==> mac[i] == ':');
        }
    }
    assert(vstd::utf8::is_ascii_chars(other)) by {
        assert forall|i: int| 0 <= i < other.len() implies 0 <= (#[trigger] other[i] as nat) < 128 by {
            assert(i % 3 == 2 ==> other[i] == ':');
        }
    }
}

/// A client that no later client is listed over gets its own profile.
pub proof fn listed_client_gets_its_profile(cfg: Config, k: int)
    requires
        0 <= k < cfg.clients@.len(),
        forall|j: int| k < j < cfg.clients@.len() ==> text::lowercase(
            (#[trigger] cfg.clients@[j]).mac@,
        ) != text::lowercase(cfg.clients@[k].mac@),
    ensures
        resolved(cfg, cfg.clients@[k].mac@) == Some(client_profile(cfg.clients@[k])),
{
    last_index_is(client_keys(cfg.clients@), text::lowercase(cfg.clients@[k].mac@), k);
}

/// `id` leads to a served disk of the type `kind`.
pub open spec fn leads_to(disks: Seq<Disk>, id: Seq<char>, kind: DiskType) -> bool {
    last_index(served_ids(disks), id) matches Some(i) && disks[all_served(disks)[i]].disk_type
        == kind && disks[all_served(disks)[i]].id@ == id
}

proof fn served_lookup(disks: Seq<Disk>, k: int, id: Seq<char>)
    requires
        0 <= k <= disks.len(),
        validate::disk_with_id(disks, k, id) matches Some(i) && is_served(disks[i]),
    ensures
        last_index(ids_of(disks, served(disks, k)), id) matches Some(j) && 0 <= j < served(
            disks,
            k,
        ).len() && Some(served(disks, k)[j]) == validate::disk_with_id(disks, k, id),
        disks[validate::disk_with_id(disks, k, id)->0].id@ == id,
    decreases k,
{
    let ids = ids_of(disks, served(disks, k));
    if disks[k - 1].id@ == id {
        last_index_is(ids, id, ids.len() - 1);
    } else {
        served_lookup(disks, k - 1, id);
        if is_served(disks[k - 1]) {
            assert(ids.drop_last() =~= ids_of(disks, served(disks, k - 1)));
        }
    }
}

proof fn sound_reference_is_served(disks: Seq<Disk>, id: Seq<char>, kind: DiskType, who: Seq<char>)
    requires
        validate::ref_problems(disks, id, kind, who).len() == 0,
        kind == DiskType::Image || kind == DiskType::Game,
    ensures
        leads_to(disks, id, kind),
{
    served_lookup(disks, disks.len() as int, id);
}

proof fn sound_games(disks: Seq<Disk>, games: Seq<String>, k: int, g: int, who: Seq<char>)
    requires
        0 <= g < k <= games.len(),
        validate::game_problems(disks, games, k, who).len() == 0,
    ensures
        validate::ref_problems(disks, games[g]@, DiskType::Game, who).len() == 0,
    decreases k,
{
    if g < k - 1 {
        sound_games(disks, games, k - 1, g, who);
    }
}

proof fn sound_clients(disks: Seq<Disk>, clients: Seq<Client>, k: int, c: int)
    requires
        0 <= c < k <= clients.len(),
        validate::client_problems(disks, clients, k).len() == 0,
    ensures
        validate::profile_problems(
            disks,
            clients[c].system@,
            clients[c].games@,
            clients[c].writeback@,
            validate::client_label(clients[c]),
        ).len() == 0,
    decreases k,
{
    if c < k - 1 {
        sound_clients(disks, clients, k - 1, c);
    }
}

/// In a configuration without problems, the system disk of every client is an
/// image, its games are game disks, and all of them are served.
pub proof fn valid_references_are_served(cfg: Config, root_is_dir: bool, k: int)
    requires
        validate::all_problems(cfg, root_is_dir).len() == 0,
        0 <= k < cfg.clients@.len(),
    ensures
        leads_to(cfg.disks@, cfg.clients@[k].system@, DiskType::Image),
        forall|g: int| 0 <= g < cfg.clients@[k].games@.len() ==> leads_to(
            cfg.disks@,
            (#[trigger] cfg.clients@[k].games@[g])@,
            DiskType::Game,
        ),
{
    let disks = cfg.disks@;
    let c = cfg.clients@[k];
    let who = validate::client_label(c);
    sound_clients(disks, cfg.clients@, cfg.clients@.len() as int, k);
    sound_reference_is_served(disks, c.system@, DiskType::Image, who + ".system"@);
    assert forall|g: int| 0 <= g < c.games@.len() implies leads_to(
        disks,
        (#[trigger] c.games@[g])@,
        DiskType::Game,
    ) by {
        sound_games(disks, c.games@, c.games@.len() as int, g, who + ".games"@);
        sound_reference_is_served(disks, c.games@[g]@, DiskType::Game, who + ".games"@);
    }
}

} // verus!
