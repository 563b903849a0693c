//! The configuration: mail stores, channels and groups, and lookup by name.
//!
//! Each type has a view that holds its texts as `Seq<char>`. Contracts speak
//! of the views.

use vstd::prelude::*;

verus! {

/// The port a store is reached on when its configuration names none.
pub const DEFAULT_PORT: u16 = 993;

/// The view of a text that may be absent.
pub open spec fn text_view(text: Option<String>) -> Option<Seq<char>> {
    match text {
        Some(t) => Some(t@),
        None => None,
    }
}

/// A remote mail account: where it is and how to log in.
#[derive(Debug, PartialEq, Eq)]
pub struct ImapStoreConfig {
    pub name: String,
    pub host: String,
    pub port: Option<u16>,
    pub user: String,
    pub pass: Option<String>,
    pub pass_command: Option<String>,
    pub cert_file: Option<String>,
}

/// What an [`ImapStoreConfig`] holds.
pub struct StoreView {
    pub name: Seq<char>,
    pub host: Seq<char>,
    pub port: Option<u16>,
    pub user: Seq<char>,
    pub pass: Option<Seq<char>>,
    pub pass_command: Option<Seq<char>>,
    pub cert_file: Option<Seq<char>>,
}

impl StoreView {
    /// A store of the given name with nothing else set.
    pub open spec fn named(name: Seq<char>) -> StoreView {
        StoreView {
            name,
            host: Seq::empty(),
            port: None,
            user: Seq::empty(),
            pass: None,
            pass_command: None,
            cert_file: None,
        }
    }

    /// The port to connect to: the configured one, or [`DEFAULT_PORT`].
    pub open spec fn port(self) -> u16 {
        match self.port {
            Some(p) => p,
            None => DEFAULT_PORT,
        }
    }

    /// The text by which a channel refers to this store: its name between
    /// two colons.
    pub open spec fn key(self) -> Seq<char> {
        seq![':'] + self.name + seq![':']
    }
}

impl View for ImapStoreConfig {
    type V = StoreView;

    open spec fn view(&self) -> StoreView {
        StoreView {
            name: self.name@,
            host: self.host@,
            port: self.port,
            user: self.user@,
            pass: text_view(self.pass),
            pass_command: text_view(self.pass_command),
            cert_file: text_view(self.cert_file),
        }
    }
}

/// A copy of a text that may be absent.
fn clone_text(text: &Option<String>) -> (copy: Option<String>)
    ensures
        text_view(copy) == text_view(*text),
{
    match text {
        Some(t) => Some(t.clone()),
        None => None,
    }
}

impl Clone for ImapStoreConfig {
    fn clone(&self) -> (copy: Self)
        ensures
            copy@ == self@,
    {
        ImapStoreConfig {
            name: self.name.clone(),
            host: self.host.clone(),
            port: self.port,
            user: self.user.clone(),
            pass: clone_text(&self.pass),
            pass_command: clone_text(&self.pass_command),
            cert_file: clone_text(&self.cert_file),
        }
    }
}

impl Default for ImapStoreConfig {
    fn default() -> (store: Self)
        ensures
            store@ == StoreView::named(Seq::empty()),
    {
        ImapStoreConfig {
            name: String::new(),
            host: String::new(),
            port: None,
            user: String::new(),
            pass: None,
            pass_command: None,
            cert_file: None,
        }
    }
}

impl ImapStoreConfig {
    /// The port to connect to: the configured one, or [`DEFAULT_PORT`].
    pub fn port(&self) -> (port: u16)
        ensures
            port == self@.port(),
    {
        match self.port {
            Some(port) => port,
            None => DEFAULT_PORT,
        }
    }

    /// The text by which a channel refers to this store.
    pub fn key(&self) -> (key: String)
        ensures
            key@ == self@.key(),
    {
        proof {
            reveal_strlit(":");
        }
        let mut key = ":".to_owned();
        key.append(self.name.as_str());
        key.append(":");
        assert(key@ =~= self@.key());
        key
    }
}

/// A synchronisation relationship between two stores, each given by the text
/// that refers to it.
#[derive(Debug, PartialEq, Eq)]
pub struct ChannelConfig {
    pub name: String,
    pub near: String,
    pub far: String,
}

/// What a [`ChannelConfig`] holds.
pub struct ChannelView {
    pub name: Seq<char>,
    pub near: Seq<char>,
    pub far: Seq<char>,
}

impl ChannelView {
    /// A channel of the given name that refers to no store yet.
    pub open spec fn named(name: Seq<char>) -> ChannelView {
        ChannelView { name, near: Seq::empty(), far: Seq::empty() }
    }
}

impl View for ChannelConfig {
    type V = ChannelView;

    open spec fn view(&self) -> ChannelView {
        ChannelView { name: self.name@, near: self.near@, far: self.far@ }
    }
}

impl Clone for ChannelConfig {
    fn clone(&self) -> (copy: Self)
        ensures
            copy@ == self@,
    {
        ChannelConfig { name: self.name.clone(), near: self.near.clone(), far: self.far.clone() }
    }
}

impl Default for ChannelConfig {
    fn default() -> (channel: Self)
        ensures
            channel@ == ChannelView::named(Seq::empty()),
    {
        ChannelConfig { name: String::new(), near: String::new(), far: String::new() }
    }
}

/// The views of pairs of texts.
pub open spec fn pair_views(pairs: Seq<(String, String)>) -> Seq<(Seq<char>, Seq<char>)> {
    Seq::new(pairs.len(), |i: int| (pairs[i].0@, pairs[i].1@))
}

/// A named list of channels, each with the mailbox to watch in it.
#[derive(Debug, PartialEq, Eq)]
pub struct GroupConfig {
    pub name: String,
    pub channels: Vec<(String, String)>,
}

/// What a [`GroupConfig`] holds: its name and its pairs of channel name and
/// mailbox name, in order.
pub struct GroupView {
    pub name: Seq<char>,
    pub channels: Seq<(Seq<char>, Seq<char>)>,
}

impl GroupView {
    /// A group of the given name without channels.
    pub open spec fn named(name: Seq<char>) -> GroupView {
        GroupView { name, channels: Seq::empty() }
    }
}

impl View for GroupConfig {
    type V = GroupView;

    open spec fn view(&self) -> GroupView {
        GroupView { name: self.name@, channels: pair_views(self.channels@) }
    }
}

/// A copy of a list of pairs.
fn clone_pairs(pairs: &Vec<(String, String)>) -> (copy: Vec<(String, String)>)
    ensures
        pair_views(copy@) == pair_views(pairs@),
{
    let mut copy: Vec<(String, String)> = Vec::new();
    let mut i: usize = 0;
    while i < pairs.len()
        invariant
            i <= pairs.len(),
            copy.len() == i,
            forall|j: int| 0 <= j < i ==> copy@[j].0@ == pairs@[j].0@ && copy@[j].1@ == pairs@[j].1@,
        decreases pairs.len() - i,
    {
        copy.push((pairs[i].0.clone(), pairs[i].1.clone()));
        i += 1;
    }
    assert(pair_views(copy@) =~= pair_views(pairs@));
    copy
}

impl Clone for GroupConfig {
    fn clone(&self) -> (copy: Self)
        ensures
            copy@ == self@,
    {
        GroupConfig { name: self.name.clone(), channels: clone_pairs(&self.channels) }
    }
}

impl Default for GroupConfig {
    fn default() -> (group: Self)
        ensures
            group@ == GroupView::named(Seq::empty()),
    {
        let group = GroupConfig { name: String::new(), channels: Vec::new() };
        assert(group@.channels =~= Seq::empty());
        group
    }
}

/// Everything that was configured, each kind in the order of its declaration.
#[derive(Debug, PartialEq, Eq)]
pub struct Config {
    pub channels: Vec<ChannelConfig>,
    pub imap_stores: Vec<ImapStoreConfig>,
    pub groups: Vec<GroupConfig>,
}

/// What a [`Config`] holds.
pub struct ConfigView {
    pub channels: Seq<ChannelView>,
    pub imap_stores: Seq<StoreView>,
    pub groups: Seq<GroupView>,
}

/// The index of the first of `names` that is `name`.
pub open spec fn first_named(names: Seq<Seq<char>>, name: Seq<char>) -> Option<int> {
    names.index_of_first(name)
}

/// Whether `i` is the index of the first of `names` that is `name`.
pub open spec fn is_first_named(names: Seq<Seq<char>>, name: Seq<char>, i: int) -> bool {
    &&& 0 <= i < names.len()
    &&& names[i] == name
    &&& forall|j: int| 0 <= j < i ==> names[j] != name
}

/// `first_named` gives the first index that holds the name, and none where no
/// index holds it.
pub proof fn lemma_first_named(names: Seq<Seq<char>>, name: Seq<char>)
    ensures
        match first_named(names, name) {
            Some(i) => is_first_named(names, name, i),
            None => forall|j: int| 0 <= j < names.len() ==> names[j] != name,
        },
{
    names.index_of_first_ensures(name);
}

/// The index with the property of `first_named` is the one it gives.
pub proof fn lemma_first_named_is(names: Seq<Seq<char>>, name: Seq<char>, i: int)
    requires
        is_first_named(names, name, i),
    ensures
        first_named(names, name) == Some(i),
{
    names.index_of_first_ensures(name);
    assert(names.contains(name));
}

impl ConfigView {
    /// The configuration that holds nothing.
    pub open spec fn empty() -> ConfigView {
        ConfigView { channels: Seq::empty(), imap_stores: Seq::empty(), groups: Seq::empty() }
    }

    /// The keys of the stores, in order.
    pub open spec fn store_keys(self) -> Seq<Seq<char>> {
        Seq::new(self.imap_stores.len(), |i: int| self.imap_stores[i].key())
    }

    /// The names of the channels, in order.
    pub open spec fn channel_names(self) -> Seq<Seq<char>> {
        Seq::new(self.channels.len(), |i: int| self.channels[i].name)
    }

    /// The names of the groups, in order.
    pub open spec fn group_names(self) -> Seq<Seq<char>> {
        Seq::new(self.groups.len(), |i: int| self.groups[i].name)
    }

    /// The first store whose key is `key`.
    pub open spec fn store(self, key: Seq<char>) -> Option<StoreView> {
        match first_named(self.store_keys(), key) {
            Some(i) => Some(self.imap_stores[i]),
            None => None,
        }
    }

    /// The first channel whose name is `name`.
    pub open spec fn channel(self, name: Seq<char>) -> Option<ChannelView> {
        match first_named(self.channel_names(), name) {
            Some(i) => Some(self.channels[i]),
            None => None,
        }
    }

    /// The first group whose name is `name`.
    pub open spec fn group(self, name: Seq<char>) -> Option<GroupView> {
        match first_named(self.group_names(), name) {
            Some(i) => Some(self.groups[i]),
            None => None,
        }
    }

    /// Whether no two stores share a name.
    pub open spec fn stores_distinct(self) -> bool {
        forall|i: int, j: int|
            0 <= i < j < self.imap_stores.len() ==> self.imap_stores[i].name
                != self.imap_stores[j].name
    }
}

/// Two names with the same key are the same name.
pub proof fn lemma_key_tells_name(a: StoreView, b: StoreView)
    requires
        a.key() == b.key(),
    ensures
        a.name == b.name,
{
    assert(a.name.len() == b.name.len()) by {
        assert(a.key().len() == a.name.len() + 2);
        assert(b.key().len() == b.name.len() + 2);
    }
    assert forall|i: int| 0 <= i < a.name.len() implies a.name[i] == b.name[i] by {
        assert(a.key()[i + 1] == a.name[i]);
        assert(b.key()[i + 1] == b.name[i]);
    }
    assert(a.name =~= b.name);
}

/// Where no two stores share a name, each store is the one that a lookup by
/// its key finds.
pub proof fn lemma_lookup_finds_each_store(config: ConfigView, i: int)
    requires
        config.stores_distinct(),
        0 <= i < config.imap_stores.len(),
    ensures
        config.store(config.imap_stores[i].key()) == Some(config.imap_stores[i]),
{
    let keys = config.store_keys();
    let key = config.imap_stores[i].key();
    assert forall|j: int| 0 <= j < i implies keys[j] != key by {
        if keys[j] == key {
            lemma_key_tells_name(config.imap_stores[j], config.imap_stores[i]);
        }
    }
    assert(keys[i] == key);
    lemma_first_named_is(keys, key, i);
}

/// A lookup finds nothing exactly when no store has the key, and what it
/// finds is a store of the configuration that has the key.
pub proof fn lemma_lookup_finds_only_stores(config: ConfigView, key: Seq<char>)
    ensures
        match config.store(key) {
            Some(store) => store.key() == key && config.imap_stores.contains(store),
            None => forall|i: int|
                0 <= i < config.imap_stores.len() ==> (#[trigger] config.imap_stores[i]).key()
                    != key,
        },
{
    let keys = config.store_keys();
    lemma_first_named(keys, key);
    match first_named(keys, key) {
        Some(i) => {
            assert(keys[i] == config.imap_stores[i].key());
        },
        None => {
            assert forall|i: int| 0 <= i < config.imap_stores.len() implies (
            #[trigger] config.imap_stores[i]).key() != key by {
                assert(keys[i] == config.imap_stores[i].key());
            }
        },
    }
}

/// The views of stores.
pub open spec fn store_views(stores: Seq<ImapStoreConfig>) -> Seq<StoreView> {
    Seq::new(stores.len(), |i: int| stores[i]@)
}

/// The views of channels.
pub open spec fn channel_views(channels: Seq<ChannelConfig>) -> Seq<ChannelView> {
    Seq::new(channels.len(), |i: int| channels[i]@)
}

/// The views of groups.
pub open spec fn group_views(groups: Seq<GroupConfig>) -> Seq<GroupView> {
    Seq::new(groups.len(), |i: int| groups[i]@)
}

impl View for Config {
    type V = ConfigView;

    open spec fn view(&self) -> ConfigView {
        ConfigView {
            channels: channel_views(self.channels@),
            imap_stores: store_views(self.imap_stores@),
            groups: group_views(self.groups@),
        }
    }
}

/// The view of a store that may be absent.
pub open spec fn found_store(found: Option<ImapStoreConfig>) -> Option<StoreView> {
    match found {
        Some(s) => Some(s@),
        None => None,
    }
}

/// The view of a channel that may be absent.
pub open spec fn found_channel(found: Option<ChannelConfig>) -> Option<ChannelView> {
    match found {
        Some(c) => Some(c@),
        None => None,
    }
}

/// The view of a group that may be absent.
pub open spec fn found_group(found: Option<GroupConfig>) -> Option<GroupView> {
    match found {
        Some(g) => Some(g@),
        None => None,
    }
}

impl Default for Config {
    fn default() -> (config: Self)
        ensures
            config@ == ConfigView::empty(),
    {
        let config = Config { channels: Vec::new(), imap_stores: Vec::new(), groups: Vec::new() };
        assert(config@.channels =~= Seq::empty());
        assert(config@.imap_stores =~= Seq::empty());
        assert(config@.groups =~= Seq::empty());
        config
    }
}

impl Config {
    /// Looks a store up by the text that refers to it, `:name:`. Where several
    /// stores have that name the first one declared is returned.
    pub fn find_imap_store(&self, name: &str) -> (found: Option<ImapStoreConfig>)
        ensures
            found_store(found) == self@.store(name@),
    {
        let wanted = name.to_owned();
        let ghost keys = self@.store_keys();
        let mut i: usize = 0;
        while i < self.imap_stores.len()
            invariant
                i <= self.imap_stores.len(),
                wanted@ == name@,
                keys == self@.store_keys(),
                forall|j: int| 0 <= j < i ==> keys[j] != name@,
            decreases self.imap_stores.len() - i,
        {
            let store = &self.imap_stores[i];
            let key = store.key();
            assert(keys[i as int] == key@);
            if key.eq(&wanted) {
                proof {
                    lemma_first_named_is(keys, name@, i as int);
                }
                return Some(store.clone());
            }
            i += 1;
        }
        proof {
            lemma_first_named(keys, name@);
        }
        None
    }

    /// Looks a channel up by its name. Where several channels have that name
    /// the first one declared is returned.
    pub fn find_channel(&self, name: &str) -> (found: Option<ChannelConfig>)
        ensures
            found_channel(found) == self@.channel(name@),
    {
        let wanted = name.to_owned();
        let ghost names = self@.channel_names();
        let mut i: usize = 0;
        while i < self.channels.len()
            invariant
                i <= self.channels.len(),
                wanted@ == name@,
                names == self@.channel_names(),
                forall|j: int| 0 <= j < i ==> names[j] != name@,
            decreases self.channels.len() - i,
        {
            let channel = &self.channels[i];
            assert(names[i as int] == channel.name@);
            if channel.name.eq(&wanted) {
                proof {
                    lemma_first_named_is(names, name@, i as int);
                }
                return Some(channel.clone());
            }
            i += 1;
        }
        proof {
            lemma_first_named(names, name@);
        }
        None
    }

    /// Looks a group up by its name. Where several groups have that name the
    /// first one declared is returned.
    pub fn find_group(&self, name: &str) -> (found: Option<GroupConfig>)
        ensures
            found_group(found) == self@.group(name@),
    {
        let wanted = name.to_owned();
        let ghost names = self@.group_names();
        let mut i: usize = 0;
        while i < self.groups.len()
            invariant
                i <= self.groups.len(),
                wanted@ == name@,
                names == self@.group_names(),
                forall|j: int| 0 <= j < i ==> names[j] != name@,
            decreases self.groups.len() - i,
        {
            let group = &self.groups[i];
            assert(names[i as int] == group.name@);
            if group.name.eq(&wanted) {
                proof {
                    lemma_first_named_is(names, name@, i as int);
                }
                return Some(group.clone());
            }
            i += 1;
        }
        proof {
            lemma_first_named(names, name@);
        }
        None
    }
}

} // verus!
