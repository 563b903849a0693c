//! The supervisor: which mailboxes to watch, and where each watcher stands.

use crate::config::{ChannelConfig, ChannelView, Config, ConfigView, ImapStoreConfig, StoreView};
use crate::text::text_views;
use crate::watcher::{WatcherAction, WatcherEvent, WatcherState};
use vstd::prelude::*;

verus! {

/// The mailbox that is watched where no group says which.
pub open spec fn inbox() -> Seq<char> {
    "INBOX"@
}

/// One mailbox to watch: the channel it belongs to and the store to ask.
#[derive(Debug, PartialEq, Eq)]
pub struct WatchTarget {
    pub channel: String,
    pub mailbox: String,
    pub store: ImapStoreConfig,
}

/// What a [`WatchTarget`] holds.
pub struct TargetView {
    pub channel: Seq<char>,
    pub mailbox: Seq<char>,
    pub store: StoreView,
}

impl TargetView {
    /// What the synchronisation is told to work on: the channel's name, a
    /// colon, and the mailbox's name.
    pub open spec fn sync_argument(self) -> Seq<char> {
        self.channel + seq![':'] + self.mailbox
    }

    /// The arguments that the synchronisation is started with: the flag
    /// `--all`, then what to work on.
    pub open spec fn sync_arguments(self) -> Seq<Seq<char>> {
        seq!["--all"@, self.sync_argument()]
    }
}

impl View for WatchTarget {
    type V = TargetView;

    open spec fn view(&self) -> TargetView {
        TargetView { channel: self.channel@, mailbox: self.mailbox@, store: self.store@ }
    }
}

impl WatchTarget {
    /// What the synchronisation is told to work on.
    pub fn sync_argument(&self) -> (argument: String)
        ensures
            argument@ == self@.sync_argument(),
    {
        proof {
            reveal_strlit(":");
        }
        let mut argument = self.channel.clone();
        argument.append(":");
        argument.append(self.mailbox.as_str());
        assert(argument@ =~= self@.sync_argument());
        argument
    }

    /// The arguments that the synchronisation is started with.
    pub fn sync_arguments(&self) -> (arguments: Vec<String>)
        ensures
            text_views(arguments@) == self@.sync_arguments(),
    {
        let mut arguments: Vec<String> = Vec::new();
        arguments.push("--all".to_owned());
        arguments.push(self.sync_argument());
        assert(text_views(arguments@) =~= self@.sync_arguments());
        arguments
    }
}

/// Why an entry gives no mailbox to watch.
#[derive(Clone, Copy, Debug, PartialEq, Eq, Structural)]
pub enum EntryFault {
    /// No channel has the name that the entry gives.
    NoChannel,
    /// The entry names no mailbox.
    NoMailbox,
    /// No store has the name that the channel gives as its far side.
    NoStore,
}

/// Why a configuration gives no list of mailboxes to watch.
#[derive(Clone, Copy, Debug, PartialEq, Eq, Structural)]
pub enum ReferenceError {
    /// No group has the name asked for.
    NoGroup,
    /// The entry with this index, counted from 0, is the first that gives no
    /// mailbox to watch.
    Entry { entry: usize, fault: EntryFault },
}

impl ConfigView {
    /// The target that watches `mailbox` through `channel`: it needs a mailbox
    /// name, and the store that the channel names as its far side.
    pub open spec fn channel_target(self, channel: ChannelView, mailbox: Seq<char>) -> Result<
        TargetView,
        EntryFault,
    > {
        if mailbox.len() == 0 {
            Err(EntryFault::NoMailbox)
        } else {
            match self.store(channel.far) {
                None => Err(EntryFault::NoStore),
                Some(store) => Ok(TargetView { channel: channel.name, mailbox, store }),
            }
        }
    }

    /// The target that an entry of a group gives: the entry's channel has to
    /// exist, then as `channel_target` says.
    pub open spec fn entry_target(self, entry: (Seq<char>, Seq<char>)) -> Result<
        TargetView,
        EntryFault,
    > {
        match self.channel(entry.0) {
            None => Err(EntryFault::NoChannel),
            Some(channel) => self.channel_target(channel, entry.1),
        }
    }
}

/// The view of a target or of the reason why there is none.
pub open spec fn resolved_view(resolved: Result<WatchTarget, EntryFault>) -> Result<
    TargetView,
    EntryFault,
> {
    match resolved {
        Ok(target) => Ok(target@),
        Err(fault) => Err(fault),
    }
}

impl Config {
    /// The target that watches `mailbox` through `channel`.
    pub fn channel_target(&self, channel: &ChannelConfig, mailbox: &str) -> (resolved: Result<
        WatchTarget,
        EntryFault,
    >)
        ensures
            resolved_view(resolved) == self@.channel_target(channel@, mailbox@),
    {
        if mailbox.is_empty() {
            return Err(EntryFault::NoMailbox);
        }
        match self.find_imap_store(channel.far.as_str()) {
            None => Err(EntryFault::NoStore),
            Some(store) => Ok(
                WatchTarget { channel: channel.name.clone(), mailbox: mailbox.to_owned(), store },
            ),
        }
    }

    /// The target that an entry of a group gives.
    pub fn entry_target(&self, channel: &str, mailbox: &str) -> (resolved: Result<
        WatchTarget,
        EntryFault,
    >)
        ensures
            resolved_view(resolved) == self@.entry_target((channel@, mailbox@)),
    {
        match self.find_channel(channel) {
            None => Err(EntryFault::NoChannel),
            Some(found) => self.channel_target(&found, mailbox),
        }
    }

    /// The mailboxes to watch for a group: one target for each of its
    /// entries, in their order.
    ///
    /// Succeeds if the group exists and each of its entries gives a target.
    /// Fails with the first entry that gives none.
    pub fn group_targets(&self, group: &str) -> (planned: Result<Vec<WatchTarget>, ReferenceError>)
        ensures
            match planned {
                Ok(targets) => self@.group(group@) matches Some(g) && targets.len()
                    == g.channels.len() && forall|i: int|
                    0 <= i < targets.len() ==> self@.entry_target(#[trigger] g.channels[i]) == Ok::<
                        TargetView,
                        EntryFault,
                    >(targets[i]@),
                Err(ReferenceError::NoGroup) => self@.group(group@) is None,
                Err(ReferenceError::Entry { entry, fault }) => self@.group(group@) matches Some(g)
                    && entry < g.channels.len() && self@.entry_target(g.channels[entry as int])
                    == Err::<TargetView, EntryFault>(fault) && forall|i: int|
                    0 <= i < entry ==> self@.entry_target(#[trigger] g.channels[i]) is Ok,
            },
    {
        let found = match self.find_group(group) {
            None => {
                return Err(ReferenceError::NoGroup);
            },
            Some(found) => found,
        };
        let ghost g = found@;
        let mut targets: Vec<WatchTarget> = Vec::new();
        let mut i: usize = 0;
        while i < found.channels.len()
            invariant
                i <= found.channels.len(),
                found@ == g,
                self@.group(group@) == Some(g),
                targets.len() == i,
                forall|j: int|
                    0 <= j < i ==> self@.entry_target(#[trigger] g.channels[j]) == Ok::<
                        TargetView,
                        EntryFault,
                    >(targets[j]@),
            decreases found.channels.len() - i,
        {
            let entry = &found.channels[i];
            assert(g.channels[i as int] == (entry.0@, entry.1@));
            match self.entry_target(entry.0.as_str(), entry.1.as_str()) {
                Err(fault) => {
                    return Err(ReferenceError::Entry { entry: i, fault });
                },
                Ok(target) => {
                    targets.push(target);
                },
            }
            i += 1;
        }
        Ok(targets)
    }

    /// The mailboxes to watch where no group is used: the mailbox `INBOX` of
    /// every channel, in the order of the channels.
    ///
    /// Succeeds if every channel's far side is a store. Fails with the first
    /// channel whose far side is none.
    pub fn inbox_targets(&self) -> (planned: Result<Vec<WatchTarget>, ReferenceError>)
        ensures
            match planned {
                Ok(targets) => targets.len() == self@.channels.len() && forall|i: int|
                    0 <= i < targets.len() ==> self@.channel_target(
                        #[trigger] self@.channels[i],
                        inbox(),
                    ) == Ok::<TargetView, EntryFault>(targets[i]@),
                Err(ReferenceError::NoGroup) => false,
                Err(ReferenceError::Entry { entry, fault }) => entry < self@.channels.len()
                    && self@.channel_target(self@.channels[entry as int], inbox()) == Err::<
                    TargetView,
                    EntryFault,
                >(fault) && forall|i: int|
                    0 <= i < entry ==> self@.channel_target(#[trigger] self@.channels[i], inbox())
                        is Ok,
            },
    {
        let mut targets: Vec<WatchTarget> = Vec::new();
        let mut i: usize = 0;
        while i < self.channels.len()
            invariant
                i <= self.channels.len(),
                targets.len() == i,
                forall|j: int|
                    0 <= j < i ==> self@.channel_target(#[trigger] self@.channels[j], inbox())
                        == Ok::<TargetView, EntryFault>(targets[j]@),
            decreases self.channels.len() - i,
        {
            assert(self@.channels[i as int] == self.channels[i as int]@);
            match self.channel_target(&self.channels[i], "INBOX") {
                Err(fault) => {
                    return Err(ReferenceError::Entry { entry: i, fault });
                },
                Ok(target) => {
                    targets.push(target);
                },
            }
            i += 1;
        }
        Ok(targets)
    }
}

/// The watchers of all targets, each with the state it stands in.
#[derive(Debug)]
pub struct Supervisor {
    states: Vec<WatcherState>,
}

impl View for Supervisor {
    type V = Seq<WatcherState>;

    closed spec fn view(&self) -> Seq<WatcherState> {
        self.states@
    }
}

impl Supervisor {
    /// A supervisor of `count` watchers, each about to connect for the first
    /// time.
    pub fn new(count: usize) -> (supervisor: Supervisor)
        ensures
            supervisor@.len() == count,
            forall|i: int| 0 <= i < count ==> supervisor@[i] == WatcherState::Connecting,
    {
        let mut states: Vec<WatcherState> = Vec::new();
        let mut i: usize = 0;
        while i < count
            invariant
                i <= count,
                states.len() == i,
                forall|j: int| 0 <= j < i ==> states@[j] == WatcherState::Connecting,
            decreases count - i,
        {
            states.push(WatcherState::Connecting);
            i += 1;
        }
        Supervisor { states }
    }

    /// The number of watchers.
    pub fn len(&self) -> (count: usize)
        ensures
            count == self@.len(),
    {
        self.states.len()
    }

    /// The state of the watcher with this index, if there is one.
    pub fn state(&self, index: usize) -> (state: Option<WatcherState>)
        ensures
            state == if index < self@.len() {
                Some(self@[index as int])
            } else {
                None
            },
    {
        if index < self.states.len() {
            Some(self.states[index])
        } else {
            None
        }
    }

    /// Hands an event to the watcher with this index and returns what that
    /// watcher has to do next. No other watcher changes. Where there is no
    /// such watcher, or the event cannot happen to it, nothing changes and
    /// nothing is returned.
    pub fn deliver(&mut self, index: usize, event: WatcherEvent) -> (action: Option<WatcherAction>)
        ensures
            final(self)@.len() == old(self)@.len(),
            forall|j: int|
                0 <= j < old(self)@.len() && j != index ==> final(self)@[j] == old(self)@[j],
            if index < old(self)@.len() {
                match old(self)@[index as int].step(event) {
                    Some((next, act)) => action == Some(act) && final(self)@[index as int] == next,
                    None => action is None && final(self)@ == old(self)@,
                }
            } else {
                action is None && final(self)@ == old(self)@
            },
    {
        if index >= self.states.len() {
            return None;
        }
        match self.states[index].on(event) {
            None => None,
            Some((next, action)) => {
                self.states.set(index, next);
                Some(action)
            },
        }
    }

    /// Whether every watcher has ended: only then is the supervisor's work
    /// done.
    pub fn finished(&self) -> (done: bool)
        ensures
            done == forall|i: int| 0 <= i < self@.len() ==> (#[trigger] self@[i]).is_terminal(),
    {
        let mut i: usize = 0;
        while i < self.states.len()
            invariant
                i <= self.states.len(),
                forall|j: int| 0 <= j < i ==> (#[trigger] self@[j]).is_terminal(),
            decreases self.states.len() - i,
        {
            if !self.states[i].finished() {
                assert(!self@[i as int].is_terminal());
                return false;
            }
            i += 1;
        }
        true
    }
}

} // verus!
