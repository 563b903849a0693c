//! Reading a configuration text: its lines, what each line does to the
//! configuration read so far, and the configuration that the whole text gives.

use crate::config::{
    ChannelConfig, ChannelView, Config, ConfigView, GroupConfig, GroupView, ImapStoreConfig,
    StoreView,
};
use crate::line::{channel_pairs, meaning, parse_channels, ConfigLine, LineFault, LineView};
use crate::text::{find, lemma_find, scan, slice, text_views, to_chars, Pattern};
use vstd::prelude::*;

verus! {

/// Why a text is no configuration: the first line that is wrong, counted from
/// 0, and what is wrong with it.
#[derive(Clone, Copy, Debug, PartialEq, Eq, Structural)]
pub struct ConfigError {
    pub line: usize,
    pub fault: LineFault,
}

/// `line` without the carriage return at its end, if it has one.
pub open spec fn without_return(line: Seq<char>) -> Seq<char> {
    if line.len() > 0 && line.last() == '\r' {
        line.drop_last()
    } else {
        line
    }
}

/// The lines of a text.
///
/// A line ends with a line feed, or with a carriage return and a line feed;
/// neither belongs to the line. What follows the last line feed is a line too,
/// unless it is empty, and keeps a carriage return at its end.
pub open spec fn lines(text: Seq<char>) -> Seq<Seq<char>>
    decreases text.len(),
{
    let end = find(text, Pattern::Char('\n'));
    if text.len() == 0 {
        Seq::empty()
    } else if 0 <= end < text.len() {
        seq![without_return(text.take(end))] + lines(text.skip(end + 1))
    } else {
        seq![text]
    }
}

impl StoreView {
    /// The store after a line that sets one of its fields. Any other line
    /// leaves it as it is.
    pub open spec fn set(self, line: LineView) -> StoreView {
        match line {
            LineView::Host(host) => StoreView { host, ..self },
            LineView::Port(port) => StoreView { port: Some(port), ..self },
            LineView::User(user) => StoreView { user, ..self },
            LineView::Pass(pass) => StoreView { pass: Some(pass), ..self },
            LineView::PassCommand(command) => StoreView { pass_command: Some(command), ..self },
            LineView::CertFile(file) => StoreView { cert_file: Some(file), ..self },
            _ => self,
        }
    }
}

impl ChannelView {
    /// The channel after a line that sets one of its sides. Any other line
    /// leaves it as it is.
    pub open spec fn set(self, line: LineView) -> ChannelView {
        match line {
            LineView::Near(near) => ChannelView { near, ..self },
            LineView::Far(far) => ChannelView { far, ..self },
            _ => self,
        }
    }
}

impl GroupView {
    /// The group after a line that sets its channel list. Any other line
    /// leaves it as it is.
    pub open spec fn set(self, line: LineView) -> GroupView {
        match line {
            LineView::Channels(list) => GroupView { channels: channel_pairs(list), ..self },
            _ => self,
        }
    }
}

impl ConfigView {
    /// The configuration with `store` in the place of its last store.
    pub open spec fn with_last_store(self, store: StoreView) -> ConfigView {
        ConfigView {
            imap_stores: self.imap_stores.update(self.imap_stores.len() - 1, store),
            ..self
        }
    }

    /// The configuration with `channel` in the place of its last channel.
    pub open spec fn with_last_channel(self, channel: ChannelView) -> ConfigView {
        ConfigView { channels: self.channels.update(self.channels.len() - 1, channel), ..self }
    }

    /// The configuration with `group` in the place of its last group.
    pub open spec fn with_last_group(self, group: GroupView) -> ConfigView {
        ConfigView { groups: self.groups.update(self.groups.len() - 1, group), ..self }
    }

    /// What a line makes of the configuration read so far.
    ///
    /// `IMAPStore`, `Channel` and `Group` declare an entity with the line's
    /// value as its name and nothing else set. Every other keyword sets one
    /// field of the entity of its kind that was declared last, and is an error
    /// where none was declared yet. A comment and an empty line change nothing.
    pub open spec fn apply(self, line: LineView) -> Result<ConfigView, LineFault> {
        match line {
            LineView::ImapStore(name) => Ok(
                ConfigView { imap_stores: self.imap_stores.push(StoreView::named(name)), ..self },
            ),
            LineView::Channel(name) => Ok(
                ConfigView { channels: self.channels.push(ChannelView::named(name)), ..self },
            ),
            LineView::Group(name) => Ok(
                ConfigView { groups: self.groups.push(GroupView::named(name)), ..self },
            ),
            LineView::Comment | LineView::End => Ok(self),
            LineView::Near(_) | LineView::Far(_) => if self.channels.len() == 0 {
                Err(LineFault::NoChannel)
            } else {
                Ok(self.with_last_channel(self.channels.last().set(line)))
            },
            LineView::Channels(_) => if self.groups.len() == 0 {
                Err(LineFault::NoGroup)
            } else {
                Ok(self.with_last_group(self.groups.last().set(line)))
            },
            _ => if self.imap_stores.len() == 0 {
                Err(LineFault::NoStore)
            } else {
                Ok(self.with_last_store(self.imap_stores.last().set(line)))
            },
        }
    }

    /// What the lines from index `from` on make of the configuration read so
    /// far: each line is applied in turn, and the first line that cannot be
    /// read or applied is the error.
    pub open spec fn read(self, lines: Seq<Seq<char>>, from: int) -> Result<ConfigView, ConfigError>
        decreases lines.len() - from,
    {
        if from < 0 || from >= lines.len() {
            Ok(self)
        } else {
            match meaning(lines[from]) {
                Err(fault) => Err(ConfigError { line: from as usize, fault }),
                Ok(line) => match self.apply(line) {
                    Err(fault) => Err(ConfigError { line: from as usize, fault }),
                    Ok(next) => next.read(lines, from + 1),
                },
            }
        }
    }
}

/// The configuration that a text gives, or the first line of it that is wrong.
pub open spec fn parse(text: Seq<char>) -> Result<ConfigView, ConfigError> {
    ConfigView::empty().read(lines(text), 0)
}

/// The view of what reading a text gave.
pub open spec fn parsed_view(parsed: Result<Config, ConfigError>) -> Result<
    ConfigView,
    ConfigError,
> {
    match parsed {
        Ok(config) => Ok(config@),
        Err(error) => Err(error),
    }
}

/// Splits a text into its lines.
pub fn split_lines(text: &str) -> (found: Vec<String>)
    ensures
        text_views(found@) == lines(text@),
{
    let chars = to_chars(text);
    let n = chars.len();
    let mut found: Vec<String> = Vec::new();
    let mut start: usize = 0;
    proof {
        assert(text@.skip(0) =~= text@);
        assert(text_views(found@) + lines(text@) =~= lines(text@));
    }
    while start < n
        invariant
            start <= n == chars.len(),
            chars@ == text@,
            lines(text@) == text_views(found@) + lines(text@.skip(start as int)),
        decreases n - start,
    {
        let end = scan(&chars, start, n, Pattern::Char('\n'));
        let ghost tail = text@.skip(start as int);
        let ghost before = text_views(found@);
        assert(chars@.subrange(start as int, n as int) =~= tail);
        if end == n {
            found.push(slice(text, start, n));
            proof {
                assert(text@.subrange(start as int, n as int) =~= tail);
                assert(text_views(found@) =~= before + seq![tail]);
                assert(text@.skip(n as int).len() == 0);
                assert(before + seq![tail] + lines(text@.skip(n as int)) =~= before + seq![tail]);
            }
            start = n;
        } else {
            let stop: usize = if end > start && chars[end - 1] == '\r' {
                end - 1
            } else {
                end
            };
            found.push(slice(text, start, stop));
            proof {
                let raw = tail.take(end - start);
                assert(raw =~= text@.subrange(start as int, end as int));
                assert(without_return(raw) =~= text@.subrange(start as int, stop as int));
                assert(text_views(found@) =~= before + seq![without_return(raw)]);
                assert(tail.skip(end - start + 1) =~= text@.skip(end + 1));
                assert(before + (seq![without_return(raw)] + lines(text@.skip(end + 1)))
                    =~= before + seq![without_return(raw)] + lines(text@.skip(end + 1)));
            }
            start = end + 1;
        }
    }
    proof {
        assert(text@.skip(n as int).len() == 0);
        assert(text_views(found@) + lines(text@.skip(n as int)) =~= text_views(found@));
    }
    found
}

impl ImapStoreConfig {
    /// Lets a line set the field that it names. Any other line changes
    /// nothing.
    pub fn set(&mut self, line: ConfigLine)
        ensures
            final(self)@ == old(self)@.set(line@),
    {
        match line {
            ConfigLine::Host(host) => {
                self.host = host;
            },
            ConfigLine::Port(port) => {
                self.port = Some(port);
            },
            ConfigLine::User(user) => {
                self.user = user;
            },
            ConfigLine::Pass(pass) => {
                self.pass = Some(pass);
            },
            ConfigLine::PassCommand(command) => {
                self.pass_command = Some(command);
            },
            ConfigLine::CertFile(file) => {
                self.cert_file = Some(file);
            },
            _ => {},
        }
    }
}

impl ChannelConfig {
    /// Lets a line set the side that it names. Any other line changes
    /// nothing.
    pub fn set(&mut self, line: ConfigLine)
        ensures
            final(self)@ == old(self)@.set(line@),
    {
        match line {
            ConfigLine::Near(near) => {
                self.near = near;
            },
            ConfigLine::Far(far) => {
                self.far = far;
            },
            _ => {},
        }
    }
}

impl GroupConfig {
    /// Lets a line set the channel list. Any other line changes nothing.
    pub fn set(&mut self, line: ConfigLine)
        ensures
            final(self)@ == old(self)@.set(line@),
    {
        match line {
            ConfigLine::Channels(list) => {
                self.channels = parse_channels(list.as_str());
            },
            _ => {},
        }
    }
}

impl Config {
    /// Lets a line take effect on the configuration read so far. An error
    /// leaves the configuration as it was.
    pub fn apply(&mut self, line: ConfigLine) -> (done: Result<(), LineFault>)
        ensures
            match done {
                Ok(_) => old(self)@.apply(line@) == Ok::<ConfigView, LineFault>(final(self)@),
                Err(fault) => old(self)@.apply(line@) == Err::<ConfigView, LineFault>(fault)
                    && final(self)@ == old(self)@,
            },
    {
        match line {
            ConfigLine::ImapStore(name) => {
                let mut store = ImapStoreConfig::default();
                store.name = name;
                self.imap_stores.push(store);
                assert(self@.imap_stores =~= old(self)@.imap_stores.push(StoreView::named(name@)));
                Ok(())
            },
            ConfigLine::Channel(name) => {
                let mut channel = ChannelConfig::default();
                channel.name = name;
                self.channels.push(channel);
                assert(self@.channels =~= old(self)@.channels.push(ChannelView::named(name@)));
                Ok(())
            },
            ConfigLine::Group(name) => {
                let mut group = GroupConfig::default();
                group.name = name;
                self.groups.push(group);
                assert(self@.groups =~= old(self)@.groups.push(GroupView::named(name@)));
                Ok(())
            },
            ConfigLine::Comment | ConfigLine::End => Ok(()),
            ConfigLine::Near(_) | ConfigLine::Far(_) => {
                match self.channels.pop() {
                    None => Err(LineFault::NoChannel),
                    Some(mut channel) => {
                        channel.set(line);
                        let ghost set = channel@;
                        self.channels.push(channel);
                        assert(self@.channels =~= old(self)@.with_last_channel(set).channels);
                        Ok(())
                    },
                }
            },
            ConfigLine::Channels(_) => {
                match self.groups.pop() {
                    None => Err(LineFault::NoGroup),
                    Some(mut group) => {
                        group.set(line);
                        let ghost set = group@;
                        self.groups.push(group);
                        assert(self@.groups =~= old(self)@.with_last_group(set).groups);
                        Ok(())
                    },
                }
            },
            _ => {
                match self.imap_stores.pop() {
                    None => Err(LineFault::NoStore),
                    Some(mut store) => {
                        store.set(line);
                        let ghost set = store@;
                        self.imap_stores.push(store);
                        assert(self@.imap_stores =~= old(self)@.with_last_store(set).imap_stores);
                        Ok(())
                    },
                }
            },
        }
    }
}

/// Reads a configuration text.
///
/// Returns the configuration that the lines of the text build up, one after
/// the other, or the first line that cannot be read or applied.
pub fn from_text(text: &str) -> (parsed: Result<Config, ConfigError>)
    ensures
        parsed_view(parsed) == parse(text@),
{
    let found = split_lines(text);
    let mut config = Config::default();
    let mut i: usize = 0;
    while i < found.len()
        invariant
            i <= found.len(),
            text_views(found@) == lines(text@),
            parse(text@) == config@.read(lines(text@), i as int),
        decreases found.len() - i,
    {
        assert(text_views(found@)[i as int] == found@[i as int]@);
        match ConfigLine::try_from(found[i].as_str()) {
            Err(fault) => {
                return Err(ConfigError { line: i, fault });
            },
            Ok(line) => {
                match config.apply(line) {
                    Err(fault) => {
                        return Err(ConfigError { line: i, fault });
                    },
                    Ok(_) => {},
                }
            },
        }
        i += 1;
    }
    Ok(config)
}

/// No line holds a line feed.
pub proof fn lemma_lines_hold_no_line_feed(text: Seq<char>)
    ensures
        forall|i: int| 0 <= i < lines(text).len() ==> !(#[trigger] lines(text)[i]).contains('\n'),
    decreases text.len(),
{
    let p = Pattern::Char('\n');
    let end = find(text, p);
    lemma_find(text, p);
    if text.len() > 0 {
        if end < text.len() {
            let rest = text.skip(end + 1);
            lemma_lines_hold_no_line_feed(rest);
            let first = without_return(text.take(end));
            assert(!first.contains('\n')) by {
                if first.contains('\n') {
                    let k = choose|k: int| 0 <= k < first.len() && first[k] == '\n';
                    assert(first[k] == text[k]);
                }
            }
            assert forall|i: int| 0 <= i < lines(text).len() implies !(
            #[trigger] lines(text)[i]).contains('\n') by {
                if i > 0 {
                    assert(lines(text)[i] == lines(rest)[i - 1]);
                }
            }
        } else {
            assert(!text.contains('\n')) by {
                if text.contains('\n') {
                    let k = choose|k: int| 0 <= k < text.len() && text[k] == '\n';
                    assert(p.accepts(text[k]));
                }
            }
        }
    }
}

/// Reading is a function of the text: two runs of [`from_text`] on the same
/// text give the same configuration, or the same error.
pub proof fn lemma_reading_repeats(
    text: Seq<char>,
    first: Result<Config, ConfigError>,
    second: Result<Config, ConfigError>,
)
    requires
        parsed_view(first) == parse(text),
        parsed_view(second) == parse(text),
    ensures
        parsed_view(first) == parsed_view(second),
        first is Ok <==> second is Ok,
        first matches Ok(a) ==> second matches Ok(b) && a@ == b@,
{
}

/// A declared store starts afresh: it has its name and nothing else, whatever
/// the stores before it hold, and those stay as they are. The same holds of
/// channels and of groups.
pub proof fn lemma_declaration_starts_afresh(config: ConfigView, name: Seq<char>)
    ensures
        config.apply(LineView::ImapStore(name)) matches Ok(next) && next.imap_stores.last()
            == StoreView::named(name) && next.imap_stores.drop_last() == config.imap_stores
            && next.channels == config.channels && next.groups == config.groups,
        config.apply(LineView::Channel(name)) matches Ok(next) && next.channels.last()
            == ChannelView::named(name) && next.channels.drop_last() == config.channels
            && next.imap_stores == config.imap_stores && next.groups == config.groups,
        config.apply(LineView::Group(name)) matches Ok(next) && next.groups.last()
            == GroupView::named(name) && next.groups.drop_last() == config.groups
            && next.imap_stores == config.imap_stores && next.channels == config.channels,
{
    assert(config.imap_stores.push(StoreView::named(name)).drop_last() =~= config.imap_stores);
    assert(config.channels.push(ChannelView::named(name)).drop_last() =~= config.channels);
    assert(config.groups.push(GroupView::named(name)).drop_last() =~= config.groups);
}

/// Whether `after` holds every entity of `before` but the last of each kind
/// unchanged and in its place.
pub open spec fn keeps_closed(before: ConfigView, after: ConfigView) -> bool {
    &&& before.imap_stores.len() <= after.imap_stores.len()
    &&& before.channels.len() <= after.channels.len()
    &&& before.groups.len() <= after.groups.len()
    &&& forall|i: int|
        0 <= i < before.imap_stores.len() - 1 ==> #[trigger] after.imap_stores[i]
            == before.imap_stores[i]
    &&& forall|i: int|
        0 <= i < before.channels.len() - 1 ==> #[trigger] after.channels[i] == before.channels[i]
    &&& forall|i: int|
        0 <= i < before.groups.len() - 1 ==> #[trigger] after.groups[i] == before.groups[i]
}

/// A line reaches no further back than the entity that was declared last: all
/// entities before that one stay as they are.
pub proof fn lemma_line_keeps_closed(config: ConfigView, line: LineView)
    ensures
        config.apply(line) matches Ok(next) ==> keeps_closed(config, next),
{
}

/// No line of a text reaches into an entity that a later declaration has
/// closed: whatever lines follow, every entity but the last of its kind is in
/// the end what it is now.
pub proof fn lemma_reading_keeps_closed(config: ConfigView, lines: Seq<Seq<char>>, from: int)
    ensures
        config.read(lines, from) matches Ok(end) ==> keeps_closed(config, end),
    decreases lines.len() - from,
{
    if 0 <= from < lines.len() {
        if let Ok(line) = meaning(lines[from]) {
            if let Ok(next) = config.apply(line) {
                lemma_line_keeps_closed(config, line);
                lemma_reading_keeps_closed(next, lines, from + 1);
            }
        }
    }
}

/// A store is reached on port 993 as long as no `Port` line follows its
/// declaration, and on the port of the last such line from then on.
pub proof fn lemma_port_of_store(config: ConfigView, name: Seq<char>, port: u16)
    ensures
        config.apply(LineView::ImapStore(name)) matches Ok(next) && next.imap_stores.last().port()
            == 993,
        config.imap_stores.len() > 0 ==> (config.apply(LineView::Port(port)) matches Ok(next)
            && next.imap_stores.last().port() == port),
{
}

/// Reading up to a line and then on from it is reading all the lines: the
/// lines before index `mid` are read first, and what they make is what the
/// lines from `mid` on are applied to.
pub proof fn lemma_reading_goes_on(
    config: ConfigView,
    lines: Seq<Seq<char>>,
    from: int,
    mid: int,
)
    requires
        0 <= from <= mid <= lines.len(),
    ensures
        config.read(lines, from) == match config.read(lines.take(mid), from) {
            Ok(half) => half.read(lines, mid),
            Err(error) => Err(error),
        },
    decreases mid - from,
{
    let head = lines.take(mid);
    if from < mid {
        assert(head[from] == lines[from]);
        if let Ok(line) = meaning(lines[from]) {
            if let Ok(next) = config.apply(line) {
                lemma_reading_goes_on(next, lines, from + 1, mid);
            }
        }
    }
}

/// What the lines from index `from` on make of a store, as long as they can
/// be read: each line that sets a field of a store sets it, in turn.
pub open spec fn store_after(store: StoreView, lines: Seq<Seq<char>>, from: int) -> StoreView
    decreases lines.len() - from,
{
    if from < 0 || from >= lines.len() {
        store
    } else {
        match meaning(lines[from]) {
            Ok(line) => store_after(store.set(line), lines, from + 1),
            Err(_) => store,
        }
    }
}

/// Whether the line declares a store.
pub open spec fn declares_store(line: Seq<char>) -> bool {
    meaning(line) matches Ok(said) && declares(said) == Some(Section::Store)
}

/// Lines that declare no store work on the store that was declared last, and
/// on no other: they leave as many stores as there were, each but the last as
/// it was.
pub proof fn lemma_block_sets_last_store(config: ConfigView, lines: Seq<Seq<char>>, from: int)
    requires
        0 <= from <= lines.len(),
        config.imap_stores.len() > 0,
        forall|i: int| from <= i < lines.len() ==> !declares_store(#[trigger] lines[i]),
        config.read(lines, from) is Ok,
    ensures
        config.read(lines, from)->Ok_0.imap_stores == config.imap_stores.update(
            config.imap_stores.len() - 1,
            store_after(config.imap_stores.last(), lines, from),
        ),
    decreases lines.len() - from,
{
    let last = config.imap_stores.len() - 1;
    if from < lines.len() {
        assert(!declares_store(lines[from]));
        let line = meaning(lines[from])->Ok_0;
        let next = config.apply(line)->Ok_0;
        assert(next.imap_stores =~= config.imap_stores.update(last, config.imap_stores[last].set(line)));
        lemma_block_sets_last_store(next, lines, from + 1);
        assert(next.imap_stores.update(last, store_after(next.imap_stores.last(), lines, from + 1))
            =~= config.imap_stores.update(last, store_after(config.imap_stores.last(), lines, from)));
    } else {
        assert(config.imap_stores.update(last, config.imap_stores.last()) =~= config.imap_stores);
    }
}

/// A store is what the lines of its own block make it, and nothing else.
///
/// Take a text that can be read, a line `start` of it that declares a store,
/// and the line `end` where the next store is declared, or the end of the
/// text. The store is then what the lines between the two make of a store that
/// has its name and nothing else. No line before `start` and no line from
/// `end` on has any part in it.
pub proof fn lemma_store_is_its_block(
    lines: Seq<Seq<char>>,
    start: int,
    end: int,
    name: Seq<char>,
)
    requires
        0 <= start < end <= lines.len(),
        ConfigView::empty().read(lines, 0) is Ok,
        meaning(lines[start]) == Ok::<LineView, LineFault>(LineView::ImapStore(name)),
        forall|i: int| start < i < end ==> !declares_store(#[trigger] lines[i]),
        end < lines.len() ==> declares_store(lines[end]),
    ensures
        ConfigView::empty().read(lines.take(start), 0) matches Ok(before) && ({
            let index = before.imap_stores.len() as int;
            let all = ConfigView::empty().read(lines, 0)->Ok_0;
            index < all.imap_stores.len() && all.imap_stores[index] == store_after(
                StoreView::named(name),
                lines.take(end),
                start + 1,
            )
        }),
{
    let empty = ConfigView::empty();
    let all = empty.read(lines, 0)->Ok_0;
    lemma_reading_goes_on(empty, lines, 0, start);
    let before = empty.read(lines.take(start), 0)->Ok_0;
    let index = before.imap_stores.len() as int;
    let opened = before.apply(LineView::ImapStore(name))->Ok_0;
    assert(opened.read(lines, start + 1) == Ok::<ConfigView, ConfigError>(all));
    lemma_reading_goes_on(opened, lines, start + 1, end);
    let block = lines.take(end);
    let closed = opened.read(block, start + 1)->Ok_0;
    assert forall|i: int| start + 1 <= i < block.len() implies !declares_store(
        #[trigger] block[i],
    ) by {
        assert(block[i] == lines[i]);
    }
    lemma_block_sets_last_store(opened, block, start + 1);
    assert(closed.imap_stores[index] == store_after(StoreView::named(name), block, start + 1));
    if end < lines.len() {
        let next = closed.apply(meaning(lines[end])->Ok_0)->Ok_0;
        lemma_reading_keeps_closed(next, lines, end + 1);
        assert(next.imap_stores[index] == closed.imap_stores[index]);
    }
}

/// The kinds of entity that a configuration holds.
pub enum Section {
    Store,
    Channel,
    Group,
}

/// The kind of entity that a line declares, if it declares one.
pub open spec fn declares(line: LineView) -> Option<Section> {
    match line {
        LineView::ImapStore(_) => Some(Section::Store),
        LineView::Channel(_) => Some(Section::Channel),
        LineView::Group(_) => Some(Section::Group),
        _ => None,
    }
}

/// The kind of entity of which a line sets a field, if it sets one.
pub open spec fn sets(line: LineView) -> Option<Section> {
    match line {
        LineView::Host(_)
        | LineView::Port(_)
        | LineView::User(_)
        | LineView::Pass(_)
        | LineView::PassCommand(_)
        | LineView::CertFile(_) => Some(Section::Store),
        LineView::Near(_) | LineView::Far(_) => Some(Section::Channel),
        LineView::Channels(_) => Some(Section::Group),
        _ => None,
    }
}

/// What is wrong with a line that sets a field of an entity of this kind
/// where there is none.
pub open spec fn missing(section: Section) -> LineFault {
    match section {
        Section::Store => LineFault::NoStore,
        Section::Channel => LineFault::NoChannel,
        Section::Group => LineFault::NoGroup,
    }
}

impl ConfigView {
    /// How many entities of a kind the configuration holds.
    pub open spec fn count(self, section: Section) -> nat {
        match section {
            Section::Store => self.imap_stores.len(),
            Section::Channel => self.channels.len(),
            Section::Group => self.groups.len(),
        }
    }
}

/// A line cannot be applied exactly when it sets a field of an entity of a
/// kind of which none was declared, and the error then says which kind is
/// missing. A declaration adds one entity of its kind; no other line changes
/// how many there are.
pub proof fn lemma_field_needs_entity(config: ConfigView, line: LineView)
    ensures
        match config.apply(line) {
            Err(fault) => sets(line) matches Some(section) && config.count(section) == 0 && fault
                == missing(section),
            Ok(next) => (sets(line) matches Some(section) ==> config.count(section) > 0)
                && forall|section: Section| #[trigger]
                    next.count(section) == config.count(section) + if declares(line) == Some(
                        section,
                    ) {
                        1nat
                    } else {
                        0nat
                    },
        },
{
}

/// Lines that declare no entity of a kind leave as many of that kind as there
/// were.
pub proof fn lemma_count_without_declaration(
    config: ConfigView,
    lines: Seq<Seq<char>>,
    from: int,
    section: Section,
)
    requires
        0 <= from <= lines.len(),
        forall|i: int|
            from <= i < lines.len() ==> (meaning(#[trigger] lines[i]) matches Ok(said) ==> declares(
                said,
            ) != Some(section)),
    ensures
        config.read(lines, from) matches Ok(end) ==> end.count(section) == config.count(section),
    decreases lines.len() - from,
{
    if from < lines.len() {
        if let Ok(said) = meaning(lines[from]) {
            if let Ok(next) = config.apply(said) {
                lemma_field_needs_entity(config, said);
                lemma_count_without_declaration(next, lines, from + 1, section);
            }
        }
    }
}

/// A line that sets a field of an entity is an error wherever it stands in
/// the text, as long as no line before it declares an entity of that kind: if
/// the lines before it can be read, the text fails at this very line, for want
/// of the entity.
pub proof fn lemma_field_before_entity_fails(lines: Seq<Seq<char>>, at: int, section: Section)
    requires
        0 <= at < lines.len(),
        ConfigView::empty().read(lines.take(at), 0) is Ok,
        forall|i: int|
            0 <= i < at ==> (meaning(#[trigger] lines[i]) matches Ok(said) ==> declares(said)
                != Some(section)),
        meaning(lines[at]) matches Ok(said) && sets(said) == Some(section),
    ensures
        ConfigView::empty().read(lines, 0) == Err::<ConfigView, ConfigError>(
            ConfigError { line: at as usize, fault: missing(section) },
        ),
{
    let empty = ConfigView::empty();
    let head = lines.take(at);
    lemma_reading_goes_on(empty, lines, 0, at);
    let before = empty.read(head, 0)->Ok_0;
    assert forall|i: int| 0 <= i < head.len() implies (meaning(#[trigger] head[i]) matches Ok(
        said,
    ) ==> declares(said) != Some(section)) by {
        assert(head[i] == lines[i]);
    }
    lemma_count_without_declaration(empty, head, 0, section);
    assert(before.count(section) == 0);
    lemma_field_needs_entity(before, meaning(lines[at])->Ok_0);
}

/// What reading gave, without the number of the line: the configuration, or
/// what is wrong with the first line that is wrong.
pub open spec fn verdict(read: Result<ConfigView, ConfigError>) -> Result<ConfigView, LineFault> {
    match read {
        Ok(config) => Ok(config),
        Err(error) => Err(error.fault),
    }
}

/// Whether a line says nothing: a comment, or a line without a value whose
/// first word is no keyword, such as an empty line.
pub open spec fn is_idle(line: Seq<char>) -> bool {
    meaning(line) matches Ok(said) && (said is Comment || said is End)
}

/// The lines that say something, in their order.
pub open spec fn without_idle(lines: Seq<Seq<char>>) -> Seq<Seq<char>>
    decreases lines.len(),
{
    if lines.len() == 0 {
        lines
    } else if is_idle(lines[0]) {
        without_idle(lines.drop_first())
    } else {
        seq![lines[0]] + without_idle(lines.drop_first())
    }
}

/// Reading from a line on is reading the lines from there on as a text of
/// their own; only the numbers of the lines differ.
pub proof fn lemma_reading_from_any_line(config: ConfigView, lines: Seq<Seq<char>>, from: int)
    requires
        0 <= from <= lines.len(),
    ensures
        verdict(config.read(lines, from)) == verdict(config.read(lines.skip(from), 0)),
    decreases lines.len() - from,
{
    let tail = lines.skip(from);
    if from < lines.len() {
        assert(tail[0] == lines[from]);
        if let Ok(said) = meaning(lines[from]) {
            if let Ok(next) = config.apply(said) {
                lemma_reading_from_any_line(next, lines, from + 1);
                if from > 0 {
                    lemma_reading_from_any_line(next, tail, 1);
                    assert(tail.skip(1) =~= lines.skip(from + 1));
                } else {
                    assert(tail =~= lines);
                }
            }
        }
    }
}

/// Lines that say nothing count for nothing, however many there are and
/// wherever they stand: a text gives what its other lines alone give, the same
/// configuration or the same fault.
pub proof fn lemma_idle_lines_count_for_nothing(config: ConfigView, lines: Seq<Seq<char>>)
    ensures
        verdict(config.read(lines, 0)) == verdict(config.read(without_idle(lines), 0)),
    decreases lines.len(),
{
    if lines.len() > 0 {
        let rest = lines.drop_first();
        let kept = without_idle(lines);
        assert(rest =~= lines.skip(1));
        if is_idle(lines[0]) {
            lemma_reading_from_any_line(config, lines, 1);
            lemma_idle_lines_count_for_nothing(config, rest);
        } else {
            assert(kept[0] == lines[0]);
            if let Ok(said) = meaning(lines[0]) {
                if let Ok(next) = config.apply(said) {
                    lemma_reading_from_any_line(next, lines, 1);
                    lemma_idle_lines_count_for_nothing(next, rest);
                    lemma_reading_from_any_line(next, kept, 1);
                    assert(kept.skip(1) =~= without_idle(rest));
                }
            }
        }
    }
}

/// A line that says nothing can be put anywhere among the lines that say
/// something without a trace.
pub proof fn lemma_idle_line_leaves_no_trace(
    before: Seq<Seq<char>>,
    idle: Seq<char>,
    after: Seq<Seq<char>>,
)
    requires
        is_idle(idle),
    ensures
        without_idle(before + seq![idle] + after) == without_idle(before + after),
    decreases before.len(),
{
    let with = before + seq![idle] + after;
    let without = before + after;
    if before.len() == 0 {
        assert(with.drop_first() =~= after);
        assert(without =~= after);
    } else {
        let rest = before.drop_first();
        assert(with[0] == before[0]);
        assert(without[0] == before[0]);
        assert(with.drop_first() =~= rest + seq![idle] + after);
        assert(without.drop_first() =~= rest + after);
        lemma_idle_line_leaves_no_trace(rest, idle, after);
    }
}

/// Two texts whose lines that say something are the same give the same: the
/// same configuration, or the same fault.
pub proof fn lemma_only_telling_lines_count(first: Seq<char>, second: Seq<char>)
    requires
        without_idle(lines(first)) == without_idle(lines(second)),
    ensures
        verdict(parse(first)) == verdict(parse(second)),
{
    lemma_idle_lines_count_for_nothing(ConfigView::empty(), lines(first));
    lemma_idle_lines_count_for_nothing(ConfigView::empty(), lines(second));
}

} // verus!
