//! One line of a configuration text: its keyword, its value, and what it
//! says.

use crate::config::pair_views;
use crate::text::{
    find, is_first, lemma_find, lemma_find_unique, scan, scan_back, slice, spells, to_chars, trim,
    trim_start, Pattern,
};
use vstd::prelude::*;

verus! {

/// What is wrong with a line.
#[derive(Clone, Copy, Debug, PartialEq, Eq, Structural)]
pub enum LineFault {
    /// The value of `Port` is not a number from 0 to 65535.
    InvalidPort,
    /// The line has a value, and its first word is no keyword.
    UnknownKeyword,
    /// The line sets a field of a store, and no store was declared before it.
    NoStore,
    /// The line sets a field of a channel, and no channel was declared before
    /// it.
    NoChannel,
    /// The line sets a field of a group, and no group was declared before it.
    NoGroup,
}

/// What a line says.
#[derive(Debug, PartialEq, Eq)]
pub enum ConfigLine {
    ImapStore(String),
    Host(String),
    Port(u16),
    User(String),
    Pass(String),
    PassCommand(String),
    CertFile(String),
    Channel(String),
    Near(String),
    Far(String),
    Group(String),
    Channels(String),
    /// A line whose first visible character is `#`.
    Comment,
    /// A line without a value whose first word is no keyword, such as an
    /// empty line. It changes nothing.
    End,
}

/// What a [`ConfigLine`] holds.
pub enum LineView {
    ImapStore(Seq<char>),
    Host(Seq<char>),
    Port(u16),
    User(Seq<char>),
    Pass(Seq<char>),
    PassCommand(Seq<char>),
    CertFile(Seq<char>),
    Channel(Seq<char>),
    Near(Seq<char>),
    Far(Seq<char>),
    Group(Seq<char>),
    Channels(Seq<char>),
    Comment,
    End,
}

impl View for ConfigLine {
    type V = LineView;

    open spec fn view(&self) -> LineView {
        match self {
            ConfigLine::ImapStore(v) => LineView::ImapStore(v@),
            ConfigLine::Host(v) => LineView::Host(v@),
            ConfigLine::Port(p) => LineView::Port(*p),
            ConfigLine::User(v) => LineView::User(v@),
            ConfigLine::Pass(v) => LineView::Pass(v@),
            ConfigLine::PassCommand(v) => LineView::PassCommand(v@),
            ConfigLine::CertFile(v) => LineView::CertFile(v@),
            ConfigLine::Channel(v) => LineView::Channel(v@),
            ConfigLine::Near(v) => LineView::Near(v@),
            ConfigLine::Far(v) => LineView::Far(v@),
            ConfigLine::Group(v) => LineView::Group(v@),
            ConfigLine::Channels(v) => LineView::Channels(v@),
            ConfigLine::Comment => LineView::Comment,
            ConfigLine::End => LineView::End,
        }
    }
}

/// The view of what reading a line gave.
pub open spec fn read_view(read: Result<ConfigLine, LineFault>) -> Result<LineView, LineFault> {
    match read {
        Ok(line) => Ok(line@),
        Err(fault) => Err(fault),
    }
}

/// The first word of a line: what stands before its first white space.
pub open spec fn keyword(line: Seq<char>) -> Seq<char> {
    line.take(find(line, Pattern::Whitespace))
}

/// The value of a line: what follows its first word, without the white space
/// in between. White space at the end of the line belongs to the value.
pub open spec fn argument(line: Seq<char>) -> Seq<char> {
    trim_start(line.skip(find(line, Pattern::Whitespace)))
}

/// Whether the first visible character of the line is `#`.
pub open spec fn is_comment(line: Seq<char>) -> bool {
    let k = find(line, Pattern::Visible);
    k < line.len() && line[k] == '#'
}

/// Whether `s` stands between two double quotes.
pub open spec fn is_quoted(s: Seq<char>) -> bool {
    s.len() >= 2 && s.first() == '"' && s.last() == '"'
}

/// `s` without the double quotes around it, or `s` itself where it does not
/// stand between two of them.
pub open spec fn unquoted(s: Seq<char>) -> Seq<char> {
    if is_quoted(s) {
        s.subrange(1, s.len() - 1)
    } else {
        s
    }
}

/// Whether `c` is one of the digits `0` to `9`.
pub open spec fn is_digit(c: char) -> bool {
    0x30 <= c as u32 <= 0x39
}

/// The number that the decimal digits `s` write.
pub open spec fn decimal(s: Seq<char>) -> nat
    decreases s.len(),
{
    if s.len() == 0 {
        0
    } else {
        10 * decimal(s.drop_last()) + (s.last() as u32 - 0x30) as nat
    }
}

/// The digits of a port number: the text without the one `+` that may stand
/// before them.
pub open spec fn port_digits(s: Seq<char>) -> Seq<char> {
    if s.len() > 0 && s[0] == '+' {
        s.drop_first()
    } else {
        s
    }
}

/// The port that `s` writes: at least one decimal digit, with or without a `+`
/// before, and nothing else, for a number of at most 65535.
pub open spec fn port_value(s: Seq<char>) -> Option<u16> {
    let digits = port_digits(s);
    if digits.len() > 0 && (forall|i: int| 0 <= i < digits.len() ==> is_digit(#[trigger] digits[i]))
        && decimal(digits) <= u16::MAX {
        Some(decimal(digits) as u16)
    } else {
        None
    }
}

/// The channel name and the mailbox name that one entry of a channel list
/// gives: what stands before its first colon, and what stands between its
/// first colon and its second. White space around the entry does not count.
/// Without a colon the mailbox name is empty.
pub open spec fn channel_pair(entry: Seq<char>) -> (Seq<char>, Seq<char>) {
    let t = trim(entry);
    let colon = find(t, Pattern::Char(':'));
    if colon < t.len() {
        let rest = t.skip(colon + 1);
        (t.take(colon), rest.take(find(rest, Pattern::Char(':'))))
    } else {
        (t, Seq::empty())
    }
}

/// The pairs of channel name and mailbox name that a list gives: one for each
/// of its entries, which commas separate.
pub open spec fn channel_pairs(list: Seq<char>) -> Seq<(Seq<char>, Seq<char>)>
    decreases list.len(),
{
    let comma = find(list, Pattern::Char(','));
    if 0 <= comma < list.len() {
        seq![channel_pair(list.take(comma))] + channel_pairs(list.skip(comma + 1))
    } else {
        seq![channel_pair(list)]
    }
}

/// What a line says.
///
/// A comment says nothing. A line that begins with a keyword says what the
/// keyword stands for, with the line's value: a text value without the double
/// quotes around it, if it stands between two, and a port as a number. Any
/// other line is an error if it has a value, and says nothing if it has none.
pub open spec fn meaning(line: Seq<char>) -> Result<LineView, LineFault> {
    let key = keyword(line);
    let value = argument(line);
    let text = unquoted(value);
    if is_comment(line) {
        Ok(LineView::Comment)
    } else if key == "IMAPStore"@ {
        Ok(LineView::ImapStore(text))
    } else if key == "Host"@ {
        Ok(LineView::Host(text))
    } else if key == "Port"@ {
        match port_value(value) {
            Some(port) => Ok(LineView::Port(port)),
            None => Err(LineFault::InvalidPort),
        }
    } else if key == "User"@ {
        Ok(LineView::User(text))
    } else if key == "Pass"@ {
        Ok(LineView::Pass(text))
    } else if key == "PassCmd"@ {
        Ok(LineView::PassCommand(text))
    } else if key == "CertificateFile"@ {
        Ok(LineView::CertFile(text))
    } else if key == "Channel"@ {
        Ok(LineView::Channel(text))
    } else if key == "Near"@ {
        Ok(LineView::Near(text))
    } else if key == "Far"@ {
        Ok(LineView::Far(text))
    } else if key == "Group"@ {
        Ok(LineView::Group(text))
    } else if key == "Channels"@ {
        Ok(LineView::Channels(text))
    } else if value.len() == 0 {
        Ok(LineView::End)
    } else {
        Err(LineFault::UnknownKeyword)
    }
}

/// The text that a line holds as its value, if it holds one.
pub open spec fn text_of(line: LineView) -> Option<Seq<char>> {
    match line {
        LineView::ImapStore(t)
        | LineView::Host(t)
        | LineView::User(t)
        | LineView::Pass(t)
        | LineView::PassCommand(t)
        | LineView::CertFile(t)
        | LineView::Channel(t)
        | LineView::Near(t)
        | LineView::Far(t)
        | LineView::Group(t)
        | LineView::Channels(t) => Some(t),
        _ => None,
    }
}

/// Whatever the keyword, a text value is read without the double quotes
/// around it.
pub proof fn lemma_text_values_are_unquoted(line: Seq<char>)
    ensures
        meaning(line) matches Ok(said) ==> (text_of(said) matches Some(text) ==> text == unquoted(
            argument(line),
        )),
{
}

/// Quotes come off: a text between two double quotes is read as the text.
pub proof fn lemma_quotes_come_off(s: Seq<char>)
    ensures
        unquoted(seq!['"'] + s + seq!['"']) == s,
{
    let q = seq!['"'] + s + seq!['"'];
    assert(q.first() == '"');
    assert(q.last() == '"');
    assert(q.subrange(1, q.len() - 1) =~= s);
}

/// A text that does not stand between two double quotes is read as it is.
pub proof fn lemma_unquoted_stays(s: Seq<char>)
    requires
        s.len() < 2 || s.first() != '"' || s.last() != '"',
    ensures
        unquoted(s) == s,
{
}

/// An entry without a colon names a channel and no mailbox.
pub proof fn lemma_entry_without_colon(entry: Seq<char>)
    requires
        !trim(entry).contains(':'),
    ensures
        channel_pair(entry) == (trim(entry), Seq::<char>::empty()),
{
    let t = trim(entry);
    lemma_find(t, Pattern::Char(':'));
    let k = find(t, Pattern::Char(':'));
    if k < t.len() {
        assert(t.contains(t[k]));
    }
}

/// A list without a comma is one entry.
pub proof fn lemma_list_of_one(list: Seq<char>)
    requires
        !list.contains(','),
    ensures
        channel_pairs(list) == seq![channel_pair(list)],
{
    lemma_find(list, Pattern::Char(','));
    let k = find(list, Pattern::Char(','));
    if k < list.len() {
        assert(list.contains(list[k]));
    }
}

/// The entries of a list keep their order: the pairs of two lists joined by
/// a comma are the pairs of the first, then the pairs of the second.
pub proof fn lemma_lists_join(first: Seq<char>, second: Seq<char>)
    ensures
        channel_pairs(first + seq![','] + second) == channel_pairs(first) + channel_pairs(second),
    decreases first.len(),
{
    let joined = first + seq![','] + second;
    let p = Pattern::Char(',');
    lemma_find(first, p);
    let k = find(first, p);
    assert(is_first(joined, p, k)) by {
        assert forall|i: int| 0 <= i < k implies !p.accepts(#[trigger] joined[i]) by {
            assert(joined[i] == first[i]);
        }
        if k < first.len() {
            assert(joined[k] == first[k]);
        } else {
            assert(joined[k] == ',');
        }
    }
    lemma_find_unique(joined, p, k);
    assert(joined.take(k) =~= first.take(k));
    if k < first.len() {
        let rest = first.skip(k + 1);
        assert(joined.skip(k + 1) =~= rest + seq![','] + second);
        lemma_lists_join(rest, second);
        assert(seq![channel_pair(first.take(k))] + (channel_pairs(rest) + channel_pairs(second))
            =~= seq![channel_pair(first.take(k))] + channel_pairs(rest) + channel_pairs(second));
    } else {
        assert(first.take(k) =~= first);
        assert(joined.skip(k + 1) =~= second);
    }
}

/// A number never gets smaller when a digit is written behind it.
proof fn lemma_decimal_grows(s: Seq<char>, k: int)
    requires
        0 <= k <= s.len(),
        forall|i: int| 0 <= i < s.len() ==> is_digit(#[trigger] s[i]),
    ensures
        decimal(s.take(k)) <= decimal(s),
    decreases s.len() - k,
{
    if k == s.len() {
        assert(s.take(k) =~= s);
    } else {
        lemma_decimal_grows(s, k + 1);
        assert(s.take(k + 1).drop_last() =~= s.take(k));
        assert(is_digit(s[k]));
    }
}

/// Splits a line into its first word and its value.
pub fn split_on_first_word(s: &str) -> (parts: (&str, String))
    ensures
        parts.0@ == keyword(s@),
        parts.1@ == argument(s@),
{
    let chars = to_chars(s);
    let n = chars.len();
    let word_end = scan(&chars, 0, n, Pattern::Whitespace);
    let value_start = scan(&chars, word_end, n, Pattern::Visible);
    proof {
        assert(chars@.subrange(0, n as int) =~= s@);
        assert(chars@.subrange(word_end as int, n as int) =~= s@.skip(word_end as int));
        assert(s@.subrange(0, word_end as int) =~= keyword(s@));
        assert(s@.subrange(value_start as int, n as int) =~= argument(s@));
    }
    (s.substring_char(0, word_end), slice(s, value_start, n))
}

/// Takes the double quotes around `s` away if it stands between two of them,
/// and returns it unchanged if it does not.
pub fn remove_quotes(s: String) -> (bare: String)
    ensures
        bare@ == unquoted(s@),
{
    let chars = to_chars(s.as_str());
    let n = chars.len();
    if n >= 2 && chars[0] == '"' && chars[n - 1] == '"' {
        slice(s.as_str(), 1, n - 1)
    } else {
        s
    }
}

/// Reads a port number.
pub fn parse_port(s: &str) -> (port: Option<u16>)
    ensures
        port == port_value(s@),
{
    let chars = to_chars(s);
    let n = chars.len();
    let start: usize = if n > 0 && chars[0] == '+' {
        1
    } else {
        0
    };
    let ghost digits = port_digits(s@);
    assert(digits =~= chars@.subrange(start as int, n as int));
    if start == n {
        return None;
    }
    let mut value: u32 = 0;
    let mut i: usize = start;
    while i < n
        invariant
            start <= i <= n == chars.len(),
            digits == port_digits(s@),
            digits == chars@.subrange(start as int, n as int),
            forall|j: int| 0 <= j < i - start ==> is_digit(#[trigger] digits[j]),
            value == decimal(digits.take(i - start)),
            value <= u16::MAX,
        decreases n - i,
    {
        let c = chars[i];
        let u: u32 = c as u32;
        assert(digits[i - start] == c);
        if u < 0x30 || u > 0x39 {
            return None;
        }
        assert(digits.take(i - start + 1).drop_last() =~= digits.take(i - start));
        let next: u32 = value * 10 + (u - 0x30);
        if next > 0xffff {
            proof {
                if forall|j: int| 0 <= j < digits.len() ==> is_digit(#[trigger] digits[j]) {
                    lemma_decimal_grows(digits, i - start + 1);
                }
            }
            return None;
        }
        value = next;
        i += 1;
    }
    assert(digits.take(n - start) =~= digits);
    Some(value as u16)
}

/// Reads the list of a group's channels.
pub fn parse_channels(list: &str) -> (pairs: Vec<(String, String)>)
    ensures
        pair_views(pairs@) == channel_pairs(list@),
{
    let chars = to_chars(list);
    let n = chars.len();
    let mut pairs: Vec<(String, String)> = Vec::new();
    let mut start: usize = 0;
    proof {
        assert(list@.skip(0) =~= list@);
        assert(pair_views(pairs@) + channel_pairs(list@) =~= channel_pairs(list@));
    }
    loop
        invariant_except_break
            channel_pairs(list@) == pair_views(pairs@) + channel_pairs(list@.skip(start as int)),
        invariant
            start <= n == chars.len(),
            chars@ == list@,
        ensures
            pair_views(pairs@) == channel_pairs(list@),
        decreases n - start,
    {
        let comma = scan(&chars, start, n, Pattern::Char(','));
        let from = scan(&chars, start, comma, Pattern::Visible);
        let to = scan_back(&chars, from, comma);
        let colon = scan(&chars, from, to, Pattern::Char(':'));
        let ghost tail = list@.skip(start as int);
        let ghost entry = list@.subrange(start as int, comma as int);
        let ghost t = list@.subrange(from as int, to as int);
        proof {
            assert(chars@.subrange(start as int, n as int) =~= tail);
            assert(trim_start(entry) =~= list@.subrange(from as int, comma as int));
            assert(trim(entry) =~= t);
        }
        let name = slice(list, from, colon);
        let mailbox = if colon < to {
            let second = scan(&chars, colon + 1, to, Pattern::Char(':'));
            proof {
                assert(t.skip(colon - from + 1) =~= list@.subrange(colon + 1, to as int));
                assert(t.skip(colon - from + 1).take(second - colon - 1) =~= list@.subrange(
                    colon + 1,
                    second as int,
                ));
            }
            slice(list, colon + 1, second)
        } else {
            String::new()
        };
        proof {
            assert(t.take(colon - from) =~= list@.subrange(from as int, colon as int));
            assert((name@, mailbox@) == channel_pair(entry));
        }
        let ghost before = pair_views(pairs@);
        pairs.push((name, mailbox));
        proof {
            assert(pair_views(pairs@) =~= before + seq![channel_pair(entry)]);
            if comma < n {
                assert(tail.take(comma - start) =~= entry);
                assert(tail.skip(comma - start + 1) =~= list@.skip(comma + 1));
            } else {
                assert(tail =~= entry);
            }
        }
        if comma == n {
            break ;
        }
        start = comma + 1;
    }
    pairs
}

impl ConfigLine {
    /// Reads a line: tells what it says, or why it says nothing that can be
    /// understood.
    pub fn try_from(value: &str) -> (read: Result<ConfigLine, LineFault>)
        ensures
            read_view(read) == meaning(value@),
    {
        let chars = to_chars(value);
        let n = chars.len();
        let visible = scan(&chars, 0, n, Pattern::Visible);
        assert(chars@.subrange(0, n as int) =~= value@);
        if visible < n && chars[visible] == '#' {
            return Ok(ConfigLine::Comment);
        }
        let (key, value) = split_on_first_word(value);
        let word = to_chars(key);
        if spells(&word, "IMAPStore") {
            Ok(ConfigLine::ImapStore(remove_quotes(value)))
        } else if spells(&word, "Host") {
            Ok(ConfigLine::Host(remove_quotes(value)))
        } else if spells(&word, "Port") {
            match parse_port(value.as_str()) {
                Some(port) => Ok(ConfigLine::Port(port)),
                None => Err(LineFault::InvalidPort),
            }
        } else if spells(&word, "User") {
            Ok(ConfigLine::User(remove_quotes(value)))
        } else if spells(&word, "Pass") {
            Ok(ConfigLine::Pass(remove_quotes(value)))
        } else if spells(&word, "PassCmd") {
            Ok(ConfigLine::PassCommand(remove_quotes(value)))
        } else if spells(&word, "CertificateFile") {
            Ok(ConfigLine::CertFile(remove_quotes(value)))
        } else if spells(&word, "Channel") {
            Ok(ConfigLine::Channel(remove_quotes(value)))
        } else if spells(&word, "Near") {
            Ok(ConfigLine::Near(remove_quotes(value)))
        } else if spells(&word, "Far") {
            Ok(ConfigLine::Far(remove_quotes(value)))
        } else if spells(&word, "Group") {
            Ok(ConfigLine::Group(remove_quotes(value)))
        } else if spells(&word, "Channels") {
            Ok(ConfigLine::Channels(remove_quotes(value)))
        } else if value.as_str().is_empty() {
            Ok(ConfigLine::End)
        } else {
            Err(LineFault::UnknownKeyword)
        }
    }
}

} // verus!
