use mbwatch::config::{ChannelConfig, Config, GroupConfig, ImapStoreConfig};
use mbwatch::line::{ConfigLine, LineFault};
use mbwatch::parse::{from_text, split_lines, ConfigError};

const SAMPLE: &str = "# mail accounts
IMAPStore work-remote
Host imap.example.com
Port 143
User alice@example.com
PassCmd \"pass show work\"
CertificateFile /etc/ssl/work.pem

IMAPStore home-remote
Host mail.home.example
User bob
Pass \"hunter2\"

Channel work
Far :work-remote:
Near :work-local:

Channel home
Far :home-remote:
Near :home-local:

Group mbwatch
Channels work:INBOX,home:Archive
";

fn error(line: usize, fault: LineFault) -> ConfigError {
    ConfigError { line, fault }
}

#[test]
fn split_lines_agrees_with_std() {
    let samples = [
        "",
        "a",
        "a\n",
        "a\nb",
        "a\r\nb\r\n",
        "a\rb\n",
        "a\r",
        "a\r\n\r\n",
        "\n",
        "\n\n",
        "\r\n",
        "\r",
        "a\n\nb\n",
        "foo\nbar\n\r\nbaz\r",
        "a\r\r\nb",
        "ä\nö\n",
        SAMPLE,
    ];
    for sample in samples {
        let expected: Vec<String> = sample.lines().map(|l| l.to_string()).collect();
        assert_eq!(split_lines(sample), expected, "{:?}", sample);
    }
}

#[test]
fn split_lines_drops_line_ends() {
    assert_eq!(split_lines("Host a\r\nPort 1\n"), vec!["Host a".to_string(), "Port 1".to_string()]);
    assert_eq!(split_lines("a\n\nb"), vec!["a".to_string(), String::new(), "b".to_string()]);
    assert_eq!(split_lines("baz\r"), vec!["baz\r".to_string()]);
    assert_eq!(split_lines(""), Vec::<String>::new());
}

#[test]
fn from_text_reads_a_whole_configuration() {
    let config = from_text(SAMPLE).unwrap();
    let expected = Config {
        imap_stores: vec![
            ImapStoreConfig {
                name: "work-remote".to_string(),
                host: "imap.example.com".to_string(),
                port: Some(143),
                user: "alice@example.com".to_string(),
                pass: None,
                pass_command: Some("pass show work".to_string()),
                cert_file: Some("/etc/ssl/work.pem".to_string()),
            },
            ImapStoreConfig {
                name: "home-remote".to_string(),
                host: "mail.home.example".to_string(),
                port: None,
                user: "bob".to_string(),
                pass: Some("hunter2".to_string()),
                pass_command: None,
                cert_file: None,
            },
        ],
        channels: vec![
            ChannelConfig {
                name: "work".to_string(),
                near: ":work-local:".to_string(),
                far: ":work-remote:".to_string(),
            },
            ChannelConfig {
                name: "home".to_string(),
                near: ":home-local:".to_string(),
                far: ":home-remote:".to_string(),
            },
        ],
        groups: vec![GroupConfig {
            name: "mbwatch".to_string(),
            channels: vec![
                ("work".to_string(), "INBOX".to_string()),
                ("home".to_string(), "Archive".to_string()),
            ],
        }],
    };
    assert_eq!(config, expected);
}

#[test]
fn from_text_gives_the_same_configuration_twice() {
    assert_eq!(from_text(SAMPLE), from_text(SAMPLE));
    let broken = "IMAPStore a\nPort x\n";
    assert_eq!(from_text(broken), from_text(broken));
}

#[test]
fn from_text_of_nothing_is_the_empty_configuration() {
    assert_eq!(from_text(""), Ok(Config::default()));
    assert_eq!(from_text("\n\n# nothing\n   \n"), Ok(Config::default()));
}

#[test]
fn from_text_reads_windows_line_ends() {
    let config = from_text("IMAPStore a\r\nHost h\r\nPort 143\r\n").unwrap();
    assert_eq!(config.imap_stores[0].name, "a");
    assert_eq!(config.imap_stores[0].host, "h");
    assert_eq!(config.imap_stores[0].port, Some(143));
}

#[test]
fn quoted_password_is_read_without_quotes() {
    let config = from_text("IMAPStore a\nPass \"abc\"\n").unwrap();
    assert_eq!(config.imap_stores[0].pass, Some("abc".to_string()));
}

#[test]
fn bare_password_is_read_as_it_is() {
    let config = from_text("IMAPStore a\nPass abc\n").unwrap();
    assert_eq!(config.imap_stores[0].pass, Some("abc".to_string()));
}

#[test]
fn quoted_password_command_is_read_without_quotes() {
    let config = from_text("IMAPStore a\nPassCmd \"echo 123\"\n").unwrap();
    assert_eq!(config.imap_stores[0].pass_command, Some("echo 123".to_string()));
    assert_eq!(config.imap_stores[0].pass, None);
}

#[test]
fn quoted_values_are_read_without_quotes() {
    let config = from_text(
        "IMAPStore \"a\"\nHost \"h\"\nUser \"bob\"\nCertificateFile \"f\"\nChannel \"c\"\nFar \":a:\"\nNear \":b:\"\nGroup \"g\"\nChannels \"c:INBOX,d:Archive\"\n",
    )
    .unwrap();
    assert_eq!(config.imap_stores[0].name, "a");
    assert_eq!(config.imap_stores[0].host, "h");
    assert_eq!(config.imap_stores[0].user, "bob");
    assert_eq!(config.imap_stores[0].cert_file, Some("f".to_string()));
    assert_eq!(config.channels[0].name, "c");
    assert_eq!(config.channels[0].far, ":a:");
    assert_eq!(config.channels[0].near, ":b:");
    assert_eq!(config.groups[0].name, "g");
    assert_eq!(
        config.groups[0].channels,
        vec![("c".to_string(), "INBOX".to_string()), ("d".to_string(), "Archive".to_string())]
    );
    assert_eq!(config.find_imap_store(":a:"), Some(config.imap_stores[0].clone()));
}

#[test]
fn port_defaults_to_993() {
    let config = from_text("IMAPStore a\nHost h\n").unwrap();
    assert_eq!(config.imap_stores[0].port, None);
    assert_eq!(config.imap_stores[0].port(), 993);
    assert_eq!(ImapStoreConfig::default().port(), 993);
}

#[test]
fn port_line_sets_the_port() {
    let config = from_text("IMAPStore a\nPort 143\n").unwrap();
    assert_eq!(config.imap_stores[0].port(), 143);
    let config = from_text("IMAPStore a\nPort 143\nPort 1993\n").unwrap();
    assert_eq!(config.imap_stores[0].port(), 1993);
}

#[test]
fn keywords_set_the_entity_declared_last() {
    let config = from_text(
        "IMAPStore a\nHost ha\nIMAPStore b\nHost hb\nUser ub\nChannel c\nGroup g\nHost hb2\nFar :b:\n",
    )
    .unwrap();
    assert_eq!(config.imap_stores[0].host, "ha");
    assert_eq!(config.imap_stores[0].user, "");
    assert_eq!(config.imap_stores[1].host, "hb2");
    assert_eq!(config.imap_stores[1].user, "ub");
    assert_eq!(config.channels[0].far, ":b:");
}

#[test]
fn a_new_store_takes_nothing_from_the_one_before() {
    let config = from_text(
        "IMAPStore a\nHost ha\nPort 143\nUser ua\nPass pa\nPassCmd ca\nCertificateFile fa\nIMAPStore b\n",
    )
    .unwrap();
    let mut expected = ImapStoreConfig::default();
    expected.name = "b".to_string();
    assert_eq!(config.imap_stores[1], expected);
    assert_eq!(config.imap_stores[0].cert_file, Some("fa".to_string()));
}

#[test]
fn from_text_names_the_line_with_a_bad_port() {
    assert_eq!(from_text("IMAPStore a\nPort imap\nHost h\n"), Err(error(1, LineFault::InvalidPort)));
    assert_eq!(from_text("IMAPStore a\n\nPort 65536"), Err(error(2, LineFault::InvalidPort)));
}

#[test]
fn from_text_names_the_line_with_an_unknown_keyword() {
    assert_eq!(
        from_text("IMAPStore a\nHost h\nSSLType IMAPS\nPort x\n"),
        Err(error(2, LineFault::UnknownKeyword))
    );
}

#[test]
fn from_text_refuses_a_store_field_before_any_store() {
    assert_eq!(from_text("Host h\n"), Err(error(0, LineFault::NoStore)));
    assert_eq!(from_text("# c\nChannel c\nPort 143\n"), Err(error(2, LineFault::NoStore)));
    assert_eq!(from_text("User u"), Err(error(0, LineFault::NoStore)));
    assert_eq!(from_text("Pass p"), Err(error(0, LineFault::NoStore)));
    assert_eq!(from_text("PassCmd p"), Err(error(0, LineFault::NoStore)));
    assert_eq!(from_text("CertificateFile f"), Err(error(0, LineFault::NoStore)));
}

#[test]
fn from_text_refuses_a_channel_field_before_any_channel() {
    assert_eq!(from_text("IMAPStore a\nFar :a:\n"), Err(error(1, LineFault::NoChannel)));
    assert_eq!(from_text("Near :a:\n"), Err(error(0, LineFault::NoChannel)));
}

#[test]
fn from_text_refuses_a_channel_list_before_any_group() {
    assert_eq!(from_text("Channel c\nChannels c:INBOX\n"), Err(error(1, LineFault::NoGroup)));
}

#[test]
fn from_text_stops_at_the_first_wrong_line() {
    assert_eq!(from_text("Host h\nPort x\nFoo bar\n"), Err(error(0, LineFault::NoStore)));
}

#[test]
fn apply_leaves_the_configuration_alone_on_error() {
    let mut config = from_text("Channel c\n").unwrap();
    let before = from_text("Channel c\n").unwrap();
    assert_eq!(config.apply(ConfigLine::Host("h".to_string())), Err(LineFault::NoStore));
    assert_eq!(config, before);
    assert_eq!(config.apply(ConfigLine::Channels("c:INBOX".to_string())), Err(LineFault::NoGroup));
    assert_eq!(config, before);
    let mut empty = Config::default();
    assert_eq!(empty.apply(ConfigLine::Far(":a:".to_string())), Err(LineFault::NoChannel));
    assert_eq!(empty, Config::default());
}

#[test]
fn apply_sets_one_field() {
    let mut config = Config::default();
    assert_eq!(config.apply(ConfigLine::ImapStore("a".to_string())), Ok(()));
    assert_eq!(config.apply(ConfigLine::Port(143)), Ok(()));
    assert_eq!(config.apply(ConfigLine::Comment), Ok(()));
    assert_eq!(config.apply(ConfigLine::End), Ok(()));
    assert_eq!(config.apply(ConfigLine::Group("g".to_string())), Ok(()));
    assert_eq!(config.apply(ConfigLine::Channels("x:INBOX,y".to_string())), Ok(()));
    assert_eq!(config.imap_stores.len(), 1);
    assert_eq!(config.imap_stores[0].name, "a");
    assert_eq!(config.imap_stores[0].port, Some(143));
    assert_eq!(
        config.groups[0].channels,
        vec![("x".to_string(), "INBOX".to_string()), ("y".to_string(), String::new())]
    );
}

#[test]
fn find_imap_store_wants_the_name_between_colons() {
    let config = from_text(SAMPLE).unwrap();
    let found = config.find_imap_store(":home-remote:").unwrap();
    assert_eq!(found, config.imap_stores[1]);
    assert_eq!(found.host, "mail.home.example");
    assert_eq!(config.find_imap_store(":work-remote:"), Some(config.imap_stores[0].clone()));
    assert_eq!(config.find_imap_store("home-remote"), None);
    assert_eq!(config.find_imap_store(":home-remote"), None);
    assert_eq!(config.find_imap_store(":nowhere:"), None);
    assert_eq!(config.find_imap_store(""), None);
    assert_eq!(config.find_imap_store("::"), None);
}

#[test]
fn find_channel_and_find_group_want_the_bare_name() {
    let config = from_text(SAMPLE).unwrap();
    assert_eq!(config.find_channel("home"), Some(config.channels[1].clone()));
    assert_eq!(config.find_channel("work").unwrap().far, ":work-remote:");
    assert_eq!(config.find_channel(":home:"), None);
    assert_eq!(config.find_channel("hom"), None);
    assert_eq!(config.find_group("mbwatch"), Some(config.groups[0].clone()));
    assert_eq!(config.find_group("other"), None);
    assert_eq!(Config::default().find_group("mbwatch"), None);
}

#[test]
fn lookup_returns_the_first_of_equal_names() {
    let config = from_text("IMAPStore a\nHost first\nIMAPStore a\nHost second\nChannel c\nFar 1\nChannel c\nFar 2\n")
        .unwrap();
    assert_eq!(config.find_imap_store(":a:").unwrap().host, "first");
    assert_eq!(config.find_channel("c").unwrap().far, "1");
}

#[test]
fn store_key_is_the_name_between_colons() {
    let mut store = ImapStoreConfig::default();
    store.name = "work".to_string();
    assert_eq!(store.key(), ":work:");
    assert_eq!(ImapStoreConfig::default().key(), "::");
}

#[test]
fn clones_are_equal() {
    let config = from_text(SAMPLE).unwrap();
    assert_eq!(config.imap_stores[0].clone(), config.imap_stores[0]);
    assert_eq!(config.channels[0].clone(), config.channels[0]);
    assert_eq!(config.groups[0].clone(), config.groups[0]);
}

#[test]
fn set_changes_the_field_that_the_line_names() {
    let mut store = ImapStoreConfig::default();
    store.set(ConfigLine::Host("h".to_string()));
    store.set(ConfigLine::Port(143));
    store.set(ConfigLine::User("u".to_string()));
    store.set(ConfigLine::Pass("p".to_string()));
    store.set(ConfigLine::PassCommand("c".to_string()));
    store.set(ConfigLine::CertFile("f".to_string()));
    let expected = ImapStoreConfig {
        name: String::new(),
        host: "h".to_string(),
        port: Some(143),
        user: "u".to_string(),
        pass: Some("p".to_string()),
        pass_command: Some("c".to_string()),
        cert_file: Some("f".to_string()),
    };
    assert_eq!(store, expected);
    store.set(ConfigLine::Near("n".to_string()));
    store.set(ConfigLine::ImapStore("other".to_string()));
    store.set(ConfigLine::End);
    assert_eq!(store, expected);

    let mut channel = ChannelConfig::default();
    channel.set(ConfigLine::Near(":n:".to_string()));
    channel.set(ConfigLine::Far(":f:".to_string()));
    channel.set(ConfigLine::Host("h".to_string()));
    assert_eq!(
        channel,
        ChannelConfig { name: String::new(), near: ":n:".to_string(), far: ":f:".to_string() }
    );

    let mut group = GroupConfig::default();
    group.set(ConfigLine::Channels("a:INBOX".to_string()));
    group.set(ConfigLine::Far(":f:".to_string()));
    assert_eq!(group.channels, vec![("a".to_string(), "INBOX".to_string())]);
}

#[test]
fn lines_that_say_nothing_leave_no_trace() {
    let plain = "IMAPStore a\nHost h\nChannel c\nFar :a:\nGroup g\nChannels c:INBOX\n";
    let padded = "\n# stores\nIMAPStore a\n\n\nHost h\n   \n#Channel x\nChannel c\nEnd\nFar :a:\n\t\nGroup g\n  # list\nChannels c:INBOX\n\n\n";
    assert_eq!(from_text(padded), from_text(plain));
    assert!(from_text(plain).is_ok());
}

#[test]
fn lines_that_say_nothing_move_only_the_number_of_the_wrong_line() {
    assert_eq!(from_text("IMAPStore a\nPort x\n"), Err(error(1, LineFault::InvalidPort)));
    assert_eq!(
        from_text("\nIMAPStore a\n# port\n\nPort x\n"),
        Err(error(4, LineFault::InvalidPort))
    );
}

#[test]
fn a_field_needs_its_entity_wherever_the_line_stands() {
    let text = "IMAPStore a\nHost h\nGroup g\nChannels c:INBOX\n\n# no channel yet\nFar :a:\nChannel c\n";
    assert_eq!(from_text(text), Err(error(6, LineFault::NoChannel)));
    let text = "Channel c\nFar :a:\nIMAPStore a\nChannels c:INBOX\nGroup g\n";
    assert_eq!(from_text(text), Err(error(3, LineFault::NoGroup)));
    let text = "Channel c\nGroup g\nChannels c:INBOX\nNear :b:\nCertificateFile f\nIMAPStore a\n";
    assert_eq!(from_text(text), Err(error(4, LineFault::NoStore)));
}
