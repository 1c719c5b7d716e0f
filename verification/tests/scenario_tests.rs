use hosts::address::Address;
use hosts::hostname::Hostname;
use hosts::hostsentry::HostsEntry;
use hosts::hostsfile::add::AddResult;
use hosts::hostsfile::parse::ParsedLine;
use hosts::hostsfile::remove::RemoveResult;
use hosts::hostsfile::HostsFile;

fn host_entry(ip: (u8, u8, u8, u8)) -> HostsEntry {
    HostsEntry::from(ip, "host.domain.com")
}

#[test]
fn it_tracks_address_width() {
    let lines = vec![
        String::from("1.1.1.1 host.domain.com"),
        String::from("2.2.2.2 host.domain.com"),
    ];
    let file = match HostsFile::try_read_from_lines(&lines) {
        Some(file) => file,
        None => panic!(),
    };
    assert_eq!(file.entries_count(), 2);
    assert_eq!(
        file.lines,
        vec![
            ParsedLine::Entry(host_entry((1, 1, 1, 1))),
            ParsedLine::Entry(host_entry((2, 2, 2, 2))),
        ]
    );
    assert_eq!(file.ip_width, 7);
}

#[test]
fn it_tracks_widest_address() {
    let lines = vec![
        String::from("1.1.1.1 host.domain.com"),
        String::from("255.255.255.255 other.domain.com"),
    ];
    let file = HostsFile::try_read_from_lines(&lines).unwrap();
    assert_eq!(file.ip_width, 15);
}

#[test]
fn it_counts_and_lists_lines() {
    let lines = vec![
        String::from("# comment"),
        String::from(""),
        String::from("1.2.3.4 host.domain.com"),
        String::from("bad line"),
    ];
    let file = HostsFile::try_read_from_lines(&lines).unwrap();
    assert_eq!(file.entries_count(), 1);
    assert_eq!(file.invalids_count(), 1);
    let entries = file.entries();
    assert_eq!(entries.len(), 1);
    assert_eq!(*entries[0], host_entry((1, 2, 3, 4)));
    let invalids = file.invalids();
    assert_eq!(invalids.len(), 1);
    assert_eq!(invalids[0].as_str(), "bad line");
}

#[test]
fn it_renders_entries_back() {
    let entry = host_entry((1, 2, 3, 4));
    let line = ParsedLine::Entry(entry).render();
    assert_eq!(line.as_str(), "1.2.3.4 host.domain.com");
    let reparsed = HostsFile::parse_line(line.as_str());
    assert_eq!(reparsed, ParsedLine::Entry(host_entry((1, 2, 3, 4))));
}

#[test]
fn it_renders_whole_file() {
    let lines = vec![
        String::from("# c"),
        String::from(""),
        String::from("1.2.3.4   host.domain.com  # x"),
        String::from("bad"),
    ];
    let file = HostsFile::try_read_from_lines(&lines).unwrap();
    let rendered = file.render_lines();
    assert_eq!(
        rendered,
        vec![
            String::from("# c"),
            String::from(""),
            String::from("1.2.3.4 host.domain.com"),
            String::from("bad"),
        ]
    );
}

#[test]
fn it_normalizes_hostnames() {
    let host = Hostname::parse("HOST.Domain.COM.").unwrap();
    assert_eq!(host.as_text(), "host.domain.com");
    let entry = HostsEntry::parse("1.1.1.1", "HOST.domain.com.").unwrap();
    assert_eq!(entry.render().as_str(), "1.1.1.1 host.domain.com");
    assert_eq!(entry, host_entry((1, 1, 1, 1)));
}

#[test]
fn it_rejects_bad_hostnames() {
    assert!(Hostname::parse("").is_none());
    assert!(Hostname::parse(".").is_none());
    assert!(Hostname::parse("invalid").is_none());
    assert!(Hostname::parse("a..b").is_none());
    assert!(Hostname::parse("with space.com").is_none());
    assert!(Hostname::parse("host.domain.com").is_some());
}

#[test]
fn it_rejects_bad_add_inputs() {
    assert!(HostsEntry::parse("1.2.3", "host.domain.com").is_err());
    assert!(HostsEntry::parse("1.2.3.256", "host.domain.com").is_err());
    assert!(HostsEntry::parse("01.2.3.4", "host.domain.com").is_err());
    assert!(HostsEntry::parse("1.2.3.4", "invalid").is_err());
    assert!(HostsEntry::parse("1.2.3.4", ".").is_err());
    assert!(HostsEntry::parse("1.2.3.4", "host.domain.com").is_ok());
}

#[test]
fn it_parses_addresses() {
    assert_eq!(Address::parse("192.168.0.1"), Some(Address::new(192, 168, 0, 1)));
    assert_eq!(Address::parse("0.0.0.0"), Some(Address::new(0, 0, 0, 0)));
    assert_eq!(Address::parse("255.255.255.255"), Some(Address::new(255, 255, 255, 255)));
    assert_eq!(Address::parse("256.0.0.1"), None);
    assert_eq!(Address::parse("1.2.3.4.5"), None);
    assert_eq!(Address::parse("1.2.3"), None);
    assert_eq!(Address::parse("00.1.1.1"), None);
    assert_eq!(Address::parse("1.2.3.4 "), None);
    assert_eq!(Address::parse(""), None);
}

#[test]
fn it_renders_addresses() {
    assert_eq!(Address::new(0, 10, 100, 255).to_text().as_str(), "0.10.100.255");
    assert_eq!(Address::new(255, 255, 255, 255).to_text().as_str(), "255.255.255.255");
    assert_eq!(Address::new(1, 2, 3, 4).text_len(), 7);
    assert_eq!(Address::new(255, 255, 255, 255).text_len(), 15);
}

#[test]
fn it_reports_incomplete_scan() {
    assert_eq!(HostsFile::try_parse_line("1.2.3.4"), None);
    assert_eq!(HostsFile::try_parse_line("1.2.3.4   "), None);
    assert!(HostsFile::try_read_from_lines(&vec![String::from("1.2.3.4")]).is_none());
    assert!(HostsFile::try_parse_line("1.2.3.4 host.domain.com").is_some());
}

#[test]
fn it_classifies_empty_line() {
    assert_eq!(HostsFile::parse_line(""), ParsedLine::Empty);
}

#[test]
fn it_handles_tabs_and_odd_whitespace() {
    assert_eq!(
        HostsFile::parse_line(" "),
        ParsedLine::Invalid(String::from(" "))
    );
    assert_eq!(
        HostsFile::parse_line("\t1.2.3.4 host.domain.com"),
        ParsedLine::Invalid(String::from("\t1.2.3.4 host.domain.com"))
    );
    assert_eq!(
        HostsFile::parse_line("1.2.3.4\thost.domain.com"),
        ParsedLine::Invalid(String::from("1.2.3.4\thost.domain.com"))
    );
    assert_eq!(
        HostsFile::parse_line("1.2.3.4 host.domain.com\t"),
        ParsedLine::Entry(host_entry((1, 2, 3, 4)))
    );
}

#[test]
fn it_adds_after_comment() {
    let mut lines = vec![ParsedLine::Comment(String::from("# c"))];
    let action = HostsFile::add_to_lines(&mut lines, &host_entry((1, 1, 1, 1)));
    assert_eq!(action, AddResult::Added);
    assert_eq!(
        lines,
        vec![
            ParsedLine::Comment(String::from("# c")),
            ParsedLine::Entry(host_entry((1, 1, 1, 1))),
        ]
    );
}

#[test]
fn it_reports_previous_address() {
    let mut lines = vec![ParsedLine::Entry(host_entry((1, 1, 1, 1)))];
    match HostsFile::add_to_lines(&mut lines, &host_entry((2, 2, 2, 2))) {
        AddResult::Updated(previous) => assert_eq!(previous, Address::new(1, 1, 1, 1)),
        _ => panic!(),
    }
    assert_eq!(lines, vec![ParsedLine::Entry(host_entry((2, 2, 2, 2)))]);
}

#[test]
fn it_updates_every_duplicate_hostname() {
    let mut lines = vec![
        ParsedLine::Entry(host_entry((1, 1, 1, 1))),
        ParsedLine::Entry(host_entry((2, 2, 2, 2))),
    ];
    let action = HostsFile::add_to_lines(&mut lines, &host_entry((2, 2, 2, 2)));
    assert_eq!(action, AddResult::Skipped);
    assert_eq!(
        lines,
        vec![
            ParsedLine::Entry(host_entry((2, 2, 2, 2))),
            ParsedLine::Entry(host_entry((2, 2, 2, 2))),
        ]
    );
}

#[test]
fn it_removes_entries_by_ip() {
    let mut lines = vec![
        ParsedLine::Comment(String::from("# keep")),
        ParsedLine::Entry(HostsEntry::from((1, 1, 1, 1), "a.domain.com")),
        ParsedLine::Entry(HostsEntry::from((1, 1, 1, 1), "b.domain.com")),
        ParsedLine::Entry(HostsEntry::from((2, 2, 2, 2), "c.domain.com")),
    ];
    match HostsFile::remove_from_lines(&mut lines, "1.1.1.1") {
        RemoveResult::RemovedByIp(amount) => assert_eq!(amount, 2),
        _ => panic!(),
    }
    assert_eq!(
        lines,
        vec![
            ParsedLine::Comment(String::from("# keep")),
            ParsedLine::Entry(HostsEntry::from((2, 2, 2, 2), "c.domain.com")),
        ]
    );
}

#[test]
fn it_rejects_invalid_remove_target() {
    let mut lines = vec![ParsedLine::Entry(host_entry((1, 1, 1, 1)))];
    let before = lines.clone();
    match HostsFile::remove_from_lines(&mut lines, "not a target!") {
        RemoveResult::Invalid => assert_eq!(lines, before),
        _ => panic!(),
    }
}

#[test]
fn it_removes_zero_matches() {
    let mut lines = vec![ParsedLine::Entry(host_entry((1, 1, 1, 1)))];
    match HostsFile::remove_from_lines(&mut lines, "other.domain.com") {
        RemoveResult::RemovedByHost(amount) => assert_eq!(amount, 0),
        _ => panic!(),
    }
    assert_eq!(lines, vec![ParsedLine::Entry(host_entry((1, 1, 1, 1)))]);
}

#[test]
fn it_checks_removal_count() {
    let mut lines = vec![
        ParsedLine::Comment(String::from("# c")),
        ParsedLine::Entry(host_entry((1, 1, 1, 1))),
    ];
    match HostsFile::remove_from_lines_checked(&mut lines, "host.domain.com") {
        Some(RemoveResult::RemovedByHost(amount)) => assert_eq!(amount, 1),
        _ => panic!(),
    }
    assert_eq!(lines, vec![ParsedLine::Comment(String::from("# c"))]);
}

#[test]
fn it_orders_entries() {
    let smaller_ip = HostsEntry::from((1, 1, 1, 1), "z.domain.com");
    let larger_ip = HostsEntry::from((1, 1, 1, 2), "a.domain.com");
    assert!(smaller_ip.lt(&larger_ip));
    assert!(!larger_ip.lt(&smaller_ip));
    let a_host = HostsEntry::from((1, 1, 1, 1), "a.domain.com");
    let b_host = HostsEntry::from((1, 1, 1, 1), "b.domain.com");
    assert!(a_host.lt(&b_host));
    assert!(!b_host.lt(&a_host));
    assert!(!a_host.lt(&HostsEntry::from((1, 1, 1, 1), "a.domain.com")));
}
