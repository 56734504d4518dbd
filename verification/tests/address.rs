use rustscan::address::{
    aggregate, classify, classify_exclusion, parse_address, parse_addresses,
    parse_excluded_networks, parse_single_excluded_address, read_ips_from_file,
    read_ips_from_text, resolve_ips_from_host, FileError,
};
use rustscan::input::Opts;
use rustscan::ip::{Inet, IpAddress, Network};
use rustscan::world::{FileAnswer, World};

fn strings(items: &[&str]) -> Vec<String> {
    items.iter().map(|item| item.to_string()).collect()
}

fn google() -> Vec<IpAddress> {
    vec![IpAddress::v4(142, 250, 74, 46), IpAddress::v4(142, 250, 74, 47)]
}

#[test]
fn parse_correct_addresses() {
    let opts = Opts {
        addresses: vec!["127.0.0.1".to_owned(), "192.168.0.0/30".to_owned()],
        ..Default::default()
    };

    let ips = parse_addresses(&opts, &World::new()).addresses;

    assert_eq!(
        ips,
        [
            IpAddress::v4(127, 0, 0, 1),
            IpAddress::v4(192, 168, 0, 0),
            IpAddress::v4(192, 168, 0, 1),
            IpAddress::v4(192, 168, 0, 2),
            IpAddress::v4(192, 168, 0, 3)
        ]
    );
}

#[test]
fn parse_addresses_with_address_exclusions() {
    let opts = Opts {
        addresses: vec!["192.168.0.0/30".to_owned()],
        exclude_addresses: Some(vec!["192.168.0.1".to_owned()]),
        ..Default::default()
    };
    let ips = parse_addresses(&opts, &World::new()).addresses;

    assert_eq!(
        ips,
        [
            IpAddress::v4(192, 168, 0, 0),
            IpAddress::v4(192, 168, 0, 2),
            IpAddress::v4(192, 168, 0, 3)
        ]
    );
}

#[test]
fn parse_addresses_with_cidr_exclusions() {
    let opts = Opts {
        addresses: vec!["192.168.0.0/29".to_owned()],
        exclude_addresses: Some(vec!["192.168.0.0/30".to_owned()]),
        ..Default::default()
    };
    let ips = parse_addresses(&opts, &World::new()).addresses;

    assert_eq!(
        ips,
        [
            IpAddress::v4(192, 168, 0, 4),
            IpAddress::v4(192, 168, 0, 5),
            IpAddress::v4(192, 168, 0, 6),
            IpAddress::v4(192, 168, 0, 7),
        ]
    );
}

#[test]
fn parse_addresses_with_incorrect_address_exclusions() {
    let opts = Opts {
        addresses: vec!["192.168.0.0/30".to_owned()],
        exclude_addresses: Some(vec!["192.168.0.1".to_owned()]),
        ..Default::default()
    };
    let ips = parse_addresses(&opts, &World::new()).addresses;

    assert_eq!(
        ips,
        [
            IpAddress::v4(192, 168, 0, 0),
            IpAddress::v4(192, 168, 0, 2),
            IpAddress::v4(192, 168, 0, 3)
        ]
    );
}

#[test]
fn parse_correct_host_addresses() {
    let opts = Opts {
        addresses: vec!["google.com".to_owned()],
        ..Default::default()
    };
    let mut world = World::new();
    world.record_system("google.com".to_owned(), Some(google()));

    let ips = parse_addresses(&opts, &world).addresses;

    assert_eq!(ips.len(), 1);
    assert_eq!(ips, [IpAddress::v4(142, 250, 74, 46)]);
}

#[test]
fn parse_correct_and_incorrect_addresses() {
    let opts = Opts {
        addresses: vec!["127.0.0.1".to_owned(), "im_wrong".to_owned()],
        ..Default::default()
    };

    let targets = parse_addresses(&opts, &World::new());

    assert_eq!(targets.addresses, [IpAddress::v4(127, 0, 0, 1),]);
    assert_eq!(targets.unresolved, ["im_wrong"]);
}

#[test]
fn parse_incorrect_addresses() {
    let opts = Opts {
        addresses: vec!["im_wrong".to_owned(), "300.10.1.1".to_owned()],
        ..Default::default()
    };

    let targets = parse_addresses(&opts, &World::new());

    assert!(targets.addresses.is_empty());
    assert_eq!(targets.unresolved, ["im_wrong", "300.10.1.1"]);
}

#[test]
fn parse_hosts_file_and_incorrect_hosts() {
    // Host file contains IP, Hosts, incorrect IPs, incorrect hosts
    let opts = Opts {
        addresses: vec!["fixtures/hosts.txt".to_owned()],
        ..Default::default()
    };
    let mut world = World::new();
    world.record_file(
        "fixtures/hosts.txt".to_owned(),
        FileAnswer::Text("127.0.0.1\ngoogle.com\n192.168.0.1\n300.10.1.1\nim_wrong\n".to_owned()),
    );
    world.record_system("google.com".to_owned(), Some(google()));

    let targets = parse_addresses(&opts, &world);

    assert_eq!(targets.addresses.len(), 3);
    assert_eq!(
        targets.addresses,
        [
            IpAddress::v4(127, 0, 0, 1),
            IpAddress::v4(142, 250, 74, 46),
            IpAddress::v4(192, 168, 0, 1)
        ]
    );
    assert!(targets.unresolved.is_empty());
}

#[test]
fn parse_empty_hosts_file() {
    // Host file contains IP, Hosts, incorrect IPs, incorrect hosts
    let opts = Opts {
        addresses: vec!["fixtures/empty_hosts.txt".to_owned()],
        ..Default::default()
    };
    let mut world = World::new();
    world.record_file("fixtures/empty_hosts.txt".to_owned(), FileAnswer::Text(String::new()));

    let targets = parse_addresses(&opts, &world);

    assert_eq!(targets.addresses.len(), 0);
    assert!(targets.unresolved.is_empty());
}

#[test]
fn parse_naughty_host_file() {
    // Host file contains IP, Hosts, incorrect IPs, incorrect hosts
    let opts = Opts {
        addresses: vec!["fixtures/naughty_string.txt".to_owned()],
        ..Default::default()
    };
    let naughty = "undefined\nnull\n(null)\nNaN\n-1/2\n1e2\n0x0\n   \n\u{feff}\n<script>\n\
                   ../../etc/passwd\n999.999.999.999\n1.2.3.4.5\n1.2.3.4/33\n\u{202e}test\n\r\n";
    let mut world = World::new();
    world.record_file("fixtures/naughty_string.txt".to_owned(), FileAnswer::Text(naughty.to_owned()));

    let targets = parse_addresses(&opts, &world);

    assert_eq!(targets.addresses.len(), 0);
    assert!(targets.unresolved.is_empty());
}

#[test]
fn parse_duplicate_cidrs() {
    let opts = Opts {
        addresses: vec!["79.98.104.0/21".to_owned(), "79.98.104.0/24".to_owned()],
        ..Default::default()
    };

    let ips = parse_addresses(&opts, &World::new()).addresses;

    assert_eq!(ips.len(), 2_048);
}

#[test]
fn parse_overspecific_cidr() {
    // a canonical CIDR string has 0 in all host bits, but we want to treat any CIDR-like string as CIDR
    let opts = Opts {
        addresses: vec!["192.128.1.1/24".to_owned()],
        ..Default::default()
    };

    let ips = parse_addresses(&opts, &World::new()).addresses;

    assert_eq!(ips.len(), 256);
    assert_eq!(ips[0], IpAddress::v4(192, 128, 1, 0));
    assert_eq!(ips[255], IpAddress::v4(192, 128, 1, 255));
}

#[test]
fn literal_address_stands_for_itself() {
    let world = World::new();
    assert_eq!(parse_address("10.1.2.3", &world), [IpAddress::v4(10, 1, 2, 3)]);
    assert_eq!(parse_address("::1", &world), [IpAddress::V6(1)]);
    assert_eq!(
        parse_address("2001:db8::ff", &world),
        [IpAddress::V6(0x2001_0db8_0000_0000_0000_0000_0000_00ff)]
    );
}

#[test]
fn block_is_ascending_from_network_to_broadcast() {
    let block = parse_address("10.9.8.7/28", &World::new());
    assert_eq!(block.len(), 16);
    for (i, ip) in block.iter().enumerate() {
        assert_eq!(*ip, IpAddress::V4(0x0a09_0800 + i as u32));
    }
}

#[test]
fn block_of_whole_octets() {
    let block = parse_address("172.16.0.0/16", &World::new());
    assert_eq!(block.len(), 65_536);
    assert_eq!(block[0], IpAddress::v4(172, 16, 0, 0));
    assert_eq!(block[65_535], IpAddress::v4(172, 16, 255, 255));
}

#[test]
fn ipv6_block() {
    let block = parse_address("2001:db8::5/126", &World::new());
    assert_eq!(
        block,
        [
            IpAddress::V6(0x2001_0db8_0000_0000_0000_0000_0000_0004),
            IpAddress::V6(0x2001_0db8_0000_0000_0000_0000_0000_0005),
            IpAddress::V6(0x2001_0db8_0000_0000_0000_0000_0000_0006),
            IpAddress::V6(0x2001_0db8_0000_0000_0000_0000_0000_0007),
        ]
    );
}

#[test]
fn host_prefix_is_one_address() {
    assert_eq!(parse_address("8.8.8.8/32", &World::new()), [IpAddress::v4(8, 8, 8, 8)]);
    assert_eq!(parse_address("::2/128", &World::new()), [IpAddress::V6(2)]);
}

#[test]
fn short_ipv4_is_read_as_a_host() {
    assert_eq!(parse_address("10", &World::new()), [IpAddress::v4(10, 0, 0, 0)]);
    assert_eq!(parse_address("192.168", &World::new()), [IpAddress::v4(192, 168, 0, 0)]);
}

#[test]
fn prefix_longer_than_the_address_is_no_block() {
    assert!(parse_address("1.2.3.4/33", &World::new()).is_empty());
    assert!(parse_address("::1/129", &World::new()).is_empty());
    assert!(parse_address("1.2.3.4/", &World::new()).is_empty());
    assert!(parse_address("host.example/24", &World::new()).is_empty());
}

#[test]
fn system_answer_gives_its_first_address_only() {
    let mut world = World::new();
    world.record_system("two.example".to_owned(), Some(google()));
    world.record_backup("two.example".to_owned(), vec![IpAddress::v4(9, 9, 9, 9)]);
    assert_eq!(resolve_ips_from_host("two.example", &world), [IpAddress::v4(142, 250, 74, 46)]);
}

#[test]
fn empty_system_answer_is_no_failure() {
    let mut world = World::new();
    world.record_system("empty.example".to_owned(), Some(vec![]));
    world.record_backup("empty.example".to_owned(), vec![IpAddress::v4(9, 9, 9, 9)]);
    assert!(resolve_ips_from_host("empty.example", &world).is_empty());
}

#[test]
fn backup_answers_in_full_after_a_failure() {
    let mut world = World::new();
    world.record_system("down.example".to_owned(), None);
    world.record_backup(
        "down.example".to_owned(),
        vec![IpAddress::v4(9, 9, 9, 9), IpAddress::V6(7), IpAddress::v4(9, 9, 9, 10)],
    );
    assert_eq!(
        resolve_ips_from_host("down.example", &world),
        [IpAddress::v4(9, 9, 9, 9), IpAddress::V6(7), IpAddress::v4(9, 9, 9, 10)]
    );
}

#[test]
fn unknown_host_resolves_to_nothing() {
    assert!(resolve_ips_from_host("nowhere.example", &World::new()).is_empty());
    let mut world = World::new();
    world.record_system("nowhere.example".to_owned(), None);
    assert!(resolve_ips_from_host("nowhere.example", &world).is_empty());
}

#[test]
fn earlier_record_counts() {
    let mut world = World::new();
    world.record_system("a.example".to_owned(), Some(vec![IpAddress::v4(1, 1, 1, 1)]));
    world.record_system("a.example".to_owned(), Some(vec![IpAddress::v4(2, 2, 2, 2)]));
    assert_eq!(resolve_ips_from_host("a.example", &world), [IpAddress::v4(1, 1, 1, 1)]);
}

#[test]
fn file_lines_keep_their_order_and_expand_in_place() {
    let mut world = World::new();
    world.record_system("b.example".to_owned(), None);
    world.record_backup(
        "b.example".to_owned(),
        vec![IpAddress::v4(5, 5, 5, 5), IpAddress::v4(5, 5, 5, 6)],
    );
    let text = "10.0.0.8/31\r\n\r\nb.example\n   \nnot a host\n10.0.0.1";
    assert_eq!(
        read_ips_from_text(text, &world),
        [
            IpAddress::v4(10, 0, 0, 8),
            IpAddress::v4(10, 0, 0, 9),
            IpAddress::v4(5, 5, 5, 5),
            IpAddress::v4(5, 5, 5, 6),
            IpAddress::v4(10, 0, 0, 1),
        ]
    );
}

#[test]
fn a_line_is_never_read_as_a_path() {
    let mut world = World::new();
    world.record_file("outer.txt".to_owned(), FileAnswer::Text("inner.txt\n1.1.1.1\n".to_owned()));
    world.record_file("inner.txt".to_owned(), FileAnswer::Text("2.2.2.2\n".to_owned()));
    let opts = Opts { addresses: strings(&["outer.txt"]), ..Default::default() };
    let targets = parse_addresses(&opts, &world);
    assert_eq!(targets.addresses, [IpAddress::v4(1, 1, 1, 1)]);
    assert!(targets.unresolved.is_empty());
}

#[test]
fn file_errors() {
    let mut world = World::new();
    world.record_file("locked.txt".to_owned(), FileAnswer::Unreadable);
    world.record_file("dir".to_owned(), FileAnswer::NotAFile);
    world.record_file("ok.txt".to_owned(), FileAnswer::Text("1.2.3.4".to_owned()));
    assert_eq!(read_ips_from_file("locked.txt", &world), Err(FileError::Unreadable));
    assert_eq!(read_ips_from_file("dir", &world), Err(FileError::NotAFile));
    assert_eq!(read_ips_from_file("missing.txt", &world), Err(FileError::NotAFile));
    assert_eq!(read_ips_from_file("ok.txt", &world), Ok(vec![IpAddress::v4(1, 2, 3, 4)]));
}

#[test]
fn unreadable_file_is_reported_once() {
    let mut world = World::new();
    world.record_file("locked.txt".to_owned(), FileAnswer::Unreadable);
    let opts = Opts { addresses: strings(&["locked.txt", "1.1.1.1"]), ..Default::default() };
    let targets = parse_addresses(&opts, &world);
    assert_eq!(targets.addresses, [IpAddress::v4(1, 1, 1, 1)]);
    assert_eq!(targets.unresolved, ["locked.txt"]);
}

#[test]
fn direct_results_come_before_file_results() {
    let mut world = World::new();
    world.record_file("list.txt".to_owned(), FileAnswer::Text("3.3.3.3\n1.1.1.1\n".to_owned()));
    let opts = Opts {
        addresses: strings(&["list.txt", "1.1.1.1", "2.2.2.2"]),
        ..Default::default()
    };
    let targets = parse_addresses(&opts, &world);
    assert_eq!(
        targets.addresses,
        [IpAddress::v4(1, 1, 1, 1), IpAddress::v4(2, 2, 2, 2), IpAddress::v4(3, 3, 3, 3)]
    );
}

#[test]
fn exclusion_kinds() {
    let mut world = World::new();
    world.record_system("x.example".to_owned(), None);
    world.record_backup(
        "x.example".to_owned(),
        vec![IpAddress::v4(7, 7, 7, 7), IpAddress::V6(9)],
    );
    assert_eq!(
        parse_single_excluded_address("10.0.0.0/8", &world),
        [Network { first: IpAddress::v4(10, 0, 0, 0), prefix: 8 }]
    );
    assert_eq!(
        parse_single_excluded_address("10.0.0.1", &world),
        [Network { first: IpAddress::v4(10, 0, 0, 1), prefix: 32 }]
    );
    assert_eq!(
        parse_single_excluded_address("x.example", &world),
        [
            Network { first: IpAddress::v4(7, 7, 7, 7), prefix: 32 },
            Network { first: IpAddress::V6(9), prefix: 128 },
        ]
    );
    assert_eq!(
        parse_single_excluded_address("::/0", &world),
        [Network { first: IpAddress::V6(0), prefix: 0 }]
    );
    // host bits set: no block, no address, and no name that resolves
    assert!(parse_single_excluded_address("10.0.0.1/8", &world).is_empty());
    assert!(parse_single_excluded_address("192.168.0.1/16", &world).is_empty());
    assert!(parse_single_excluded_address("10.0.0.0/33", &world).is_empty());
    assert!(parse_single_excluded_address("no.example", &world).is_empty());
}

#[test]
fn exclusions_in_order_and_none() {
    let world = World::new();
    assert!(parse_excluded_networks(&None, &world).is_empty());
    assert_eq!(
        parse_excluded_networks(&Some(strings(&["1.1.1.1", "bad", "2.0.0.0/7"])), &world),
        [
            Network { first: IpAddress::v4(1, 1, 1, 1), prefix: 32 },
            Network { first: IpAddress::v4(2, 0, 0, 0), prefix: 7 },
        ]
    );
}

#[test]
fn aggregate_keeps_first_occurrences_in_order() {
    let a = IpAddress::v4(1, 0, 0, 1);
    let b = IpAddress::v4(1, 0, 0, 2);
    let c = IpAddress::V6(3);
    let d = IpAddress::v4(9, 0, 0, 1);
    let entries = vec![Network::new(IpAddress::v4(9, 0, 0, 0), 8).unwrap()];
    assert_eq!(aggregate(&vec![b, a, b, d], &vec![c, a, d, c], &entries), [b, a, c]);
    assert!(aggregate(&vec![], &vec![], &entries).is_empty());
}

#[test]
fn ipv4_and_ipv6_of_one_number_differ() {
    let four = IpAddress::V4(1);
    let six = IpAddress::V6(1);
    assert_eq!(aggregate(&vec![four, six, four], &vec![six], &vec![]), [four, six]);
    let entries = vec![Network { first: four, prefix: 32 }];
    assert_eq!(aggregate(&vec![four, six], &vec![], &entries), [six]);
}

#[test]
fn excluded_by_resolved_name() {
    let mut world = World::new();
    world.record_system("gw.example".to_owned(), Some(vec![IpAddress::v4(192, 168, 0, 2)]));
    let opts = Opts {
        addresses: strings(&["192.168.0.0/30"]),
        exclude_addresses: Some(strings(&["gw.example"])),
        ..Default::default()
    };
    assert_eq!(
        parse_addresses(&opts, &world).addresses,
        [IpAddress::v4(192, 168, 0, 0), IpAddress::v4(192, 168, 0, 1), IpAddress::v4(192, 168, 0, 3)]
    );
}

#[test]
fn no_targets_is_no_error() {
    let targets = parse_addresses(&Opts::default(), &World::new());
    assert!(targets.addresses.is_empty());
    assert!(targets.unresolved.is_empty());
}

#[test]
fn classification_from_what_was_read() {
    let resolved = vec![IpAddress::v4(9, 9, 9, 9), IpAddress::v4(9, 9, 9, 10)];
    let inet = Inet { address: IpAddress::v4(10, 0, 0, 6), prefix: 30 };
    // an address wins over a block, a block over a name
    assert_eq!(
        classify(Some(IpAddress::v4(1, 1, 1, 1)), Some(inet), resolved.clone()),
        [IpAddress::v4(1, 1, 1, 1)]
    );
    assert_eq!(
        classify(None, Some(inet), resolved.clone()),
        [
            IpAddress::v4(10, 0, 0, 4),
            IpAddress::v4(10, 0, 0, 5),
            IpAddress::v4(10, 0, 0, 6),
            IpAddress::v4(10, 0, 0, 7),
        ]
    );
    assert_eq!(classify(None, None, resolved.clone()), resolved);
    assert!(classify(None, None, vec![]).is_empty());
    // a prefix longer than the address is no block
    let long = Inet { address: IpAddress::v4(10, 0, 0, 6), prefix: 33 };
    assert_eq!(classify(None, Some(long), resolved.clone()), resolved);
}

#[test]
fn exclusion_from_what_was_read() {
    let resolved = vec![IpAddress::v4(9, 9, 9, 9), IpAddress::V6(3)];
    let block = Network { first: IpAddress::v4(10, 0, 0, 0), prefix: 8 };
    assert_eq!(
        classify_exclusion(Some(block), Some(IpAddress::v4(1, 1, 1, 1)), resolved.clone()),
        [block]
    );
    assert_eq!(
        classify_exclusion(None, Some(IpAddress::v4(1, 1, 1, 1)), resolved.clone()),
        [Network { first: IpAddress::v4(1, 1, 1, 1), prefix: 32 }]
    );
    assert_eq!(
        classify_exclusion(None, None, resolved),
        [
            Network { first: IpAddress::v4(9, 9, 9, 9), prefix: 32 },
            Network { first: IpAddress::V6(3), prefix: 128 },
        ]
    );
    assert!(classify_exclusion(None, None, vec![]).is_empty());
}
