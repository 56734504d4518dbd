use rustscan::input::Opts;
use rustscan::address::FileError;
use rustscan::ip::IpAddress;
use rustscan::resolver::{
    choose_resolver, get_resolver, keep_present, read_resolver_from_file, NameServer, Protocol,
    ResolverChoice, DNS_PORT,
};
use rustscan::world::{FileAnswer, World};

fn servers(choice: ResolverChoice) -> Vec<NameServer> {
    match choice {
        ResolverChoice::Servers(servers) => servers,
        ResolverChoice::SystemThenPublic => panic!("no servers"),
    }
}

fn udp(address: IpAddress) -> NameServer {
    NameServer { address, port: 53, protocol: Protocol::Udp }
}

#[test]
fn resolver_default_cloudflare() {
    let opts = Opts::default();

    let choice = get_resolver(&opts.resolver, &World::new());

    assert!(opts.resolver.is_none());
    assert!(matches!(choice, ResolverChoice::SystemThenPublic));
}

#[test]
fn resolver_args_google_dns() {
    // https://developers.google.com/speed/public-dns
    let opts = Opts {
        resolver: Some("8.8.8.8,8.8.4.4".to_owned()),
        ..Default::default()
    };

    let choice = get_resolver(&opts.resolver, &World::new());

    assert_eq!(
        servers(choice),
        [udp(IpAddress::v4(8, 8, 8, 8)), udp(IpAddress::v4(8, 8, 4, 4))]
    );
}

#[test]
fn name_service_port() {
    assert_eq!(DNS_PORT, 53);
}

#[test]
fn resolver_list_skips_what_is_no_address() {
    let choice = get_resolver(&Some("1.1.1.1, 8.8.8.8,nope,,2606:4700:4700::1111".to_owned()), &World::new());
    assert_eq!(
        servers(choice),
        [udp(IpAddress::v4(1, 1, 1, 1)), udp(IpAddress::V6(0x2606_4700_4700 << 80 | 0x1111))]
    );
}

#[test]
fn resolver_without_any_address_falls_to_the_platform() {
    assert!(matches!(
        get_resolver(&Some("nope, 1.1.1.1".to_owned()), &World::new()),
        ResolverChoice::SystemThenPublic
    ));
    assert!(matches!(get_resolver(&Some(String::new()), &World::new()), ResolverChoice::SystemThenPublic));
    let mut world = World::new();
    world.record_file("servers.txt".to_owned(), FileAnswer::Text("# none\n\n".to_owned()));
    assert!(matches!(
        get_resolver(&Some("servers.txt".to_owned()), &world),
        ResolverChoice::SystemThenPublic
    ));
}

#[test]
fn resolver_file_one_address_to_a_line() {
    let mut world = World::new();
    world.record_file(
        "servers.txt".to_owned(),
        FileAnswer::Text("  9.9.9.9 \r\nbad line\n\n1.0.0.1\n::1\t\n9.9.9.9,1.1.1.1\n".to_owned()),
    );
    assert_eq!(
        read_resolver_from_file("servers.txt", &world),
        Ok(vec![IpAddress::v4(9, 9, 9, 9), IpAddress::v4(1, 0, 0, 1), IpAddress::V6(1)])
    );
    assert_eq!(
        servers(get_resolver(&Some("servers.txt".to_owned()), &world)),
        [udp(IpAddress::v4(9, 9, 9, 9)), udp(IpAddress::v4(1, 0, 0, 1)), udp(IpAddress::V6(1))]
    );
}

#[test]
fn resolver_file_errors_fall_back_to_the_list() {
    let mut world = World::new();
    world.record_file("8.8.8.8".to_owned(), FileAnswer::Unreadable);
    world.record_file("1.1.1.1,x".to_owned(), FileAnswer::NotAFile);
    assert_eq!(read_resolver_from_file("8.8.8.8", &world), Err(FileError::Unreadable));
    assert_eq!(read_resolver_from_file("1.1.1.1,x", &world), Err(FileError::NotAFile));
    assert_eq!(read_resolver_from_file("unknown", &world), Err(FileError::NotAFile));
    assert_eq!(
        servers(get_resolver(&Some("8.8.8.8".to_owned()), &world)),
        [udp(IpAddress::v4(8, 8, 8, 8))]
    );
    assert_eq!(
        servers(get_resolver(&Some("1.1.1.1,x".to_owned()), &world)),
        [udp(IpAddress::v4(1, 1, 1, 1))]
    );
}

#[test]
fn servers_from_addresses() {
    assert!(matches!(choose_resolver(vec![]), ResolverChoice::SystemThenPublic));
    assert_eq!(
        servers(choose_resolver(vec![IpAddress::V6(1), IpAddress::v4(1, 1, 1, 1)])),
        [udp(IpAddress::V6(1)), udp(IpAddress::v4(1, 1, 1, 1))]
    );
    assert_eq!(
        keep_present(&vec![None, Some(IpAddress::V4(1)), None, Some(IpAddress::V4(0)), None]),
        [IpAddress::V4(1), IpAddress::V4(0)]
    );
    assert!(keep_present(&vec![]).is_empty());
    assert!(keep_present(&vec![None]).is_empty());
}
