//! Which name servers the configured resolver asks.
//!
//! The resolver itself is built outside; here it is decided from what the
//! caller named, a file of addresses or a list separated by commas, which
//! servers it is built on.

use vstd::prelude::*;

use crate::address::FileError;
use crate::ip::{literal, parse_ip, IpAddress};
use crate::text::{lines, lines_of, rows, split, split_at, string_of, trim, trimmed};
use crate::world::{FileAnswer, FileView, World};

verus! {

/// The port on which name servers are asked.
pub const DNS_PORT: u16 = 53;

/// How a name server is asked.
#[derive(Clone, Copy, Debug, PartialEq, Eq, Structural)]
pub enum Protocol {
    Udp,
    Tcp,
}

/// A name server to ask.
#[derive(Clone, Copy, Debug, PartialEq, Eq, Structural)]
pub struct NameServer {
    pub address: IpAddress,
    pub port: u16,
    pub protocol: Protocol,
}

/// What the configured resolver is built on.
#[derive(Clone, Debug)]
pub enum ResolverChoice {
    /// These servers, in this order; there is at least one.
    Servers(Vec<NameServer>),
    /// The platform's own resolver configuration, and where that cannot be
    /// had a public resolver over an encrypted transport.
    SystemThenPublic,
}

/// A [`ResolverChoice`] with its servers as a sequence.
pub enum ResolverChoiceView {
    Servers(Seq<NameServer>),
    SystemThenPublic,
}

impl View for ResolverChoice {
    type V = ResolverChoiceView;

    open spec fn view(&self) -> ResolverChoiceView {
        match self {
            ResolverChoice::Servers(servers) => ResolverChoiceView::Servers(servers@),
            ResolverChoice::SystemThenPublic => ResolverChoiceView::SystemThenPublic,
        }
    }
}

/// The addresses that `items` spell, in order; an item that spells none is
/// passed over.
pub open spec fn literals(items: Seq<Seq<char>>) -> Seq<IpAddress>
    decreases items.len(),
{
    if items.len() == 0 {
        Seq::empty()
    } else {
        match literal(items.last()) {
            Some(ip) => literals(items.drop_last()).push(ip),
            None => literals(items.drop_last()),
        }
    }
}

/// Each of `items` without the white space around it.
pub open spec fn all_trimmed(items: Seq<Seq<char>>) -> Seq<Seq<char>> {
    Seq::new(items.len(), |i: int| trimmed(items[i]))
}

/// The addresses listed in the text of a resolver file: one to a line, white
/// space around it ignored.
pub open spec fn file_servers(text: Seq<char>) -> Seq<IpAddress> {
    literals(all_trimmed(lines(text)))
}

/// The addresses listed in `list` between commas.
pub open spec fn list_servers(list: Seq<char>) -> Seq<IpAddress> {
    literals(split(list, ','))
}

/// The addresses that the resolver source `source` names in `world`: those of
/// the file at that path where there is a readable one, else those of the
/// source itself read as a list.
pub open spec fn source_servers(world: World, source: Seq<char>) -> Seq<IpAddress> {
    match world.file_answer(source) {
        FileView::Text(text) => file_servers(text),
        _ => list_servers(source),
    }
}

/// A server on the name service port, asked by datagram, for each address.
pub open spec fn name_servers(ips: Seq<IpAddress>) -> Seq<NameServer> {
    Seq::new(
        ips.len(),
        |i: int| NameServer { address: ips[i], port: DNS_PORT, protocol: Protocol::Udp },
    )
}

/// What the resolver is built on, from the addresses that its source names:
/// a server for each, or the platform's configuration where there is none.
pub open spec fn chosen(ips: Seq<IpAddress>) -> ResolverChoiceView {
    if ips.len() > 0 {
        ResolverChoiceView::Servers(name_servers(ips))
    } else {
        ResolverChoiceView::SystemThenPublic
    }
}

/// What the resolver is built on: the servers that the source names, or the
/// platform's configuration where there is no source or it names no server.
pub open spec fn resolver_choice(world: World, resolver: Option<String>) -> ResolverChoiceView {
    match resolver {
        Some(source) => chosen(source_servers(world, source@)),
        None => ResolverChoiceView::SystemThenPublic,
    }
}

/// The addresses among `read`, in order.
pub open spec fn present(read: Seq<Option<IpAddress>>) -> Seq<IpAddress>
    decreases read.len(),
{
    if read.len() == 0 {
        Seq::empty()
    } else {
        match read.last() {
            Some(ip) => present(read.drop_last()).push(ip),
            None => present(read.drop_last()),
        }
    }
}

/// What each of `items` spells.
pub open spec fn all_literals(items: Seq<Seq<char>>) -> Seq<Option<IpAddress>> {
    Seq::new(items.len(), |i: int| literal(items[i]))
}

/// The addresses that `items` spell are what is present among what each
/// spells.
pub proof fn lemma_literals_present(items: Seq<Seq<char>>)
    ensures
        literals(items) == present(all_literals(items)),
    decreases items.len(),
{
    if items.len() > 0 {
        lemma_literals_present(items.drop_last());
        assert(all_literals(items).drop_last() =~= all_literals(items.drop_last()));
    }
}

/// The addresses among `read`, in order.
pub fn keep_present(read: &Vec<Option<IpAddress>>) -> (ips: Vec<IpAddress>)
    ensures
        ips@ == present(read@),
{
    let mut ips: Vec<IpAddress> = Vec::new();
    let mut i: usize = 0;
    assert(read@.take(0) =~= Seq::<Option<IpAddress>>::empty());
    while i < read.len()
        invariant
            i <= read.len(),
            ips@ == present(read@.take(i as int)),
        decreases read.len() - i,
    {
        assert(read@.take(i + 1).drop_last() =~= read@.take(i as int));
        match read[i] {
            Some(ip) => {
                ips.push(ip);
            },
            None => {},
        }
        i = i + 1;
    }
    assert(read@.take(read.len() as int) =~= read@);
    ips
}

/// The addresses that `items` spell, once trimmed or as they are.
fn collect_literals(items: &Vec<Vec<char>>, trimming: bool) -> (ips: Vec<IpAddress>)
    ensures
        ips@ == literals(
            if trimming {
                all_trimmed(rows(items@))
            } else {
                rows(items@)
            },
        ),
{
    let ghost source = if trimming {
        all_trimmed(rows(items@))
    } else {
        rows(items@)
    };
    let mut read: Vec<Option<IpAddress>> = Vec::new();
    let mut i: usize = 0;
    while i < items.len()
        invariant
            i <= items.len(),
            source == if trimming {
                all_trimmed(rows(items@))
            } else {
                rows(items@)
            },
            read@ == all_literals(source.take(i as int)),
        decreases items.len() - i,
    {
        let item = if trimming {
            string_of(&trim(&items[i]))
        } else {
            string_of(&items[i])
        };
        read.push(parse_ip(item.as_str()));
        assert(read@ =~= all_literals(source.take(i + 1)));
        i = i + 1;
    }
    proof {
        assert(source.take(items.len() as int) =~= source);
        lemma_literals_present(source);
    }
    keep_present(&read)
}

/// The addresses listed in the resolver file at `path`, or why there is no
/// such file. A line that spells no address is passed over.
pub fn read_resolver_from_file(path: &str, world: &World) -> (r: Result<
    Vec<IpAddress>,
    FileError,
>)
    ensures
        match world.file_answer(path@) {
            FileView::Text(text) => r is Ok && r->Ok_0@ == file_servers(text),
            FileView::NotAFile => r == Err::<Vec<IpAddress>, FileError>(FileError::NotAFile),
            FileView::Unreadable => r == Err::<Vec<IpAddress>, FileError>(FileError::Unreadable),
        },
{
    match world.find_file(path) {
        Some(i) => match &world.files[i].answer {
            FileAnswer::Text(text) => {
                let all = lines_of(text.as_str());
                Ok(collect_literals(&all, true))
            },
            FileAnswer::NotAFile => Err(FileError::NotAFile),
            FileAnswer::Unreadable => Err(FileError::Unreadable),
        },
        None => Err(FileError::NotAFile),
    }
}

/// Decides what the configured resolver is built on.
///
/// A source is first taken as the path of a file with one address to a line,
/// and where there is no readable file as a list of addresses between commas.
/// What spells no address is passed over. Each address becomes a server
/// asked by datagram on the name service port. Without a source, and with
/// one that names no server, the choice falls to the platform's
/// configuration.
pub fn get_resolver(resolver: &Option<String>, world: &World) -> (choice: ResolverChoice)
    ensures
        choice@ == resolver_choice(*world, *resolver),
{
    match resolver {
        Some(source) => {
            let ips = match read_resolver_from_file(source.as_str(), world) {
                Ok(ips) => ips,
                Err(_) => {
                    let items = split_at(source.as_str(), ',');
                    collect_literals(&items, false)
                },
            };
            choose_resolver(ips)
        },
        None => ResolverChoice::SystemThenPublic,
    }
}

/// What the resolver is built on, from the addresses that its source names.
pub fn choose_resolver(ips: Vec<IpAddress>) -> (choice: ResolverChoice)
    ensures
        choice@ == chosen(ips@),
{
    if ips.len() == 0 {
        return ResolverChoice::SystemThenPublic;
    }
    let mut servers: Vec<NameServer> = Vec::new();
    let mut i: usize = 0;
    while i < ips.len()
        invariant
            i <= ips.len(),
            servers@ == name_servers(ips@.take(i as int)),
        decreases ips.len() - i,
    {
        servers.push(NameServer { address: ips[i], port: DNS_PORT, protocol: Protocol::Udp });
        assert(servers@ =~= name_servers(ips@.take(i + 1)));
        i = i + 1;
    }
    assert(ips@.take(ips.len() as int) =~= ips@);
    ResolverChoice::Servers(servers)
}

} // verus!
