//! From target tokens to addresses.
//!
//! A token is a literal address, a block in CIDR notation, a host name, or
//! the path of a file that holds one such token per line. Exclusions are
//! blocks, addresses or host names. The result is the ordered list of the
//! addresses that the tokens stand for, without repetitions and without what
//! the exclusions cover.

use std::collections::HashSet;
use vstd::arithmetic::power2::pow2;
use vstd::prelude::*;

use crate::input::Opts;
use crate::ip::{
    cidr_notation, inet_notation, lemma_block_addresses, lemma_network_aligned, literal,
    parse_ip, read_cidr, read_inet, Inet, IpAddress, Network,
};
use crate::text::{blank, is_blank, lines, lines_of, rows, string_of, texts};
use crate::world::{FileAnswer, FileView, World};

verus! {

/// What the two resolvers' answers for one host name come to: the first
/// address of the platform resolver where it succeeded, even if it gave none,
/// and only where it failed all that the configured resolver gave.
pub open spec fn resolved(system: Option<Seq<IpAddress>>, backup: Seq<IpAddress>) -> Seq<
    IpAddress,
> {
    match system {
        Some(found) => if found.len() > 0 {
            seq![found[0]]
        } else {
            Seq::empty()
        },
        None => backup,
    }
}

/// The addresses of the host `host` in `world`.
pub open spec fn host_addresses(world: World, host: Seq<char>) -> Seq<IpAddress> {
    resolved(world.system_answer(host), world.backup_answer(host))
}

/// What a token stands for, from what it was read as: the address alone
/// where it spells one, else the whole block around the host where it is in
/// CIDR notation, else what its name resolved to.
pub open spec fn classified(
    literal: Option<IpAddress>,
    inet: Option<Inet>,
    resolved: Seq<IpAddress>,
) -> Seq<IpAddress> {
    match literal {
        Some(ip) => seq![ip],
        None => match inet {
            Some(inet) => if inet.wf() {
                inet.spec_network().spec_addresses()
            } else {
                resolved
            },
            None => resolved,
        },
    }
}

/// The addresses that a token stands for in `world`.
pub open spec fn token_addresses(world: World, token: Seq<char>) -> Seq<IpAddress> {
    classified(literal(token), inet_notation(token), host_addresses(world, token))
}

/// A literal address stands for itself alone, whatever the world holds.
pub proof fn lemma_literal_classification(world: World, token: Seq<char>, ip: IpAddress)
    requires
        literal(token) == Some(ip),
    ensures
        token_addresses(world, token) == seq![ip],
{
}

/// A token in CIDR notation stands for the whole block around its address,
/// whether or not the address has host bits set: two to the number of host
/// bits many addresses of its family, rising by one from the network address,
/// which is the address with its host bits cleared, to the broadcast address.
/// The address itself is among them.
pub proof fn lemma_block_classification(world: World, token: Seq<char>, inet: Inet)
    requires
        literal(token) is None,
        inet_notation(token) == Some(inet),
        inet.wf(),
    ensures
        ({
            let block = token_addresses(world, token);
            let len = pow2((inet.address.bits() - inet.prefix) as nat);
            let network = inet.address.value() - inet.address.value() % len;
            &&& block.len() == len
            &&& forall|i: int|
                0 <= i < len ==> (#[trigger] block[i]).same_family(inet.address)
                    && block[i].value() == network + i
            &&& network <= inet.address.value() < network + len
            &&& block.contains(inet.address)
        }),
{
    lemma_network_aligned(inet);
    lemma_block_addresses(inet.spec_network());
}

/// The addresses that one line of a target file stands for; a blank line
/// stands for none.
pub open spec fn line_addresses(world: World, line: Seq<char>) -> Seq<IpAddress> {
    if is_blank(line) {
        Seq::empty()
    } else {
        token_addresses(world, line)
    }
}

/// The addresses of `lines`, line after line.
pub open spec fn lines_addresses(world: World, lines: Seq<Seq<char>>) -> Seq<IpAddress>
    decreases lines.len(),
{
    if lines.len() == 0 {
        Seq::empty()
    } else {
        lines_addresses(world, lines.drop_last()) + line_addresses(world, lines.last())
    }
}

/// The addresses that the text of a target file stands for.
pub open spec fn text_addresses(world: World, text: Seq<char>) -> Seq<IpAddress> {
    lines_addresses(world, lines(text))
}

/// Appends the items of `more` to `ips`.
pub fn append_addresses(ips: &mut Vec<IpAddress>, more: &Vec<IpAddress>)
    ensures
        final(ips)@ == old(ips)@ + more@,
{
    let mut i: usize = 0;
    while i < more.len()
        invariant
            i <= more.len(),
            ips@ == old(ips)@ + more@.take(i as int),
        decreases more.len() - i,
    {
        ips.push(more[i]);
        i = i + 1;
    }
    assert(more@.take(more.len() as int) =~= more@);
}

/// The addresses that `source` resolves to in `world`.
pub fn resolve_ips_from_host(source: &str, world: &World) -> (ips: Vec<IpAddress>)
    ensures
        ips@ == host_addresses(*world, source@),
{
    let mut ips: Vec<IpAddress> = Vec::new();
    match world.find_system(source) {
        Some(i) => match &world.system[i].answer {
            Some(found) => {
                if found.len() > 0 {
                    ips.push(found[0]);
                }
                return ips;
            },
            None => {},
        },
        None => {},
    }
    match world.find_backup(source) {
        Some(i) => {
            append_addresses(&mut ips, &world.backup[i].answer);
        },
        None => {},
    }
    ips
}

/// What a token stands for, from what it was read as.
pub fn classify(literal: Option<IpAddress>, inet: Option<Inet>, resolved: Vec<IpAddress>) -> (ips:
    Vec<IpAddress>)
    ensures
        ips@ == classified(literal, inet, resolved@),
{
    match literal {
        Some(ip) => {
            let mut ips: Vec<IpAddress> = Vec::new();
            ips.push(ip);
            ips
        },
        None => match inet {
            Some(inet) => if inet.prefix <= inet.address.width() {
                inet.network().addresses()
            } else {
                resolved
            },
            None => resolved,
        },
    }
}

/// The addresses that the token `address` stands for in `world`: itself
/// where it is a literal address, else its whole block where it is in CIDR
/// notation, else what the name resolves to, which may be nothing.
pub fn parse_address(address: &str, world: &World) -> (ips: Vec<IpAddress>)
    ensures
        ips@ == token_addresses(*world, address@),
        literal(address@) matches Some(ip) ==> ips@ == seq![ip],
{
    classify(parse_ip(address), read_inet(address), resolve_ips_from_host(address, world))
}

/// Why a path gave no target file.
#[derive(Clone, Copy, Debug, PartialEq, Eq, Structural)]
pub enum FileError {
    /// Nothing is there, or what is there is no regular file.
    NotAFile,
    /// The file could not be opened or read.
    Unreadable,
}

/// What the target file at `path` contributes in `world`.
pub open spec fn file_outcome(world: World, path: Seq<char>) -> Result<Seq<IpAddress>, FileError> {
    match world.file_answer(path) {
        FileView::Text(text) => Ok(text_addresses(world, text)),
        FileView::NotAFile => Err(FileError::NotAFile),
        FileView::Unreadable => Err(FileError::Unreadable),
    }
}

/// The addresses that the lines of `text` stand for, in line order. A line is
/// read as an address, a block or a host name, never as a path.
pub fn read_ips_from_text(text: &str, world: &World) -> (ips: Vec<IpAddress>)
    ensures
        ips@ == text_addresses(*world, text@),
{
    let all = lines_of(text);
    let mut ips: Vec<IpAddress> = Vec::new();
    let mut i: usize = 0;
    assert(rows(all@).take(0) =~= Seq::<Seq<char>>::empty());
    while i < all.len()
        invariant
            i <= all.len(),
            rows(all@) == lines(text@),
            ips@ == lines_addresses(*world, rows(all@).take(i as int)),
        decreases all.len() - i,
    {
        proof {
            let upto = rows(all@).take(i + 1);
            assert(upto.drop_last() =~= rows(all@).take(i as int));
            assert(upto.last() == all@[i as int]@);
        }
        if !blank(&all[i]) {
            let line = string_of(&all[i]);
            let found = parse_address(line.as_str(), world);
            append_addresses(&mut ips, &found);
        }
        i = i + 1;
    }
    assert(rows(all@).take(all.len() as int) =~= rows(all@));
    ips
}

/// The addresses that the target file at `path` stands for in `world`, or why
/// there is no such file.
pub fn read_ips_from_file(path: &str, world: &World) -> (r: Result<Vec<IpAddress>, FileError>)
    ensures
        match file_outcome(*world, path@) {
            Ok(ips) => r is Ok && r->Ok_0@ == ips,
            Err(e) => r == Err::<Vec<IpAddress>, FileError>(e),
        },
{
    match world.find_file(path) {
        Some(i) => match &world.files[i].answer {
            FileAnswer::Text(text) => Ok(read_ips_from_text(text.as_str(), world)),
            FileAnswer::NotAFile => Err(FileError::NotAFile),
            FileAnswer::Unreadable => Err(FileError::Unreadable),
        },
        None => Err(FileError::NotAFile),
    }
}

/// The addresses of `tokens`, token after token.
pub open spec fn tokens_addresses(world: World, tokens: Seq<Seq<char>>) -> Seq<IpAddress>
    decreases tokens.len(),
{
    if tokens.len() == 0 {
        Seq::empty()
    } else {
        tokens_addresses(world, tokens.drop_last()) + token_addresses(world, tokens.last())
    }
}

/// The tokens of `tokens` that stand for no address, in order.
pub open spec fn unresolved_tokens(world: World, tokens: Seq<Seq<char>>) -> Seq<Seq<char>>
    decreases tokens.len(),
{
    if tokens.len() == 0 {
        Seq::empty()
    } else if token_addresses(world, tokens.last()).len() == 0 {
        unresolved_tokens(world, tokens.drop_last()).push(tokens.last())
    } else {
        unresolved_tokens(world, tokens.drop_last())
    }
}

/// The addresses that the target file at `path` contributes: none where
/// there is no readable file.
pub open spec fn file_addresses(world: World, path: Seq<char>) -> Seq<IpAddress> {
    match file_outcome(world, path) {
        Ok(ips) => ips,
        Err(_) => Seq::empty(),
    }
}

/// The addresses of the target files at `paths`, file after file.
pub open spec fn files_addresses(world: World, paths: Seq<Seq<char>>) -> Seq<IpAddress>
    decreases paths.len(),
{
    if paths.len() == 0 {
        Seq::empty()
    } else {
        files_addresses(world, paths.drop_last()) + file_addresses(world, paths.last())
    }
}

/// The paths of `paths` at which there is no readable file, in order.
pub open spec fn failed_paths(world: World, paths: Seq<Seq<char>>) -> Seq<Seq<char>>
    decreases paths.len(),
{
    if paths.len() == 0 {
        Seq::empty()
    } else if file_outcome(world, paths.last()) is Err {
        failed_paths(world, paths.drop_last()).push(paths.last())
    } else {
        failed_paths(world, paths.drop_last())
    }
}

/// The block that holds `ip` alone.
pub open spec fn host_network(ip: IpAddress) -> Network {
    Network { first: ip, prefix: ip.bits() as u8 }
}

/// One exclusion entry for each address of `ips`.
pub open spec fn host_networks(ips: Seq<IpAddress>) -> Seq<Network> {
    Seq::new(ips.len(), |i: int| host_network(ips[i]))
}

/// What an exclusion stands for, from what it was read as: the block where
/// it is one, else the address that it spells, else one entry for each
/// address that its name resolved to.
pub open spec fn classified_exclusion(
    cidr: Option<Network>,
    literal: Option<IpAddress>,
    resolved: Seq<IpAddress>,
) -> Seq<Network> {
    match cidr {
        Some(network) => seq![network],
        None => match literal {
            Some(ip) => seq![host_network(ip)],
            None => host_networks(resolved),
        },
    }
}

/// The entries that one exclusion stands for in `world`.
pub open spec fn exclusion_entries(world: World, exclusion: Seq<char>) -> Seq<Network> {
    classified_exclusion(
        cidr_notation(exclusion),
        literal(exclusion),
        host_addresses(world, exclusion),
    )
}

/// The entries of `exclusions`, one exclusion after the other.
pub open spec fn exclusions_entries(world: World, exclusions: Seq<Seq<char>>) -> Seq<Network>
    decreases exclusions.len(),
{
    if exclusions.len() == 0 {
        Seq::empty()
    } else {
        exclusions_entries(world, exclusions.drop_last()) + exclusion_entries(
            world,
            exclusions.last(),
        )
    }
}

/// Whether one of `entries` holds `ip`.
pub open spec fn excluded(entries: Seq<Network>, ip: IpAddress) -> bool {
    exists|i: int| 0 <= i < entries.len() && (#[trigger] entries[i]).spec_contains(ip)
}

/// `ips` in one forward pass: an address stays where it was not met before
/// and no entry holds it.
pub open spec fn kept(ips: Seq<IpAddress>, entries: Seq<Network>) -> Seq<IpAddress>
    decreases ips.len(),
{
    if ips.len() == 0 {
        Seq::empty()
    } else if ips.drop_last().contains(ips.last()) || excluded(entries, ips.last()) {
        kept(ips.drop_last(), entries)
    } else {
        kept(ips.drop_last(), entries).push(ips.last())
    }
}

/// What is kept are the addresses that no entry holds; none is kept twice,
/// and they stand in the order in which they are first met.
pub proof fn lemma_kept(ips: Seq<IpAddress>, entries: Seq<Network>)
    ensures
        forall|ip: IpAddress|
            kept(ips, entries).contains(ip) <==> ips.contains(ip) && !excluded(entries, ip),
        forall|i: int, j: int|
            0 <= i < j < kept(ips, entries).len() ==> kept(ips, entries)[i] != kept(
                ips,
                entries,
            )[j],
        kept(ips, entries).len() <= ips.len(),
    decreases ips.len(),
{
    if ips.len() > 0 {
        let before = ips.drop_last();
        let last = ips.last();
        let out = kept(ips, entries);
        let prev = kept(before, entries);
        lemma_kept(before, entries);
        assert forall|ip: IpAddress| ips.contains(ip) <==> before.contains(ip) || ip == last by {
            if ips.contains(ip) {
                let k = choose|k: int| 0 <= k < ips.len() && ips[k] == ip;
                if k < before.len() {
                    assert(before[k] == ip);
                }
            }
            if before.contains(ip) {
                let k = choose|k: int| 0 <= k < before.len() && before[k] == ip;
                assert(ips[k] == ip);
            }
            if ip == last {
                assert(ips[ips.len() - 1] == ip);
            }
        }
        if before.contains(last) || excluded(entries, last) {
        } else {
            assert(!prev.contains(last));
            assert forall|ip: IpAddress| out.contains(ip) <==> prev.contains(ip) || ip == last by {
                if out.contains(ip) {
                    let k = choose|k: int| 0 <= k < out.len() && out[k] == ip;
                    if k < prev.len() {
                        assert(prev[k] == ip);
                    }
                }
                if prev.contains(ip) {
                    let k = choose|k: int| 0 <= k < prev.len() && prev[k] == ip;
                    assert(out[k] == ip);
                }
                if ip == last {
                    assert(out[out.len() - 1] == ip);
                }
            }
            assert forall|i: int, j: int| 0 <= i < j < out.len() implies out[i] != out[j] by {
                if j == out.len() - 1 {
                    assert(prev[i] == out[i]);
                    assert(prev.contains(out[i]));
                }
            }
        }
    }
}

/// What is kept stands in the order of `ips`: there is a rising choice of
/// indices of `ips` at which the kept addresses stand, each at its first
/// occurrence.
pub proof fn lemma_kept_order(ips: Seq<IpAddress>, entries: Seq<Network>) -> (at: Seq<int>)
    ensures
        at.len() == kept(ips, entries).len(),
        forall|k: int|
            0 <= k < at.len() ==> 0 <= #[trigger] at[k] < ips.len() && ips[at[k]] == kept(
                ips,
                entries,
            )[k] && !ips.take(at[k]).contains(ips[at[k]]),
        forall|k: int, l: int| 0 <= k < l < at.len() ==> at[k] < at[l],
    decreases ips.len(),
{
    if ips.len() == 0 {
        Seq::empty()
    } else {
        let before = ips.drop_last();
        let last = ips.last();
        let prev = lemma_kept_order(before, entries);
        assert forall|k: int| 0 <= k < prev.len() implies ips.take(prev[k]) == before.take(
            prev[k],
        ) by {
            assert(ips.take(prev[k]) =~= before.take(prev[k]));
        }
        if before.contains(last) || excluded(entries, last) {
            prev
        } else {
            let at = prev.push(ips.len() - 1);
            assert(ips.take(ips.len() - 1) =~= before);
            at
        }
    }
}

/// Whether one of `entries` holds `ip`.
pub fn is_excluded(entries: &Vec<Network>, ip: &IpAddress) -> (r: bool)
    ensures
        r == excluded(entries@, *ip),
{
    let mut i: usize = 0;
    while i < entries.len()
        invariant
            i <= entries.len(),
            forall|k: int| 0 <= k < i ==> !(#[trigger] entries@[k]).spec_contains(*ip),
        decreases entries.len() - i,
    {
        if entries[i].contains(ip) {
            return true;
        }
        i = i + 1;
    }
    false
}

/// Merges the addresses of the direct tokens with those of the target files:
/// in that order, each address once, at its first occurrence, and none that
/// an exclusion entry holds.
pub fn aggregate(direct: &Vec<IpAddress>, files: &Vec<IpAddress>, entries: &Vec<Network>) -> (out:
    Vec<IpAddress>)
    ensures
        out@ == kept(direct@ + files@, entries@),
        forall|ip: IpAddress|
            out@.contains(ip) <==> (direct@ + files@).contains(ip) && !excluded(entries@, ip),
        forall|i: int, j: int| 0 <= i < j < out@.len() ==> out@[i] != out@[j],
{
    broadcast use vstd::std_specs::hash::group_hash_axioms;

    let mut all: Vec<IpAddress> = Vec::new();
    append_addresses(&mut all, direct);
    append_addresses(&mut all, files);
    let mut seen4: HashSet<u32> = HashSet::new();
    let mut seen6: HashSet<u128> = HashSet::new();
    let mut out: Vec<IpAddress> = Vec::new();
    let mut i: usize = 0;
    assert(all@.take(0) =~= Seq::<IpAddress>::empty());
    while i < all.len()
        invariant
            i <= all.len(),
            out@ == kept(all@.take(i as int), entries@),
            forall|v: u32| seen4@.contains(v) <==> all@.take(i as int).contains(IpAddress::V4(v)),
            forall|v: u128|
                seen6@.contains(v) <==> all@.take(i as int).contains(IpAddress::V6(v)),
        decreases all.len() - i,
    {
        let ip = all[i];
        proof {
            let before = all@.take(i as int);
            let upto = all@.take(i + 1);
            assert(upto.drop_last() =~= before);
            assert(upto.last() == ip);
            assert forall|other: IpAddress| upto.contains(other) <==> before.contains(other)
                || other == ip by {
                if upto.contains(other) {
                    let k = choose|k: int| 0 <= k < upto.len() && upto[k] == other;
                    if k < before.len() {
                        assert(before[k] == other);
                    }
                }
                if before.contains(other) {
                    let k = choose|k: int| 0 <= k < before.len() && before[k] == other;
                    assert(upto[k] == other);
                }
                if other == ip {
                    assert(upto[upto.len() - 1] == other);
                }
            }
        }
        let fresh = match ip {
            IpAddress::V4(v) => seen4.insert(v),
            IpAddress::V6(v) => seen6.insert(v),
        };
        if fresh && !is_excluded(entries, &ip) {
            out.push(ip);
        }
        i = i + 1;
    }
    proof {
        assert(all@.take(all.len() as int) =~= all@);
        lemma_kept(all@, entries@);
    }
    out
}

/// What an exclusion stands for, from what it was read as.
pub fn classify_exclusion(
    cidr: Option<Network>,
    literal: Option<IpAddress>,
    resolved: Vec<IpAddress>,
) -> (entries: Vec<Network>)
    ensures
        entries@ == classified_exclusion(cidr, literal, resolved@),
{
    let mut entries: Vec<Network> = Vec::new();
    match cidr {
        Some(network) => {
            entries.push(network);
        },
        None => match literal {
            Some(ip) => {
                entries.push(Network::host(ip));
            },
            None => {
                let mut i: usize = 0;
                while i < resolved.len()
                    invariant
                        i <= resolved.len(),
                        entries@ == host_networks(resolved@.take(i as int)),
                    decreases resolved.len() - i,
                {
                    entries.push(Network::host(resolved[i]));
                    assert(entries@ =~= host_networks(resolved@.take(i + 1)));
                    i = i + 1;
                }
                assert(resolved@.take(resolved.len() as int) =~= resolved@);
            },
        },
    }
    entries
}

/// The entries that the exclusion `addr` stands for in `world`. An exclusion
/// that is no block, no address and no name that resolves stands for none.
pub fn parse_single_excluded_address(addr: &str, world: &World) -> (entries: Vec<Network>)
    ensures
        entries@ == exclusion_entries(*world, addr@),
{
    classify_exclusion(read_cidr(addr), parse_ip(addr), resolve_ips_from_host(addr, world))
}

/// The texts of an optional list: none where there is no list.
pub open spec fn optional_texts(list: Option<Vec<String>>) -> Seq<Seq<char>> {
    match list {
        Some(items) => texts(items@),
        None => Seq::empty(),
    }
}

/// The exclusion entries that `exclude_addresses` stand for in `world`.
pub fn parse_excluded_networks(exclude_addresses: &Option<Vec<String>>, world: &World) -> (entries:
    Vec<Network>)
    ensures
        entries@ == exclusions_entries(*world, optional_texts(*exclude_addresses)),
{
    let mut entries: Vec<Network> = Vec::new();
    match exclude_addresses {
        Some(list) => {
            let mut i: usize = 0;
            assert(texts(list@).take(0) =~= Seq::<Seq<char>>::empty());
            while i < list.len()
                invariant
                    i <= list.len(),
                    entries@ == exclusions_entries(*world, texts(list@).take(i as int)),
                decreases list.len() - i,
            {
                proof {
                    let upto = texts(list@).take(i + 1);
                    assert(upto.drop_last() =~= texts(list@).take(i as int));
                    assert(upto.last() == list@[i as int]@);
                }
                let mut more = parse_single_excluded_address(list[i].as_str(), world);
                entries.append(&mut more);
                i = i + 1;
            }
            assert(texts(list@).take(list.len() as int) =~= texts(list@));
        },
        None => {},
    }
    entries
}

/// What target resolution comes to.
#[derive(Clone, Debug)]
pub struct Targets {
    /// The addresses to scan, each once, in the order of the tokens.
    pub addresses: Vec<IpAddress>,
    /// The tokens that stand for nothing: no address, no block, no name that
    /// resolves and no readable file. Each calls for one warning.
    pub unresolved: Vec<String>,
}

/// The addresses that `input` stands for in `world`: those of the direct
/// tokens, then those of the target files, each once and none that is
/// excluded.
pub open spec fn target_addresses(world: World, input: Opts) -> Seq<IpAddress> {
    let tokens = texts(input.addresses@);
    let paths = unresolved_tokens(world, tokens);
    kept(
        tokens_addresses(world, tokens) + files_addresses(world, paths),
        exclusions_entries(world, optional_texts(input.exclude_addresses)),
    )
}

/// The tokens of `input` that stand for nothing in `world`, in order.
pub open spec fn unresolved_targets(world: World, input: Opts) -> Seq<Seq<char>> {
    failed_paths(world, unresolved_tokens(world, texts(input.addresses@)))
}

/// Resolves the targets of `input` in `world`.
///
/// Each token is read as an address, a block or a host name. A token that
/// gives no address is then read as the path of a target file. What gives
/// nothing either way is reported in `unresolved`.
pub fn parse_addresses(input: &Opts, world: &World) -> (targets: Targets)
    ensures
        targets.addresses@ == target_addresses(*world, *input),
        texts(targets.unresolved@) == unresolved_targets(*world, *input),
        forall|i: int, j: int|
            0 <= i < j < targets.addresses@.len() ==> targets.addresses@[i]
                != targets.addresses@[j],
        forall|i: int|
            0 <= i < targets.addresses@.len() ==> !excluded(
                exclusions_entries(*world, optional_texts(input.exclude_addresses)),
                #[trigger] targets.addresses@[i],
            ),
{
    let ghost tokens = texts(input.addresses@);
    let mut direct: Vec<IpAddress> = Vec::new();
    let mut later: Vec<usize> = Vec::new();
    let mut i: usize = 0;
    assert(tokens.take(0) =~= Seq::<Seq<char>>::empty());
    while i < input.addresses.len()
        invariant
            i <= input.addresses.len(),
            tokens == texts(input.addresses@),
            direct@ == tokens_addresses(*world, tokens.take(i as int)),
            Seq::new(later@.len(), |k: int| tokens[later@[k] as int]) == unresolved_tokens(
                *world,
                tokens.take(i as int),
            ),
            forall|k: int| 0 <= k < later@.len() ==> later@[k] < i,
        decreases input.addresses.len() - i,
    {
        proof {
            let upto = tokens.take(i + 1);
            assert(upto.drop_last() =~= tokens.take(i as int));
            assert(upto.last() == input.addresses@[i as int]@);
        }
        let found = parse_address(input.addresses[i].as_str(), world);
        if found.len() > 0 {
            append_addresses(&mut direct, &found);
        } else {
            let ghost before = Seq::new(later@.len(), |k: int| tokens[later@[k] as int]);
            later.push(i);
            assert(Seq::new(later@.len(), |k: int| tokens[later@[k] as int]) =~= before.push(
                tokens[i as int],
            ));
            assert(direct@ + found@ =~= direct@);
        }
        i = i + 1;
    }
    assert(tokens.take(input.addresses.len() as int) =~= tokens);
    let ghost paths = unresolved_tokens(*world, tokens);
    let mut files: Vec<IpAddress> = Vec::new();
    let mut unresolved: Vec<String> = Vec::new();
    let mut j: usize = 0;
    assert(paths.take(0) =~= Seq::<Seq<char>>::empty());
    assert(texts(unresolved@) =~= Seq::<Seq<char>>::empty());
    while j < later.len()
        invariant
            j <= later.len(),
            tokens == texts(input.addresses@),
            paths == Seq::new(later@.len(), |k: int| tokens[later@[k] as int]),
            forall|k: int| 0 <= k < later@.len() ==> later@[k] < input.addresses@.len(),
            files@ == files_addresses(*world, paths.take(j as int)),
            texts(unresolved@) == failed_paths(*world, paths.take(j as int)),
        decreases later.len() - j,
    {
        let path = &input.addresses[later[j]];
        proof {
            let upto = paths.take(j + 1);
            assert(upto.drop_last() =~= paths.take(j as int));
            assert(upto.last() == path@);
        }
        match read_ips_from_file(path.as_str(), world) {
            Ok(found) => {
                append_addresses(&mut files, &found);
            },
            Err(_) => {
                let ghost before = texts(unresolved@);
                unresolved.push(path.clone());
                assert(texts(unresolved@) =~= before.push(path@));
                assert(files@ + Seq::<IpAddress>::empty() =~= files@);
            },
        }
        j = j + 1;
    }
    assert(paths.take(later.len() as int) =~= paths);
    let entries = parse_excluded_networks(&input.exclude_addresses, world);
    let addresses = aggregate(&direct, &files, &entries);
    proof {
        assert forall|k: int| 0 <= k < addresses@.len() implies !excluded(
            entries@,
            #[trigger] addresses@[k],
        ) by {
            assert(addresses@.contains(addresses@[k]));
        }
    }
    Targets { addresses, unresolved }
}

/// The tokens that stand for no address are those of the tokens of which
/// that holds.
pub proof fn lemma_unresolved_tokens(world: World, tokens: Seq<Seq<char>>)
    ensures
        forall|token: Seq<char>|
            unresolved_tokens(world, tokens).contains(token) <==> tokens.contains(token)
                && token_addresses(world, token).len() == 0,
    decreases tokens.len(),
{
    if tokens.len() > 0 {
        let before = tokens.drop_last();
        let last = tokens.last();
        let out = unresolved_tokens(world, tokens);
        let prev = unresolved_tokens(world, before);
        lemma_unresolved_tokens(world, before);
        assert forall|token: Seq<char>|
            out.contains(token) <==> tokens.contains(token) && token_addresses(world, token).len()
                == 0 by {
            if tokens.contains(token) {
                let k = choose|k: int| 0 <= k < tokens.len() && tokens[k] == token;
                if k < before.len() {
                    assert(before[k] == token);
                }
            }
            if before.contains(token) {
                let k = choose|k: int| 0 <= k < before.len() && before[k] == token;
                assert(tokens[k] == token);
            }
            if token == last {
                assert(tokens[tokens.len() - 1] == token);
            }
            if out.contains(token) {
                let k = choose|k: int| 0 <= k < out.len() && out[k] == token;
                if k < prev.len() {
                    assert(prev[k] == token);
                }
            }
            if prev.contains(token) {
                let k = choose|k: int| 0 <= k < prev.len() && prev[k] == token;
                if token_addresses(world, last).len() == 0 {
                    assert(out[k] == token);
                }
            }
            if token == last && token_addresses(world, last).len() == 0 {
                assert(out[out.len() - 1] == token);
            }
        }
    }
}

/// The paths without a readable file are those of the paths of which that
/// holds.
pub proof fn lemma_failed_paths(world: World, paths: Seq<Seq<char>>)
    ensures
        forall|path: Seq<char>|
            failed_paths(world, paths).contains(path) <==> paths.contains(path) && file_outcome(
                world,
                path,
            ) is Err,
    decreases paths.len(),
{
    if paths.len() > 0 {
        let before = paths.drop_last();
        let last = paths.last();
        let out = failed_paths(world, paths);
        let prev = failed_paths(world, before);
        lemma_failed_paths(world, before);
        assert forall|path: Seq<char>|
            out.contains(path) <==> paths.contains(path) && file_outcome(world, path) is Err by {
            if paths.contains(path) {
                let k = choose|k: int| 0 <= k < paths.len() && paths[k] == path;
                if k < before.len() {
                    assert(before[k] == path);
                }
            }
            if before.contains(path) {
                let k = choose|k: int| 0 <= k < before.len() && before[k] == path;
                assert(paths[k] == path);
            }
            if path == last {
                assert(paths[paths.len() - 1] == path);
            }
            if out.contains(path) {
                let k = choose|k: int| 0 <= k < out.len() && out[k] == path;
                if k < prev.len() {
                    assert(prev[k] == path);
                }
            }
            if prev.contains(path) {
                let k = choose|k: int| 0 <= k < prev.len() && prev[k] == path;
                if file_outcome(world, last) is Err {
                    assert(out[k] == path);
                }
            }
            if path == last && file_outcome(world, last) is Err {
                assert(out[out.len() - 1] == path);
            }
        }
    }
}

/// What is reported as unresolved are the tokens that stand for no address
/// and name no readable file. A line of a target file is never reported.
pub proof fn lemma_unresolved_targets(world: World, input: Opts)
    ensures
        forall|token: Seq<char>|
            unresolved_targets(world, input).contains(token) <==> texts(input.addresses@).contains(
                token,
            ) && token_addresses(world, token).len() == 0 && file_outcome(world, token) is Err,
{
    lemma_unresolved_tokens(world, texts(input.addresses@));
    lemma_failed_paths(world, unresolved_tokens(world, texts(input.addresses@)));
}

/// An address is excluded by a list of exclusions where one of them alone
/// excludes it, so the order of the exclusions does not matter.
pub proof fn lemma_excluded_by_one(world: World, exclusions: Seq<Seq<char>>, ip: IpAddress)
    ensures
        excluded(exclusions_entries(world, exclusions), ip) <==> exists|i: int|
            0 <= i < exclusions.len() && excluded(
                exclusion_entries(world, #[trigger] exclusions[i]),
                ip,
            ),
    decreases exclusions.len(),
{
    if exclusions.len() > 0 {
        let before = exclusions.drop_last();
        let last = exclusions.last();
        let head = exclusions_entries(world, before);
        let tail = exclusion_entries(world, last);
        let all = exclusions_entries(world, exclusions);
        lemma_excluded_by_one(world, before, ip);
        if excluded(all, ip) {
            let k = choose|k: int| 0 <= k < all.len() && (#[trigger] all[k]).spec_contains(ip);
            if k < head.len() {
                assert(head[k].spec_contains(ip));
                let i = choose|i: int|
                    0 <= i < before.len() && excluded(
                        exclusion_entries(world, #[trigger] before[i]),
                        ip,
                    );
                assert(exclusions[i] == before[i]);
            } else {
                assert(tail[k - head.len()].spec_contains(ip));
                assert(exclusions[exclusions.len() - 1] == last);
            }
        }
        if exists|i: int|
            0 <= i < exclusions.len() && excluded(
                exclusion_entries(world, #[trigger] exclusions[i]),
                ip,
            ) {
            let i = choose|i: int|
                0 <= i < exclusions.len() && excluded(
                    exclusion_entries(world, #[trigger] exclusions[i]),
                    ip,
                );
            if i < before.len() {
                assert(before[i] == exclusions[i]);
                let k = choose|k: int| 0 <= k < head.len() && (#[trigger] head[k]).spec_contains(ip);
                assert(all[k] == head[k]);
            } else {
                let k = choose|k: int| 0 <= k < tail.len() && (#[trigger] tail[k]).spec_contains(ip);
                assert(all[head.len() + k] == tail[k]);
            }
        }
    }
}

/// Two lists of entries that exclude the same addresses keep the same.
pub proof fn lemma_kept_same(ips: Seq<IpAddress>, one: Seq<Network>, other: Seq<Network>)
    requires
        forall|ip: IpAddress| excluded(one, ip) == excluded(other, ip),
    ensures
        kept(ips, one) == kept(ips, other),
    decreases ips.len(),
{
    if ips.len() > 0 {
        lemma_kept_same(ips.drop_last(), one, other);
    }
}

} // verus!
