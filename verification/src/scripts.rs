//! Scripts to run on what the scan found.
//!
//! A script file carries its own description: after its first line, a run of
//! lines that start with `#` holds a TOML record with the script's tags, its
//! call format and more. A script configuration names the tags that a script
//! may carry to be selected. Reading files and running commands are left to
//! the caller; here are the rules.

use cidr_utils::cidr::Ipv6Inet;
use std::collections::HashMap;
use text_placeholder::Template;
use vstd::prelude::*;

use crate::input::ScriptsRequired;
use crate::ip::IpAddress;
use crate::table::{
    entries_view, get_list, get_text, list_field, read_table, text_field, toml_table, Field,
    TomlEntry, ValueView,
};
use crate::text::{chars_of, lines, lines_of, rows, same_text, string_of, texts, trim, trimmed};

verus! {

/// Name of the script configuration file in the user's home directory.
pub const CONFIG_FILE: &'static str = ".rustscan_scripts.toml";

/// Why a script or the script configuration is of no use.
#[derive(Clone, Copy, Debug, PartialEq, Eq, Structural)]
pub enum ScriptError {
    /// The script configuration is no TOML record of the expected fields.
    InvalidConfig,
    /// Neither the configuration nor the user's home names a directory.
    NoScriptsPath,
    /// The script has no call format.
    MissingCallFormat,
    /// The command ended with this code, or was ended by this signal.
    ExitCode(i32),
}

/// The description that a script file carries.
#[derive(Clone, Debug)]
pub struct ScriptFile {
    pub path: Option<String>,
    pub tags: Option<Vec<String>>,
    pub developer: Option<Vec<String>>,
    pub port: Option<String>,
    pub ports_separator: Option<String>,
    pub call_format: Option<String>,
}

/// A [`ScriptFile`] with its texts as sequences of characters.
pub struct ScriptFileView {
    pub path: Option<Seq<char>>,
    pub tags: Option<Seq<Seq<char>>>,
    pub developer: Option<Seq<Seq<char>>>,
    pub port: Option<Seq<char>>,
    pub ports_separator: Option<Seq<char>>,
    pub call_format: Option<Seq<char>>,
}

/// The script configuration.
#[derive(Clone, Debug)]
pub struct ScriptConfig {
    pub tags: Option<Vec<String>>,
    pub ports: Option<Vec<String>>,
    pub developer: Option<Vec<String>>,
    pub directory: Option<String>,
}

/// A [`ScriptConfig`] with its texts as sequences of characters.
pub struct ScriptConfigView {
    pub tags: Option<Seq<Seq<char>>>,
    pub ports: Option<Seq<Seq<char>>>,
    pub developer: Option<Seq<Seq<char>>>,
    pub directory: Option<Seq<char>>,
}

/// The text of an optional string.
pub open spec fn opt_text(text: Option<String>) -> Option<Seq<char>> {
    match text {
        Some(text) => Some(text@),
        None => None,
    }
}

/// The texts of an optional list of strings.
pub open spec fn opt_list(list: Option<Vec<String>>) -> Option<Seq<Seq<char>>> {
    match list {
        Some(list) => Some(texts(list@)),
        None => None,
    }
}

impl View for ScriptFile {
    type V = ScriptFileView;

    open spec fn view(&self) -> ScriptFileView {
        ScriptFileView {
            path: opt_text(self.path),
            tags: opt_list(self.tags),
            developer: opt_list(self.developer),
            port: opt_text(self.port),
            ports_separator: opt_text(self.ports_separator),
            call_format: opt_text(self.call_format),
        }
    }
}

impl View for ScriptConfig {
    type V = ScriptConfigView;

    open spec fn view(&self) -> ScriptConfigView {
        ScriptConfigView {
            tags: opt_list(self.tags),
            ports: opt_list(self.ports),
            developer: opt_list(self.developer),
            directory: opt_text(self.directory),
        }
    }
}

/// The views of `scripts`.
pub open spec fn script_views(scripts: Seq<ScriptFile>) -> Seq<ScriptFileView> {
    Seq::new(scripts.len(), |i: int| scripts[i]@)
}

/// The value of an optional field: none where the key is absent.
pub open spec fn optional<T>(field: Field<T>) -> Option<T> {
    match field {
        Field::Present(value) => Some(value),
        _ => None,
    }
}

/// The script description that a table holds. Every field is optional, but
/// one of another kind than expected spoils the whole.
pub open spec fn script_record(entries: Seq<(Seq<char>, ValueView)>) -> Option<ScriptFileView> {
    let path = text_field(entries, "path"@);
    let tags = list_field(entries, "tags"@);
    let developer = list_field(entries, "developer"@);
    let port = text_field(entries, "port"@);
    let ports_separator = text_field(entries, "ports_separator"@);
    let call_format = text_field(entries, "call_format"@);
    if path is Mismatch || tags is Mismatch || developer is Mismatch || port is Mismatch
        || ports_separator is Mismatch || call_format is Mismatch {
        None
    } else {
        Some(
            ScriptFileView {
                path: optional(path),
                tags: optional(tags),
                developer: optional(developer),
                port: optional(port),
                ports_separator: optional(ports_separator),
                call_format: optional(call_format),
            },
        )
    }
}

/// The script configuration that a table holds.
pub open spec fn config_record(entries: Seq<(Seq<char>, ValueView)>) -> Option<ScriptConfigView> {
    let tags = list_field(entries, "tags"@);
    let ports = list_field(entries, "ports"@);
    let developer = list_field(entries, "developer"@);
    let directory = text_field(entries, "directory"@);
    if tags is Mismatch || ports is Mismatch || developer is Mismatch || directory is Mismatch {
        None
    } else {
        Some(
            ScriptConfigView {
                tags: optional(tags),
                ports: optional(ports),
                developer: optional(developer),
                directory: optional(directory),
            },
        )
    }
}

/// `s` without any `c`.
pub open spec fn without(s: Seq<char>, c: char) -> Seq<char>
    decreases s.len(),
{
    if s.len() == 0 {
        Seq::empty()
    } else if s.last() == c {
        without(s.drop_last(), c)
    } else {
        without(s.drop_last(), c).push(s.last())
    }
}

/// Whether a line belongs to the description: it starts with `#`.
pub open spec fn is_comment(line: Seq<char>) -> bool {
    line.len() > 0 && line[0] == '#'
}

/// What a line of the description contributes: itself without any `#` and
/// without the white space around the rest, and a line feed.
pub open spec fn header_line(line: Seq<char>) -> Seq<char> {
    trimmed(without(line, '#')).push('\n')
}

/// The description in `lines`: what their leading run of comment lines
/// contributes.
pub open spec fn header_of(lines: Seq<Seq<char>>) -> Seq<char>
    decreases lines.len(),
{
    if lines.len() == 0 || !is_comment(lines[0]) {
        Seq::empty()
    } else {
        header_line(lines[0]) + header_of(lines.drop_first())
    }
}

/// The description that the text of a script file carries: that of its lines
/// after the first.
pub open spec fn script_header(text: Seq<char>) -> Seq<char> {
    if lines(text).len() == 0 {
        Seq::empty()
    } else {
        header_of(lines(text).drop_first())
    }
}

/// The script that the file at `path` with the text `text` describes.
pub open spec fn script_of(path: Seq<char>, text: Seq<char>) -> Option<ScriptFileView> {
    match toml_table(script_header(text)) {
        Some(entries) => match script_record(entries) {
            Some(record) => Some(ScriptFileView { path: Some(path), ..record }),
            None => None,
        },
        None => None,
    }
}

/// A script file as it was found: its path, and its text where it could be
/// read.
#[derive(Clone, Debug)]
pub struct ScriptSource {
    pub path: String,
    pub text: Option<String>,
}

/// The script that `source` describes; none where it could not be read.
pub open spec fn source_script(source: ScriptSource) -> Option<ScriptFileView> {
    match source.text {
        Some(text) => script_of(source.path@, text@),
        None => None,
    }
}

/// The scripts that `sources` describe, in order.
pub open spec fn parsed_scripts(sources: Seq<ScriptSource>) -> Seq<ScriptFileView>
    decreases sources.len(),
{
    if sources.len() == 0 {
        Seq::empty()
    } else {
        match source_script(sources.last()) {
            Some(script) => parsed_scripts(sources.drop_last()).push(script),
            None => parsed_scripts(sources.drop_last()),
        }
    }
}

/// `chars` without any `c`.
pub fn remove_char(chars: &Vec<char>, c: char) -> (r: Vec<char>)
    ensures
        r@ == without(chars@, c),
{
    let mut r: Vec<char> = Vec::new();
    let mut i: usize = 0;
    assert(chars@.take(0) =~= Seq::<char>::empty());
    while i < chars.len()
        invariant
            i <= chars.len(),
            r@ == without(chars@.take(i as int), c),
        decreases chars.len() - i,
    {
        proof {
            let upto = chars@.take(i + 1);
            assert(upto.drop_last() =~= chars@.take(i as int));
        }
        if chars[i] != c {
            r.push(chars[i]);
        }
        i = i + 1;
    }
    assert(chars@.take(chars.len() as int) =~= chars@);
    r
}

/// The description that the text of a script file carries.
pub fn read_header(text: &str) -> (header: String)
    ensures
        header@ == script_header(text@),
{
    let all = lines_of(text);
    let mut buffer: Vec<char> = Vec::new();
    if all.len() == 0 {
        return string_of(&buffer);
    }
    let mut i: usize = 1;
    assert(rows(all@).skip(1) =~= rows(all@).drop_first());
    while i < all.len()
        invariant
            1 <= i <= all.len(),
            rows(all@) == lines(text@),
            script_header(text@) == buffer@ + header_of(rows(all@).skip(i as int)),
        decreases all.len() - i,
    {
        let line = &all[i];
        proof {
            let rest = rows(all@).skip(i as int);
            assert(rest[0] == line@);
            assert(rest.drop_first() =~= rows(all@).skip(i + 1));
        }
        if line.len() > 0 && line[0] == '#' {
            let cleaned = trim(&remove_char(line, '#'));
            let ghost before = buffer@;
            let mut k: usize = 0;
            while k < cleaned.len()
                invariant
                    k <= cleaned.len(),
                    buffer@ == before + cleaned@.take(k as int),
                decreases cleaned.len() - k,
            {
                buffer.push(cleaned[k]);
                k = k + 1;
            }
            buffer.push('\n');
            proof {
                assert(cleaned@.take(cleaned.len() as int) =~= cleaned@);
                assert(buffer@ =~= before + header_line(line@));
                assert(before + (header_line(line@) + header_of(rows(all@).skip(i + 1)))
                    =~= buffer@ + header_of(rows(all@).skip(i + 1)));
            }
        } else {
            assert(buffer@ + Seq::<char>::empty() =~= buffer@);
            return string_of(&buffer);
        }
        i = i + 1;
    }
    assert(buffer@ + Seq::<char>::empty() =~= buffer@);
    string_of(&buffer)
}

/// An optional field as an `Option`.
fn present<T>(field: Field<T>) -> (r: Option<T>)
    ensures
        r == optional(field),
{
    match field {
        Field::Present(value) => Some(value),
        _ => None,
    }
}

/// Whether the key is there with a value of another kind.
fn mismatch<T>(field: &Field<T>) -> (r: bool)
    ensures
        r == (*field is Mismatch),
{
    match field {
        Field::Mismatch => true,
        _ => false,
    }
}

/// The script description that `entries` hold.
pub fn script_from_entries(entries: &Vec<TomlEntry>) -> (r: Option<ScriptFile>)
    ensures
        match script_record(entries_view(entries@)) {
            Some(record) => r is Some && r->Some_0@ == record,
            None => r is None,
        },
{
    let path = get_text(entries, "path");
    let tags = get_list(entries, "tags");
    let developer = get_list(entries, "developer");
    let port = get_text(entries, "port");
    let ports_separator = get_text(entries, "ports_separator");
    let call_format = get_text(entries, "call_format");
    if mismatch(&path) || mismatch(&tags) || mismatch(&developer) || mismatch(&port) || mismatch(
        &ports_separator,
    ) || mismatch(&call_format) {
        None
    } else {
        Some(
            ScriptFile {
                path: present(path),
                tags: present(tags),
                developer: present(developer),
                port: present(port),
                ports_separator: present(ports_separator),
                call_format: present(call_format),
            },
        )
    }
}

impl ScriptFile {
    /// The script that `source` describes: the record in the comment lines
    /// that follow the first line of its text, under the path of the file.
    pub fn new(source: &ScriptSource) -> (r: Option<ScriptFile>)
        ensures
            match source_script(*source) {
                Some(script) => r is Some && r->Some_0@ == script,
                None => r is None,
            },
    {
        match &source.text {
            None => None,
            Some(text) => {
                let header = read_header(text.as_str());
                match read_table(header.as_str()) {
                    None => None,
                    Some(entries) => match script_from_entries(&entries) {
                        None => None,
                        Some(record) => Some(
                            ScriptFile {
                                path: Some(source.path.clone()),
                                tags: record.tags,
                                developer: record.developer,
                                port: record.port,
                                ports_separator: record.ports_separator,
                                call_format: record.call_format,
                            },
                        ),
                    },
                }
            },
        }
    }
}

/// The scripts that `scripts` describe, in order. A file that could not be
/// read or that carries no valid description is passed over.
pub fn parse_scripts(scripts: Vec<ScriptSource>) -> (parsed: Vec<ScriptFile>)
    ensures
        script_views(parsed@) == parsed_scripts(scripts@),
{
    let mut parsed: Vec<ScriptFile> = Vec::new();
    let mut i: usize = 0;
    assert(scripts@.take(0) =~= Seq::<ScriptSource>::empty());
    assert(script_views(parsed@) =~= Seq::<ScriptFileView>::empty());
    while i < scripts.len()
        invariant
            i <= scripts.len(),
            script_views(parsed@) == parsed_scripts(scripts@.take(i as int)),
        decreases scripts.len() - i,
    {
        proof {
            let upto = scripts@.take(i + 1);
            assert(upto.drop_last() =~= scripts@.take(i as int));
            assert(upto.last() == scripts@[i as int]);
        }
        match ScriptFile::new(&scripts[i]) {
            Some(script) => {
                let ghost before = script_views(parsed@);
                parsed.push(script);
                assert(script_views(parsed@) =~= before.push(script@));
            },
            None => {},
        }
        i = i + 1;
    }
    assert(scripts@.take(scripts.len() as int) =~= scripts@);
    parsed
}

/// The configuration that the text of a configuration file holds.
pub open spec fn config_of(text: Seq<char>) -> Option<ScriptConfigView> {
    match toml_table(text) {
        Some(entries) => config_record(entries),
        None => None,
    }
}

/// The script configuration that `entries` hold.
pub fn config_from_entries(entries: &Vec<TomlEntry>) -> (r: Option<ScriptConfig>)
    ensures
        match config_record(entries_view(entries@)) {
            Some(record) => r is Some && r->Some_0@ == record,
            None => r is None,
        },
{
    let tags = get_list(entries, "tags");
    let ports = get_list(entries, "ports");
    let developer = get_list(entries, "developer");
    let directory = get_text(entries, "directory");
    if mismatch(&tags) || mismatch(&ports) || mismatch(&developer) || mismatch(&directory) {
        None
    } else {
        Some(
            ScriptConfig {
                tags: present(tags),
                ports: present(ports),
                developer: present(developer),
                directory: present(directory),
            },
        )
    }
}

impl ScriptConfig {
    /// Reads the script configuration from the text of its file.
    pub fn read_config(text: &str) -> (r: Result<ScriptConfig, ScriptError>)
        ensures
            match config_of(text@) {
                Some(config) => r is Ok && r->Ok_0@ == config,
                None => r is Err && r->Err_0 == ScriptError::InvalidConfig,
            },
    {
        match read_table(text) {
            None => Err(ScriptError::InvalidConfig),
            Some(entries) => match config_from_entries(&entries) {
                Some(config) => Ok(config),
                None => Err(ScriptError::InvalidConfig),
            },
        }
    }

    /// The directory in which the user's scripts are looked for: the one
    /// that the configuration names, else the user's home.
    pub fn script_directory(&self, home: &Option<String>) -> (r: Result<String, ScriptError>)
        ensures
            match (self.directory, *home) {
                (Some(directory), _) => r is Ok && r->Ok_0@ == directory@,
                (None, Some(home)) => r is Ok && r->Ok_0@ == home@,
                (None, None) => r is Err && r->Err_0 == ScriptError::NoScriptsPath,
            },
    {
        match &self.directory {
            Some(directory) => Ok(directory.clone()),
            None => match home {
                Some(home) => Ok(home.clone()),
                None => Err(ScriptError::NoScriptsPath),
            },
        }
    }
}

/// Whether each of `own` is among `wanted`.
pub open spec fn tags_within(own: Seq<Seq<char>>, wanted: Seq<Seq<char>>) -> bool {
    forall|i: int| 0 <= i < own.len() ==> wanted.contains(#[trigger] own[i])
}

/// Whether a configuration with the tags `wanted` selects `script`: both
/// have tags, and the configuration has every tag that the script has.
pub open spec fn selected(wanted: Option<Seq<Seq<char>>>, script: ScriptFileView) -> bool {
    match (wanted, script.tags) {
        (Some(wanted), Some(own)) => tags_within(own, wanted),
        _ => false,
    }
}

/// The scripts of `scripts` that a configuration with the tags `wanted`
/// selects, in order.
pub open spec fn selection(wanted: Option<Seq<Seq<char>>>, scripts: Seq<ScriptFileView>) -> Seq<
    ScriptFileView,
>
    decreases scripts.len(),
{
    if scripts.len() == 0 {
        Seq::empty()
    } else if selected(wanted, scripts.last()) {
        selection(wanted, scripts.drop_last()).push(scripts.last())
    } else {
        selection(wanted, scripts.drop_last())
    }
}

/// Whether `item` is among `list`.
pub fn has_text(list: &Vec<String>, item: &str) -> (r: bool)
    ensures
        r == texts(list@).contains(item@),
{
    let mut i: usize = 0;
    while i < list.len()
        invariant
            i <= list.len(),
            forall|k: int| 0 <= k < i ==> texts(list@)[k] != item@,
        decreases list.len() - i,
    {
        if same_text(list[i].as_str(), item) {
            assert(texts(list@)[i as int] == item@);
            return true;
        }
        i = i + 1;
    }
    false
}

/// Whether each of `own` is among `wanted`.
pub fn all_within(own: &Vec<String>, wanted: &Vec<String>) -> (r: bool)
    ensures
        r == tags_within(texts(own@), texts(wanted@)),
{
    let mut i: usize = 0;
    while i < own.len()
        invariant
            i <= own.len(),
            forall|k: int| 0 <= k < i ==> texts(wanted@).contains(#[trigger] texts(own@)[k]),
        decreases own.len() - i,
    {
        if !has_text(wanted, own[i].as_str()) {
            assert(texts(own@)[i as int] == own@[i as int]@);
            return false;
        }
        i = i + 1;
    }
    true
}

/// Whether a configuration with the tags `wanted` selects `script`.
pub fn is_selected(wanted: &Option<Vec<String>>, script: &ScriptFile) -> (r: bool)
    ensures
        r == selected(opt_list(*wanted), script@),
{
    match wanted {
        Some(wanted) => match &script.tags {
            Some(own) => all_within(own, wanted),
            None => false,
        },
        None => false,
    }
}

/// The scripts of `parsed` that a configuration with the tags `wanted`
/// selects, in order.
pub fn select_scripts(wanted: &Option<Vec<String>>, parsed: Vec<ScriptFile>) -> (chosen: Vec<
    ScriptFile,
>)
    ensures
        script_views(chosen@) == selection(opt_list(*wanted), script_views(parsed@)),
{
    let mut chosen: Vec<ScriptFile> = Vec::new();
    let ghost all = script_views(parsed@);
    assert(all.take(0) =~= Seq::<ScriptFileView>::empty());
    assert(script_views(chosen@) =~= Seq::<ScriptFileView>::empty());
    for script in iter: parsed.into_iter()
        invariant
            iter.seq() == parsed@,
            all == script_views(parsed@),
            script_views(chosen@) == selection(opt_list(*wanted), all.take(iter.index())),
    {
        proof {
            let upto = all.take(iter.index() + 1);
            assert(upto.drop_last() =~= all.take(iter.index()));
            assert(upto.last() == script@);
        }
        if is_selected(wanted, &script) {
            let ghost before = script_views(chosen@);
            chosen.push(script);
            assert(script_views(chosen@) =~= before.push(script@));
        }
    }
    assert(all.take(all.len() as int) =~= all);
    chosen
}

/// The script that is built in.
pub open spec fn default_script() -> ScriptFileView {
    ScriptFileView {
        path: None,
        tags: Some(seq!["core_approved"@, "RustScan"@, "default"@]),
        developer: Some(seq!["RustScan"@, "https://github.com/RustScan"@]),
        port: None,
        ports_separator: Some(","@),
        call_format: Some("nmap -vvv -p {{port}} -{{ipversion}} {{ip}}"@),
    }
}

/// The script that is built in.
pub fn builtin_script() -> (script: ScriptFile)
    ensures
        script@ == default_script(),
{
    let mut tags: Vec<String> = Vec::new();
    tags.push("core_approved".to_owned());
    tags.push("RustScan".to_owned());
    tags.push("default".to_owned());
    let mut developer: Vec<String> = Vec::new();
    developer.push("RustScan".to_owned());
    developer.push("https://github.com/RustScan".to_owned());
    assert(texts(tags@) =~= seq!["core_approved"@, "RustScan"@, "default"@]);
    assert(texts(developer@) =~= seq!["RustScan"@, "https://github.com/RustScan"@]);
    ScriptFile {
        path: None,
        tags: Some(tags),
        developer: Some(developer),
        port: None,
        ports_separator: Some(",".to_owned()),
        call_format: Some("nmap -vvv -p {{port}} -{{ipversion}} {{ip}}".to_owned()),
    }
}

/// The scripts to run: none, the built-in one, or those of `sources` that
/// `config` selects.
pub fn init_scripts(scripts: &ScriptsRequired, config: &ScriptConfig, sources: Vec<ScriptSource>)
    -> (chosen: Vec<ScriptFile>)
    ensures
        script_views(chosen@) == match *scripts {
            ScriptsRequired::Nothing => Seq::empty(),
            ScriptsRequired::Default => seq![default_script()],
            ScriptsRequired::Custom => selection(opt_list(config.tags), parsed_scripts(sources@)),
        },
{
    match scripts {
        ScriptsRequired::Nothing => {
            let chosen: Vec<ScriptFile> = Vec::new();
            assert(script_views(chosen@) =~= Seq::<ScriptFileView>::empty());
            chosen
        },
        ScriptsRequired::Default => {
            let mut chosen: Vec<ScriptFile> = Vec::new();
            chosen.push(builtin_script());
            assert(script_views(chosen@) =~= seq![default_script()]);
            chosen
        },
        ScriptsRequired::Custom => select_scripts(&config.tags, parse_scripts(sources)),
    }
}

/// A script made ready for one host of the scan.
#[derive(Clone, Debug)]
pub struct Script {
    /// Path of the script file.
    pub path: Option<String>,
    /// The host that was scanned.
    pub ip: IpAddress,
    /// The ports found open on it.
    pub open_ports: Vec<u16>,
    /// The port named in the script file; where there is one, it stands in
    /// place of the open ports.
    pub trigger_port: Option<String>,
    /// What separates the ports in the command line.
    pub ports_separator: Option<String>,
    /// The tags of the script file.
    pub tags: Option<Vec<String>>,
    /// The command line with placeholders.
    pub call_format: Option<String>,
}

/// The decimal digit of value `d`.
pub open spec fn digit(d: nat) -> char {
    (48 + d) as u8 as char
}

/// `n` in decimal, without leading zeros.
pub open spec fn decimal(n: nat) -> Seq<char>
    decreases n,
{
    if n < 10 {
        seq![digit(n)]
    } else {
        decimal(n / 10).push(digit(n % 10))
    }
}

/// `items` with `separator` between them.
pub open spec fn joined(items: Seq<Seq<char>>, separator: Seq<char>) -> Seq<char>
    decreases items.len(),
{
    if items.len() == 0 {
        Seq::empty()
    } else if items.len() == 1 {
        items[0]
    } else {
        joined(items.drop_last(), separator) + separator + items.last()
    }
}

/// Each port in decimal.
pub open spec fn port_texts(ports: Seq<u16>) -> Seq<Seq<char>> {
    Seq::new(ports.len(), |i: int| decimal(ports[i] as nat))
}

/// The four octets of an IPv4 address in decimal with dots between them.
pub open spec fn dotted(v: u32) -> Seq<char> {
    decimal((v / 0x100_0000) as nat) + seq!['.'] + decimal((v / 0x1_0000 % 0x100) as nat) + seq![
        '.',
    ] + decimal((v / 0x100 % 0x100) as nat) + seq!['.'] + decimal((v % 0x100) as nat)
}

/// What the standard library writes for the IPv6 address of number `v`.
pub uninterp spec fn ipv6_text(v: u128) -> Seq<char>;

/// An address as text.
pub open spec fn ip_text(ip: IpAddress) -> Seq<char> {
    match ip {
        IpAddress::V4(v) => dotted(v),
        IpAddress::V6(v) => ipv6_text(v),
    }
}

/// The family of an address as text.
pub open spec fn version_text(ip: IpAddress) -> Seq<char> {
    match ip {
        IpAddress::V4(_) => "4"@,
        IpAddress::V6(_) => "6"@,
    }
}

/// Whether `needle` occurs in `hay` as a run of characters.
pub open spec fn has_infix(hay: Seq<char>, needle: Seq<char>) -> bool {
    exists|i: int|
        0 <= i && i + needle.len() <= hay.len() && #[trigger] hay.subrange(
            i,
            i + needle.len(),
        ) == needle
}

/// What `Template::fill_with_hashmap` of the `text_placeholder` crate makes
/// of the template `format` when `keys` stand for `values`, one for one, and
/// of two equal keys the later counts.
pub uninterp spec fn filled(format: Seq<char>, keys: Seq<Seq<char>>, values: Seq<Seq<char>>) -> Seq<
    char,
>;

/// Calls `Template::new` on `format` and `fill_with_hashmap` on a map from
/// each key to its value. A placeholder without a value is filled with the
/// empty text, so the call cannot fail.
#[verifier::external_body]
pub(crate) fn fill_template(format: &str, keys: &Vec<String>, values: &Vec<String>) -> (r: String)
    requires
        keys@.len() == values@.len(),
    ensures
        r@ == filled(format@, texts(keys@), texts(values@)),
{
    let map: HashMap<&str, &str> = keys.iter().map(String::as_str).zip(
        values.iter().map(String::as_str),
    ).collect();
    Template::new(format).fill_with_hashmap(&map)
}

/// Has the standard library write the IPv6 address of number `v`.
#[verifier::external_body]
pub(crate) fn write_ipv6(v: u128) -> (r: String)
    ensures
        r@ == ipv6_text(v),
{
    Ipv6Inet::new_host(v.into()).address().to_string()
}

/// `n` in decimal.
pub fn decimal_chars(n: u32) -> (r: Vec<char>)
    ensures
        r@ == decimal(n as nat),
    decreases n,
{
    if n < 10 {
        let mut r: Vec<char> = Vec::new();
        r.push((48u8 + n as u8) as char);
        r
    } else {
        let mut r = decimal_chars(n / 10);
        r.push((48u8 + (n % 10) as u8) as char);
        r
    }
}

/// Appends `more` to `buffer`.
pub fn append_chars(buffer: &mut Vec<char>, more: &Vec<char>)
    ensures
        final(buffer)@ == old(buffer)@ + more@,
{
    let mut i: usize = 0;
    while i < more.len()
        invariant
            i <= more.len(),
            buffer@ == old(buffer)@ + more@.take(i as int),
        decreases more.len() - i,
    {
        buffer.push(more[i]);
        i = i + 1;
    }
    assert(more@.take(more.len() as int) =~= more@);
}

/// An address as text.
pub fn write_ip(ip: &IpAddress) -> (r: String)
    ensures
        r@ == ip_text(*ip),
{
    match ip {
        IpAddress::V4(v) => {
            let mut buffer = decimal_chars(*v / 0x100_0000);
            buffer.push('.');
            append_chars(&mut buffer, &decimal_chars(*v / 0x1_0000 % 0x100));
            buffer.push('.');
            append_chars(&mut buffer, &decimal_chars(*v / 0x100 % 0x100));
            buffer.push('.');
            append_chars(&mut buffer, &decimal_chars(*v % 0x100));
            assert(buffer@ =~= dotted(*v));
            string_of(&buffer)
        },
        IpAddress::V6(v) => write_ipv6(*v),
    }
}

/// The ports in decimal with `separator` between them.
pub fn join_ports(ports: &Vec<u16>, separator: &str) -> (r: String)
    ensures
        r@ == joined(port_texts(ports@), separator@),
{
    let sep = chars_of(separator);
    let mut buffer: Vec<char> = Vec::new();
    let mut i: usize = 0;
    let ghost all = port_texts(ports@);
    assert(all.take(0) =~= Seq::<Seq<char>>::empty());
    while i < ports.len()
        invariant
            i <= ports.len(),
            sep@ == separator@,
            all == port_texts(ports@),
            buffer@ == joined(all.take(i as int), separator@),
        decreases ports.len() - i,
    {
        proof {
            let upto = all.take(i + 1);
            assert(upto.drop_last() =~= all.take(i as int));
            assert(upto.last() == decimal(ports@[i as int] as nat));
            if i == 0 {
                assert(buffer@ + upto[0] =~= upto[0]);
            }
        }
        if i > 0 {
            append_chars(&mut buffer, &sep);
        }
        append_chars(&mut buffer, &decimal_chars(ports[i] as u32));
        i = i + 1;
    }
    assert(all.take(ports.len() as int) =~= all);
    string_of(&buffer)
}

/// Whether `needle` occurs in `hay`.
pub fn contains_text(hay: &str, needle: &str) -> (r: bool)
    ensures
        r == has_infix(hay@, needle@),
{
    let h = chars_of(hay);
    let n = chars_of(needle);
    if n.len() > h.len() {
        return false;
    }
    let mut i: usize = 0;
    while i <= h.len() - n.len()
        invariant
            n.len() <= h.len(),
            i <= h.len() - n.len() + 1,
            h@ == hay@,
            n@ == needle@,
            forall|k: int| 0 <= k < i ==> #[trigger] h@.subrange(k, k + n@.len()) != n@,
        decreases h.len() - n.len() + 1 - i,
    {
        let mut k: usize = 0;
        while k < n.len() && h[i + k] == n[k]
            invariant
                i + n.len() <= h.len(),
                k <= n.len(),
                forall|m: int| 0 <= m < k ==> h@[i + m] == n@[m],
            decreases n.len() - k,
        {
            k = k + 1;
        }
        if k == n.len() {
            assert(h@.subrange(i as int, i + n@.len()) =~= n@);
            return true;
        }
        assert(h@.subrange(i as int, i + n@.len())[k as int] != n@[k as int]);
        i = i + 1;
    }
    false
}

impl Script {
    /// What separates the ports: what the script file names, else a comma.
    pub open spec fn separator(self) -> Seq<char> {
        match self.ports_separator {
            Some(separator) => separator@,
            None => ","@,
        }
    }

    /// The ports as they stand in the command line: the trigger port where
    /// there is one, else the open ports with the separator between them.
    pub open spec fn ports_text(self) -> Seq<char> {
        match self.trigger_port {
            Some(port) => port@,
            None => joined(port_texts(self.open_ports@), self.separator()),
        }
    }

    /// Whether the call format asks for the path of the script.
    pub open spec fn names_script(self) -> bool {
        match self.call_format {
            Some(format) => has_infix(format@, "{{script}}"@),
            None => false,
        }
    }

    /// The command line that runs the script: its call format with the
    /// placeholders `ip`, `port` and `ipversion` filled, and `script` too
    /// where the format names it in that very spelling.
    pub open spec fn command(self) -> Result<Seq<char>, ScriptError> {
        match self.call_format {
            None => Err(ScriptError::MissingCallFormat),
            Some(format) => if self.names_script() {
                Ok(
                    filled(
                        format@,
                        seq!["script"@, "ip"@, "port"@, "ipversion"@],
                        seq![
                            self.path->Some_0@,
                            ip_text(self.ip),
                            self.ports_text(),
                            version_text(self.ip),
                        ],
                    ),
                )
            } else {
                Ok(
                    filled(
                        format@,
                        seq!["ip"@, "port"@, "ipversion"@],
                        seq![ip_text(self.ip), self.ports_text(), version_text(self.ip)],
                    ),
                )
            },
        }
    }

    /// Puts a script together.
    pub fn build(
        path: Option<String>,
        ip: IpAddress,
        open_ports: Vec<u16>,
        trigger_port: Option<String>,
        ports_separator: Option<String>,
        tags: Option<Vec<String>>,
        call_format: Option<String>,
    ) -> (script: Script)
        ensures
            script == (Script {
                path,
                ip,
                open_ports,
                trigger_port,
                ports_separator,
                tags,
                call_format,
            }),
    {
        Script { path, ip, open_ports, trigger_port, ports_separator, tags, call_format }
    }

    /// Renders the command line that runs the script. A format that names
    /// the script needs its path.
    pub fn run(self) -> (r: Result<String, ScriptError>)
        requires
            self.names_script() ==> self.path is Some,
        ensures
            match self.command() {
                Ok(command) => r is Ok && r->Ok_0@ == command,
                Err(e) => r is Err && r->Err_0 == e,
            },
    {
        let ports = match &self.trigger_port {
            Some(port) => port.clone(),
            None => match &self.ports_separator {
                Some(separator) => join_ports(&self.open_ports, separator.as_str()),
                None => join_ports(&self.open_ports, ","),
            },
        };
        let format = match &self.call_format {
            Some(format) => format,
            None => {
                return Err(ScriptError::MissingCallFormat);
            },
        };
        let version = match &self.ip {
            IpAddress::V4(_) => "4".to_owned(),
            IpAddress::V6(_) => "6".to_owned(),
        };
        let mut keys: Vec<String> = Vec::new();
        let mut values: Vec<String> = Vec::new();
        if contains_text(format.as_str(), "{{script}}") {
            match &self.path {
                Some(path) => {
                    keys.push("script".to_owned());
                    values.push(path.clone());
                },
                None => {},
            }
        }
        keys.push("ip".to_owned());
        values.push(write_ip(&self.ip));
        keys.push("port".to_owned());
        values.push(ports);
        keys.push("ipversion".to_owned());
        values.push(version);
        proof {
            if self.names_script() {
                assert(texts(keys@) =~= seq!["script"@, "ip"@, "port"@, "ipversion"@]);
                assert(texts(values@) =~= seq![
                    self.path->Some_0@,
                    ip_text(self.ip),
                    self.ports_text(),
                    version_text(self.ip),
                ]);
            } else {
                assert(texts(keys@) =~= seq!["ip"@, "port"@, "ipversion"@]);
                assert(texts(values@) =~= seq![
                    ip_text(self.ip),
                    self.ports_text(),
                    version_text(self.ip),
                ]);
            }
        }
        Ok(fill_template(format.as_str(), &keys, &values))
    }
}

/// How a command ended.
#[derive(Clone, Copy, Debug, PartialEq, Eq, Structural)]
pub enum Exit {
    /// It ended by itself with this code.
    Code(i32),
    /// This signal ended it.
    Signal(i32),
}

/// What a command that ran comes to: its output where it ended with code
/// zero, else the code or the signal that ended it.
pub fn script_output(exit: Exit, output: String) -> (r: Result<String, ScriptError>)
    ensures
        r == match exit {
            Exit::Code(code) | Exit::Signal(code) => if code == 0 {
                Ok::<String, ScriptError>(output)
            } else {
                Err::<String, ScriptError>(ScriptError::ExitCode(code))
            },
        },
{
    let status = match exit {
        Exit::Code(code) => code,
        Exit::Signal(signal) => signal,
    };
    if status != 0 {
        Err(ScriptError::ExitCode(status))
    } else {
        Ok(output)
    }
}

} // verus!
