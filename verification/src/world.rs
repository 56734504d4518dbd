//! The outside world as plain values.
//!
//! Name lookups and file reads are not made here. Their answers are recorded
//! in a [`World`], and the rest of the crate computes from what is recorded.
//! A host or a path without a record counts as a failed lookup or a missing
//! file.

use vstd::prelude::*;

use crate::ip::IpAddress;
use crate::text::same_text;

verus! {

/// What the file system says of a path.
#[derive(Clone, Debug)]
pub enum FileAnswer {
    /// Nothing is there, or what is there is no regular file.
    NotAFile,
    /// A regular file that could not be opened or read.
    Unreadable,
    /// A regular file and its text.
    Text(String),
}

/// A [`FileAnswer`] with its text as a sequence of characters.
pub enum FileView {
    NotAFile,
    Unreadable,
    Text(Seq<char>),
}

impl View for FileAnswer {
    type V = FileView;

    open spec fn view(&self) -> FileView {
        match self {
            FileAnswer::NotAFile => FileView::NotAFile,
            FileAnswer::Unreadable => FileView::Unreadable,
            FileAnswer::Text(text) => FileView::Text(text@),
        }
    }
}

/// The platform resolver's answer for one host name; `None` where the lookup
/// failed with an error.
#[derive(Clone, Debug)]
pub struct SystemRecord {
    pub host: String,
    pub answer: Option<Vec<IpAddress>>,
}

/// The configured resolver's answer for one host name, empty where it failed.
#[derive(Clone, Debug)]
pub struct BackupRecord {
    pub host: String,
    pub answer: Vec<IpAddress>,
}

/// The file system's answer for one path.
#[derive(Clone, Debug)]
pub struct FileRecord {
    pub path: String,
    pub answer: FileAnswer,
}

/// The answers recorded so far. Of two records under one key the earlier
/// counts.
#[derive(Clone, Debug)]
pub struct World {
    pub system: Vec<SystemRecord>,
    pub backup: Vec<BackupRecord>,
    pub files: Vec<FileRecord>,
}

/// Index of the first occurrence of `key` in `keys`, or their number where it
/// does not occur.
pub open spec fn position(keys: Seq<Seq<char>>, key: Seq<char>) -> nat
    decreases keys.len(),
{
    if keys.len() == 0 || keys[0] == key {
        0
    } else {
        1 + position(keys.drop_first(), key)
    }
}

/// `key` is first found at `n` once it is at no earlier index.
pub proof fn lemma_position(keys: Seq<Seq<char>>, key: Seq<char>, n: int)
    requires
        0 <= n <= keys.len(),
        forall|k: int| 0 <= k < n ==> keys[k] != key,
        n == keys.len() || keys[n] == key,
    ensures
        position(keys, key) == n,
    decreases n,
{
    if n > 0 {
        lemma_position(keys.drop_first(), key, n - 1);
    }
}

impl World {
    /// The host names with a record of the platform resolver, in order.
    pub open spec fn system_keys(self) -> Seq<Seq<char>> {
        Seq::new(self.system@.len(), |i: int| self.system@[i].host@)
    }

    /// The host names with a record of the configured resolver, in order.
    pub open spec fn backup_keys(self) -> Seq<Seq<char>> {
        Seq::new(self.backup@.len(), |i: int| self.backup@[i].host@)
    }

    /// The paths with a record, in order.
    pub open spec fn file_keys(self) -> Seq<Seq<char>> {
        Seq::new(self.files@.len(), |i: int| self.files@[i].path@)
    }

    /// Whether the platform resolver's answer for `host` is recorded.
    pub open spec fn system_known(self, host: Seq<char>) -> bool {
        position(self.system_keys(), host) < self.system@.len()
    }

    /// Whether the configured resolver's answer for `host` is recorded.
    pub open spec fn backup_known(self, host: Seq<char>) -> bool {
        position(self.backup_keys(), host) < self.backup@.len()
    }

    /// Whether the file system's answer for `path` is recorded.
    pub open spec fn file_known(self, path: Seq<char>) -> bool {
        position(self.file_keys(), path) < self.files@.len()
    }

    /// The addresses that the platform resolver gave for `host`; `None` where
    /// it failed or nothing is recorded.
    pub open spec fn system_answer(self, host: Seq<char>) -> Option<Seq<IpAddress>> {
        if self.system_known(host) {
            match self.system@[position(self.system_keys(), host) as int].answer {
                Some(found) => Some(found@),
                None => None,
            }
        } else {
            None
        }
    }

    /// The addresses that the configured resolver gave for `host`; none where
    /// nothing is recorded.
    pub open spec fn backup_answer(self, host: Seq<char>) -> Seq<IpAddress> {
        if self.backup_known(host) {
            self.backup@[position(self.backup_keys(), host) as int].answer@
        } else {
            Seq::empty()
        }
    }

    /// What the file system said of `path`; not a file where nothing is
    /// recorded.
    pub open spec fn file_answer(self, path: Seq<char>) -> FileView {
        if self.file_known(path) {
            self.files@[position(self.file_keys(), path) as int].answer@
        } else {
            FileView::NotAFile
        }
    }

    /// A world with nothing recorded.
    pub fn new() -> (world: World)
        ensures
            world.system@.len() == 0,
            world.backup@.len() == 0,
            world.files@.len() == 0,
    {
        World { system: Vec::new(), backup: Vec::new(), files: Vec::new() }
    }

    /// Index of the platform resolver's record for `host`.
    pub fn find_system(&self, host: &str) -> (r: Option<usize>)
        ensures
            r is Some == self.system_known(host@),
            r matches Some(i) ==> i == position(self.system_keys(), host@),
    {
        let mut i: usize = 0;
        while i < self.system.len()
            invariant
                i <= self.system@.len(),
                forall|k: int| 0 <= k < i ==> self.system_keys()[k] != host@,
            decreases self.system@.len() - i,
        {
            if same_text(self.system[i].host.as_str(), host) {
                proof {
                    lemma_position(self.system_keys(), host@, i as int);
                }
                return Some(i);
            }
            i = i + 1;
        }
        proof {
            lemma_position(self.system_keys(), host@, i as int);
        }
        None
    }

    /// Index of the configured resolver's record for `host`.
    pub fn find_backup(&self, host: &str) -> (r: Option<usize>)
        ensures
            r is Some == self.backup_known(host@),
            r matches Some(i) ==> i == position(self.backup_keys(), host@),
    {
        let mut i: usize = 0;
        while i < self.backup.len()
            invariant
                i <= self.backup@.len(),
                forall|k: int| 0 <= k < i ==> self.backup_keys()[k] != host@,
            decreases self.backup@.len() - i,
        {
            if same_text(self.backup[i].host.as_str(), host) {
                proof {
                    lemma_position(self.backup_keys(), host@, i as int);
                }
                return Some(i);
            }
            i = i + 1;
        }
        proof {
            lemma_position(self.backup_keys(), host@, i as int);
        }
        None
    }

    /// Index of the record for `path`.
    pub fn find_file(&self, path: &str) -> (r: Option<usize>)
        ensures
            r is Some == self.file_known(path@),
            r matches Some(i) ==> i == position(self.file_keys(), path@),
    {
        let mut i: usize = 0;
        while i < self.files.len()
            invariant
                i <= self.files@.len(),
                forall|k: int| 0 <= k < i ==> self.file_keys()[k] != path@,
            decreases self.files@.len() - i,
        {
            if same_text(self.files[i].path.as_str(), path) {
                proof {
                    lemma_position(self.file_keys(), path@, i as int);
                }
                return Some(i);
            }
            i = i + 1;
        }
        proof {
            lemma_position(self.file_keys(), path@, i as int);
        }
        None
    }

    /// Records what the platform resolver answered for `host`. Where an
    /// answer for `host` is recorded already, that one still counts.
    pub fn record_system(&mut self, host: String, answer: Option<Vec<IpAddress>>)
        ensures
            final(self).system@ == old(self).system@.push(SystemRecord { host, answer }),
            final(self).backup == old(self).backup,
            final(self).files == old(self).files,
            extends(*old(self), *final(self)),
            final(self).system_known(host@),
            !old(self).system_known(host@) ==> final(self).system_answer(host@) == match answer {
                Some(found) => Some(found@),
                None => None,
            },
    {
        let ghost before = self.system_keys();
        self.system.push(SystemRecord { host, answer });
        proof {
            assert(self.system_keys() =~= before.push(host@));
            assert forall|key: Seq<char>| #![auto] position(before.push(host@), key) == (if position(
                before,
                key,
            ) < before.len() {
                position(before, key)
            } else if key == host@ {
                before.len()
            } else {
                before.len() + 1
            }) by {
                lemma_position_push(before, host@, key);
            }
        }
    }

    /// Records what the configured resolver answered for `host`. Where an
    /// answer for `host` is recorded already, that one still counts.
    pub fn record_backup(&mut self, host: String, answer: Vec<IpAddress>)
        ensures
            final(self).backup@ == old(self).backup@.push(BackupRecord { host, answer }),
            final(self).system == old(self).system,
            final(self).files == old(self).files,
            extends(*old(self), *final(self)),
            final(self).backup_known(host@),
            !old(self).backup_known(host@) ==> final(self).backup_answer(host@) == answer@,
    {
        let ghost before = self.backup_keys();
        self.backup.push(BackupRecord { host, answer });
        proof {
            assert(self.backup_keys() =~= before.push(host@));
            assert forall|key: Seq<char>| #![auto] position(before.push(host@), key) == (if position(
                before,
                key,
            ) < before.len() {
                position(before, key)
            } else if key == host@ {
                before.len()
            } else {
                before.len() + 1
            }) by {
                lemma_position_push(before, host@, key);
            }
        }
    }

    /// Records what the file system answered for `path`. Where an answer
    /// for `path` is recorded already, that one still counts.
    pub fn record_file(&mut self, path: String, answer: FileAnswer)
        ensures
            final(self).files@ == old(self).files@.push(FileRecord { path, answer }),
            final(self).system == old(self).system,
            final(self).backup == old(self).backup,
            extends(*old(self), *final(self)),
            final(self).file_known(path@),
            !old(self).file_known(path@) ==> final(self).file_answer(path@) == answer@,
    {
        let ghost before = self.file_keys();
        self.files.push(FileRecord { path, answer });
        proof {
            assert(self.file_keys() =~= before.push(path@));
            assert forall|key: Seq<char>| #![auto] position(before.push(path@), key) == (if position(
                before,
                key,
            ) < before.len() {
                position(before, key)
            } else if key == path@ {
                before.len()
            } else {
                before.len() + 1
            }) by {
                lemma_position_push(before, path@, key);
            }
        }
    }
}

/// Whether `wider` holds every answer that `world` holds.
pub open spec fn extends(world: World, wider: World) -> bool {
    &&& forall|host: Seq<char>| #[trigger]
        world.system_known(host) ==> wider.system_known(host) && wider.system_answer(host)
            == world.system_answer(host)
    &&& forall|host: Seq<char>| #[trigger]
        world.backup_known(host) ==> wider.backup_known(host) && wider.backup_answer(host)
            == world.backup_answer(host)
    &&& forall|path: Seq<char>| #[trigger]
        world.file_known(path) ==> wider.file_known(path) && wider.file_answer(path)
            == world.file_answer(path)
}


/// A key added at the end is found there, unless it was found before; every
/// other key is found where it was.
pub proof fn lemma_position_push(keys: Seq<Seq<char>>, added: Seq<char>, key: Seq<char>)
    ensures
        position(keys.push(added), key) == (if position(keys, key) < keys.len() {
            position(keys, key)
        } else if key == added {
            keys.len()
        } else {
            keys.len() + 1
        }),
    decreases keys.len(),
{
    if keys.len() == 0 {
        assert(keys.push(added)[0] == added);
        if key != added {
            assert(keys.push(added).drop_first() =~= Seq::<Seq<char>>::empty());
            assert(position(keys.push(added).drop_first(), key) == 0);
        }
    } else {
        assert(keys.push(added)[0] == keys[0]);
        if keys[0] != key {
            assert(keys.push(added).drop_first() =~= keys.drop_first().push(added));
            lemma_position_push(keys.drop_first(), added, key);
        }
    }
}

} // verus!
