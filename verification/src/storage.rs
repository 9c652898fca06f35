//! Configuration layout and the decisions taken when loading it: where each
//! file lives under the store root, schema-version checks, recovery from a
//! backup copy, and skipping drawers that fail to load.
//!
//! Reading, writing and parsing the files is the application's part; it hands
//! the outcomes to the functions here.

use vstd::prelude::*;

use crate::error::Error;
use crate::ids::{id_text, uuid_text};
use crate::model::{Drawer, DrawerIndex, SCHEMA_VERSION};

verus! {

/// A location in the configuration tree: a base directory and the path
/// components joined onto it, in order.
pub struct StorePath {
    pub base: String,
    pub parts: Vec<String>,
}

/// The text of a base directory and of each component.
pub open spec fn path_view(p: StorePath) -> (Seq<char>, Seq<Seq<char>>) {
    (p.base@, p.parts@.map_values(|s: String| s@))
}

impl StorePath {
    /// An identical copy.
    pub fn copy(&self) -> (r: StorePath)
        ensures
            path_view(r) == path_view(*self),
    {
        let mut parts: Vec<String> = Vec::new();
        let mut i: usize = 0;
        while i < self.parts.len()
            invariant
                i <= self.parts@.len(),
                parts@ == self.parts@.subrange(0, i as int),
            decreases self.parts@.len() - i,
        {
            parts.push(self.parts[i].clone());
            assert(parts@ =~= self.parts@.subrange(0, i + 1));
            i = i + 1;
        }
        assert(self.parts@.subrange(0, self.parts@.len() as int) =~= self.parts@);
        StorePath { base: self.base.clone(), parts }
    }

    /// This location with one more component.
    pub fn join(&self, part: &str) -> (r: StorePath)
        ensures
            path_view(r) == (path_view(*self).0, path_view(*self).1.push(part@)),
    {
        let mut r = self.copy();
        r.parts.push(String::from_str(part));
        assert(path_view(r).1 =~= path_view(*self).1.push(part@));
        r
    }
}

/// Resolves and owns the configuration directory tree.
pub struct Store {
    root: StorePath,
}

/// Where the store lives under the per-user local application data folder.
pub open spec fn default_root(local_app_data: Seq<char>) -> (Seq<char>, Seq<Seq<char>>) {
    (local_app_data, seq!["DesktopDrawers"@])
}

/// `p` extended by the components `more`.
pub open spec fn under(p: (Seq<char>, Seq<Seq<char>>), more: Seq<Seq<char>>) -> (Seq<char>, Seq<Seq<char>>) {
    (p.0, p.1 + more)
}

impl Store {
    /// The root of the tree.
    pub closed spec fn root_view(&self) -> (Seq<char>, Seq<Seq<char>>) {
        path_view(self.root)
    }

    /// A store rooted at an explicit directory.
    pub fn at(root: String) -> (s: Store)
        ensures
            s.root_view() == (root@, Seq::<Seq<char>>::empty()),
    {
        let s = Store { root: StorePath { base: root, parts: Vec::new() } };
        assert(path_view(s.root).1 =~= Seq::<Seq<char>>::empty());
        s
    }

    /// The default store, under the `LOCALAPPDATA` folder; fails when that
    /// folder is not known.
    pub fn open_default(local_app_data: Option<String>) -> (r: Result<Store, Error>)
        ensures
            match local_app_data {
                Some(base) => r matches Ok(s) && s.root_view() == default_root(base@),
                None => r matches Err(Error::Other(m)) && m@ == "LOCALAPPDATA is not set"@,
            },
    {
        match local_app_data {
            Some(base) => {
                let root = StorePath { base, parts: Vec::new() }.join("DesktopDrawers");
                assert(path_view(root).1 =~= seq!["DesktopDrawers"@]);
                Ok(Store { root })
            },
            None => Err(Error::Other(String::from_str("LOCALAPPDATA is not set"))),
        }
    }

    pub fn data_dir(&self) -> (p: StorePath)
        ensures
            path_view(p) == under(self.root_view(), seq!["Data"@]),
    {
        let p = self.root.join("Data");
        assert(path_view(p).1 =~= self.root_view().1 + seq!["Data"@]);
        p
    }

    pub fn drawers_dir(&self) -> (p: StorePath)
        ensures
            path_view(p) == under(self.root_view(), seq!["Data"@, "Drawers"@]),
    {
        let p = self.data_dir().join("Drawers");
        assert(path_view(p).1 =~= self.root_view().1 + seq!["Data"@, "Drawers"@]);
        p
    }

    pub fn cache_icons_dir(&self) -> (p: StorePath)
        ensures
            path_view(p) == under(self.root_view(), seq!["Cache"@, "Icons"@]),
    {
        let p = self.root.join("Cache").join("Icons");
        assert(path_view(p).1 =~= self.root_view().1 + seq!["Cache"@, "Icons"@]);
        p
    }

    pub fn logs_dir(&self) -> (p: StorePath)
        ensures
            path_view(p) == under(self.root_view(), seq!["Logs"@]),
    {
        let p = self.root.join("Logs");
        assert(path_view(p).1 =~= self.root_view().1 + seq!["Logs"@]);
        p
    }

    /// The drawer index file.
    pub fn index_path(&self) -> (p: StorePath)
        ensures
            path_view(p) == under(self.root_view(), seq!["Data"@, "drawers.json"@]),
    {
        let p = self.data_dir().join("drawers.json");
        assert(path_view(p).1 =~= self.root_view().1 + seq!["Data"@, "drawers.json"@]);
        p
    }

    /// The directory of one drawer, named by its id text.
    pub fn drawer_dir(&self, id: u128) -> (p: StorePath)
        ensures
            path_view(p) == under(self.root_view(), seq!["Data"@, "Drawers"@, uuid_text(id)]),
    {
        let name = id_text(id);
        let p = self.drawers_dir().join(name.as_str());
        assert(path_view(p).1 =~= self.root_view().1 + seq!["Data"@, "Drawers"@, uuid_text(id)]);
        p
    }

    /// The settings file of one drawer.
    pub fn drawer_json_path(&self, id: u128) -> (p: StorePath)
        ensures
            path_view(p) == under(
                self.root_view(),
                seq!["Data"@, "Drawers"@, uuid_text(id), "drawer.json"@],
            ),
    {
        let p = self.drawer_dir(id).join("drawer.json");
        assert(path_view(p).1 =~= self.root_view().1 + seq![
            "Data"@,
            "Drawers"@,
            uuid_text(id),
            "drawer.json"@,
        ]);
        p
    }

    /// The directory of one drawer's managed shortcut files.
    pub fn drawer_items_dir(&self, id: u128) -> (p: StorePath)
        ensures
            path_view(p) == under(self.root_view(), seq!["Data"@, "Drawers"@, uuid_text(id), "Items"@]),
    {
        let p = self.drawer_dir(id).join("Items");
        assert(path_view(p).1 =~= self.root_view().1 + seq!["Data"@, "Drawers"@, uuid_text(id), "Items"@]);
        p
    }

    /// The directories that opening a store creates, in order.
    pub fn required_dirs(&self) -> (v: Vec<StorePath>)
        ensures
            v@.len() == 4,
            path_view(v@[0]) == under(self.root_view(), seq!["Data"@]),
            path_view(v@[1]) == under(self.root_view(), seq!["Data"@, "Drawers"@]),
            path_view(v@[2]) == under(self.root_view(), seq!["Cache"@, "Icons"@]),
            path_view(v@[3]) == under(self.root_view(), seq!["Logs"@]),
    {
        let mut v: Vec<StorePath> = Vec::new();
        v.push(self.data_dir());
        v.push(self.drawers_dir());
        v.push(self.cache_icons_dir());
        v.push(self.logs_dir());
        v
    }
}

/// Accepts a stored schema version unless it is newer than this build's.
pub fn check_schema(found: u32) -> (r: Result<(), Error>)
    ensures
        r is Ok <==> found <= SCHEMA_VERSION,
        r is Err ==> r == Err::<(), Error>(
            Error::UnsupportedSchema { found, supported: SCHEMA_VERSION },
        ),
{
    if found > SCHEMA_VERSION {
        Err(Error::UnsupportedSchema { found, supported: SCHEMA_VERSION })
    } else {
        Ok(())
    }
}

/// Finishes loading the index from what reading it gave: a missing index is
/// an empty one; a stored one is accepted unless its schema is too new, and
/// is then brought to the current schema version.
pub fn index_from_read(read: Result<Option<DrawerIndex>, Error>) -> (r: Result<DrawerIndex, Error>)
    ensures
        match read {
            Ok(Some(idx)) => if idx.schema_version <= SCHEMA_VERSION {
                r matches Ok(out) && out.schema_version == SCHEMA_VERSION && out.drawer_order
                    == idx.drawer_order
            } else {
                r == Err::<DrawerIndex, Error>(
                    Error::UnsupportedSchema { found: idx.schema_version, supported: SCHEMA_VERSION },
                )
            },
            Ok(None) => r matches Ok(out) && out.schema_version == SCHEMA_VERSION
                && out.drawer_order@.len() == 0,
            Err(e) => r == Err::<DrawerIndex, Error>(e),
        },
{
    match read {
        Ok(Some(mut idx)) => {
            check_schema(idx.schema_version)?;
            idx.schema_version = SCHEMA_VERSION;
            Ok(idx)
        },
        Ok(None) => Ok(DrawerIndex::default()),
        Err(e) => Err(e),
    }
}

/// Finishes loading drawer `id` from what reading its file gave: a missing
/// drawer is an error naming it; a stored one is accepted unless its schema
/// is too new, and is then brought to the current schema version.
pub fn drawer_from_read(id: u128, read: Result<Option<Drawer>, Error>) -> (r: Result<Drawer, Error>)
    ensures
        match read {
            Ok(Some(d)) => if d.schema_version <= SCHEMA_VERSION {
                r matches Ok(out) && out == (Drawer { schema_version: SCHEMA_VERSION, ..d })
            } else {
                r == Err::<Drawer, Error>(
                    Error::UnsupportedSchema { found: d.schema_version, supported: SCHEMA_VERSION },
                )
            },
            Ok(None) => r matches Err(Error::DrawerNotFound(m)) && m@ == uuid_text(id),
            Err(e) => r == Err::<Drawer, Error>(e),
        },
{
    match read {
        Ok(Some(mut d)) => {
            check_schema(d.schema_version)?;
            d.schema_version = SCHEMA_VERSION;
            Ok(d)
        },
        Ok(None) => Err(Error::DrawerNotFound(id_text(id))),
        Err(e) => Err(e),
    }
}

/// The drawers that loaded, in the order they were tried.
pub open spec fn loaded(results: Seq<Result<Drawer, Error>>) -> Seq<Drawer>
    decreases results.len(),
{
    if results.len() == 0 {
        Seq::empty()
    } else {
        let rest = loaded(results.drop_last());
        match results.last() {
            Ok(d) => rest.push(d),
            Err(_) => rest,
        }
    }
}

/// The outcome is a drawer that loaded.
pub open spec fn did_load() -> spec_fn(Result<Drawer, Error>) -> bool {
    |r: Result<Drawer, Error>| r is Ok
}

/// The drawer a successful outcome holds.
pub open spec fn drawer_loaded() -> spec_fn(Result<Drawer, Error>) -> Drawer {
    |r: Result<Drawer, Error>| r->Ok_0
}

/// Loading keeps exactly the drawers that loaded, in the order they were
/// listed, whatever failed around them and however it failed: a failure of
/// any kind only drops that one drawer.
pub proof fn law_load_all_keeps_every_loaded_drawer(results: Seq<Result<Drawer, Error>>)
    ensures
        loaded(results) == results.filter(did_load()).map_values(drawer_loaded()),
        loaded(results).len() == results.filter(did_load()).len(),
    decreases results.len(),
{
    reveal(Seq::filter);
    if results.len() > 0 {
        let init = results.drop_last();
        law_load_all_keeps_every_loaded_drawer(init);
        assert(results =~= init.push(results.last()));
        init.lemma_filter_push(results.last(), did_load());
        let f = init.filter(did_load());
        if results.last() is Ok {
            assert(f.push(results.last()).map_values(drawer_loaded()) =~= f.map_values(drawer_loaded()).push(
                results.last()->Ok_0,
            ));
        }
    }
}

/// Finishes loading every drawer listed in the index: `results[i]` is the
/// outcome of loading the `i`-th listed drawer. Drawers that failed to load
/// are skipped rather than aborting startup; the others keep index order.
pub fn load_all_from(index: DrawerIndex, results: Vec<Result<Drawer, Error>>) -> (r: (DrawerIndex, Vec<Drawer>))
    ensures
        r.0 == index,
        r.1@ == loaded(results@),
        r.1@ == results@.filter(did_load()).map_values(drawer_loaded()),
{
    let mut drawers: Vec<Drawer> = Vec::new();
    let mut results = results;
    let ghost all = results@;
    let mut rest: Vec<Result<Drawer, Error>> = Vec::new();
    // Take the outcomes off the back, then put the successes back in order.
    while results.len() > 0
        invariant
            all == results@ + rest@.reverse(),
        decreases results@.len(),
    {
        let x = results.pop().unwrap();
        proof {
            assert(all =~= results@ + rest@.push(x).reverse());
        }
        rest.push(x);
    }
    assert(rest@.reverse() =~= all);
    let ghost done: Seq<Result<Drawer, Error>> = Seq::empty();
    while rest.len() > 0
        invariant
            all == done + rest@.reverse(),
            drawers@ == loaded(done),
        decreases rest@.len(),
    {
        let x = rest.pop().unwrap();
        proof {
            assert(all =~= done.push(x) + rest@.reverse());
            assert(done.push(x).drop_last() =~= done);
            done = done.push(x);
        }
        match x {
            Ok(d) => drawers.push(d),
            Err(_) => {},
        }
    }
    assert(done =~= all);
    proof {
        law_load_all_keeps_every_loaded_drawer(all);
    }
    (index, drawers)
}

/// What reading and parsing one configuration file gave.
pub enum ReadOutcome<T> {
    /// The file was read and parsed.
    Parsed(T),
    /// The file was read but did not parse; the parser's message.
    Corrupt(String),
    /// The file does not exist.
    Missing,
    /// Reading failed for another reason; the system's message.
    Failed(String),
}

/// The backup copy must be consulted: the primary file is corrupt or missing.
pub open spec fn spec_needs_backup<T>(primary: ReadOutcome<T>) -> bool {
    primary is Corrupt || primary is Missing
}

/// Whether the backup copy must be read after this primary outcome.
pub fn needs_backup<T>(primary: &ReadOutcome<T>) -> (b: bool)
    ensures
        b == spec_needs_backup(*primary),
{
    match primary {
        ReadOutcome::Corrupt(_) | ReadOutcome::Missing => true,
        _ => false,
    }
}

/// The outcome of reading a file with a backup copy beside it, and whether
/// the backup's bytes must be written over the primary file.
pub struct Recovered<T> {
    pub result: Result<Option<T>, Error>,
    pub restore: bool,
}

/// Decides what reading `path` yields, from the primary file's outcome and
/// (when `needs_backup` asked for it) the backup's. A good primary wins; a
/// corrupt or missing primary falls back to a good backup, which is then
/// restored over it; neither file is no value; a corrupt primary with no
/// good backup is the primary's parse error.
pub fn recover<T>(path: String, primary: ReadOutcome<T>, backup: ReadOutcome<T>) -> (r: Recovered<T>)
    ensures
        match primary {
            ReadOutcome::Parsed(v) => r.result == Ok::<Option<T>, Error>(Some(v)) && !r.restore,
            ReadOutcome::Failed(m) => r.result == Err::<Option<T>, Error>(
                Error::Io { path, message: m },
            ) && !r.restore,
            ReadOutcome::Corrupt(e) => match backup {
                ReadOutcome::Parsed(v) => r.result == Ok::<Option<T>, Error>(Some(v)) && r.restore,
                _ => r.result == Err::<Option<T>, Error>(Error::Json(e)) && !r.restore,
            },
            ReadOutcome::Missing => match backup {
                ReadOutcome::Parsed(v) => r.result == Ok::<Option<T>, Error>(Some(v)) && r.restore,
                ReadOutcome::Corrupt(e) => r.result == Err::<Option<T>, Error>(Error::Json(e))
                    && !r.restore,
                _ => r.result == Ok::<Option<T>, Error>(None) && !r.restore,
            },
        },
{
    match primary {
        ReadOutcome::Parsed(v) => Recovered { result: Ok(Some(v)), restore: false },
        ReadOutcome::Failed(m) => Recovered { result: Err(Error::io(path, m)), restore: false },
        ReadOutcome::Corrupt(e) => match backup {
            ReadOutcome::Parsed(v) => Recovered { result: Ok(Some(v)), restore: true },
            _ => Recovered { result: Err(Error::Json(e)), restore: false },
        },
        ReadOutcome::Missing => match backup {
            ReadOutcome::Parsed(v) => Recovered { result: Ok(Some(v)), restore: true },
            ReadOutcome::Corrupt(e) => Recovered { result: Err(Error::Json(e)), restore: false },
            _ => Recovered { result: Ok(None), restore: false },
        },
    }
}

} // verus!
