//! What is kept of a paste or of a short link, and how the store is set up.

use crate::outside::unix_now;
use vstd::prelude::*;

verus! {

/// One stored item: its counters, its content and when it was created.
#[derive(Debug)]
pub struct Entry {
    pub views: u32,
    pub scrapes: u32,
    pub contents: Vec<u8>,
    pub creationdate: i64,
    pub obfuscate: bool,
}

/// What can go wrong at the store.
#[derive(Debug)]
pub enum DBFailure {
    /// The store reported an error, here in its own words.
    Error(String),
    /// The column family is not there.
    CfError,
    /// The entry could not be put into bytes.
    SerError,
}

/// One column family to open: its name and the options to open it with.
pub struct Descriptor<O> {
    pub name: String,
    pub options: O,
}

impl Entry {
    /// An entry that was created at `creationdate`, in seconds since the
    /// Unix epoch.
    pub fn created(
        contents: Vec<u8>,
        views: u32,
        scrapes: u32,
        obfuscate: bool,
        creationdate: i64,
    ) -> (entry: Entry)
        ensures
            entry.views == views,
            entry.scrapes == scrapes,
            entry.contents@ == contents@,
            entry.creationdate == creationdate,
            entry.obfuscate == obfuscate,
    {
        Entry { views, scrapes, contents, creationdate, obfuscate }
    }

    /// An entry that is created now, by this machine's clock.
    pub fn new(contents: Vec<u8>, views: u32, scrapes: u32, obfuscate: bool) -> (entry: Entry)
        ensures
            entry.views == views,
            entry.scrapes == scrapes,
            entry.contents@ == contents@,
            entry.obfuscate == obfuscate,
    {
        Entry::created(contents, views, scrapes, obfuscate, unix_now())
    }

    /// The entry after one more visit: a visit by a bot counts as a scrape,
    /// any other as a view. A counter that is full stays full.
    pub fn visited(self, by_bot: bool) -> (entry: Entry)
        ensures
            entry.contents@ == self.contents@,
            entry.creationdate == self.creationdate,
            entry.obfuscate == self.obfuscate,
            entry.views == if by_bot || self.views == u32::MAX {
                self.views
            } else {
                (self.views + 1) as u32
            },
            entry.scrapes == if !by_bot || self.scrapes == u32::MAX {
                self.scrapes
            } else {
                (self.scrapes + 1) as u32
            },
    {
        let views = if by_bot || self.views == u32::MAX {
            self.views
        } else {
            self.views + 1
        };
        let scrapes = if !by_bot || self.scrapes == u32::MAX {
            self.scrapes
        } else {
            self.scrapes + 1
        };
        Entry {
            views,
            scrapes,
            contents: self.contents,
            creationdate: self.creationdate,
            obfuscate: self.obfuscate,
        }
    }
}

/// One descriptor per name, in the order of the names, each with a copy of
/// its own of the options.
pub fn make_descriptors<O: Clone>(opts: O, cf_names: Vec<&str>) -> (out: Vec<Descriptor<O>>)
    ensures
        out@.len() == cf_names@.len(),
        forall|i: int| 0 <= i < out@.len() ==> (#[trigger] out@[i]).name@ == cf_names@[i]@,
        forall|i: int| 0 <= i < out@.len() ==> cloned(opts, (#[trigger] out@[i]).options),
{
    let mut out: Vec<Descriptor<O>> = Vec::new();
    let mut i: usize = 0;
    while i < cf_names.len()
        invariant
            i <= cf_names@.len(),
            out@.len() == i,
            forall|k: int| 0 <= k < i ==> (#[trigger] out@[k]).name@ == cf_names@[k]@,
            forall|k: int| 0 <= k < i ==> cloned(opts, (#[trigger] out@[k]).options),
        decreases cf_names@.len() - i,
    {
        let name: &str = cf_names[i];
        out.push(Descriptor { name: name.to_owned(), options: opts.clone() });
        i = i + 1;
    }
    out
}

} // verus!
