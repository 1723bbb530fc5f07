//! The import binding table: a shadowable map from import path to handler.
use vstd::prelude::*;
use crate::world::{ItemIdent, opt_str_view};

verus! {

/// A function or resource slot in the primary's import namespace: at the
/// root when `interface` is absent, else inside the named interface.
#[derive(Clone, Debug, PartialEq, Eq)]
pub struct ImportPath {
    pub interface: Option<String>,
    pub name: String,
}

/// The abstract key of an import path.
pub type PathKey = (Option<Seq<char>>, Seq<char>);

impl ImportPath {
    pub open spec fn key(&self) -> PathKey {
        (opt_str_view(self.interface), self.name@)
    }
}

/// What answers calls at an import path.
#[derive(Clone, Debug, PartialEq, Eq)]
pub enum Handler {
    /// Reports a call under the import's qualified name and returns default results.
    Stub(String),
    /// Provided by the host-capability linker.
    Host,
    /// An opaque host resource type of unit representation.
    Resource,
    /// Forwards the call to the export `export` of donor instance `donor`.
    Donor { donor: usize, export: ItemIdent },
}

/// The binding table; each path appears at most once.
pub struct BindingTable {
    entries: Vec<(ImportPath, Handler)>,
    map: Ghost<Map<PathKey, Handler>>,
}

/// Compares two import paths by their names.
pub fn same_path(a: &ImportPath, b: &ImportPath) -> (r: bool)
    ensures
        r == (a.key() == b.key()),
{
    let same_interface = match (&a.interface, &b.interface) {
        (None, None) => true,
        (Some(x), Some(y)) => *x == *y,
        _ => false,
    };
    same_interface && a.name == b.name
}

impl View for BindingTable {
    type V = Map<PathKey, Handler>;

    closed spec fn view(&self) -> Map<PathKey, Handler> {
        self.map@
    }
}

impl BindingTable {
    /// Entries have distinct paths and agree with the view.
    pub closed spec fn wf(&self) -> bool {
        &&& forall|i: int, j: int| 0 <= i < j < self.entries.len() ==> #[trigger] self.entries@[i].0.key() != #[trigger] self.entries@[j].0.key()
        &&& forall|i: int| 0 <= i < self.entries.len() ==> #[trigger] self.map@.contains_key(self.entries@[i].0.key())
            && self.map@[self.entries@[i].0.key()] == self.entries@[i].1
        &&& forall|p: PathKey| #[trigger] self.map@.contains_key(p) ==> exists|i: int| 0 <= i < self.entries.len() && self.entries@[i].0.key() == p
    }

    /// An empty table.
    pub fn new() -> (r: BindingTable)
        ensures
            r.wf(),
            r@ == Map::<PathKey, Handler>::empty(),
    {
        BindingTable { entries: Vec::new(), map: Ghost(Map::empty()) }
    }

    /// The number of bound paths.
    pub fn len(&self) -> (r: usize)
        requires
            self.wf(),
        ensures
            r == self@.len(),
    {
        proof {
            self.lemma_len();
        }
        self.entries.len()
    }

    proof fn lemma_len(&self)
        requires
            self.wf(),
        ensures
            self@.len() == self.entries.len(),
    {
        let keys = Seq::new(self.entries.len() as nat, |i: int| self.entries@[i].0.key());
        assert(keys.no_duplicates());
        assert(self@.dom() =~= keys.to_set()) by {
            assert forall|p: PathKey| self@.dom().contains(p) implies keys.to_set().contains(p) by {
                let i = choose|i: int| 0 <= i < self.entries.len() && self.entries@[i].0.key() == p;
                assert(keys[i] == p);
            }
            assert forall|p: PathKey| keys.to_set().contains(p) implies self@.dom().contains(p) by {
                let i = choose|i: int| 0 <= i < keys.len() && keys[i] == p;
                assert(self.map@.contains_key(self.entries@[i].0.key()));
            }
        }
        keys.unique_seq_to_set();
    }

    fn position(&self, path: &ImportPath) -> (r: Option<usize>)
        requires
            self.wf(),
        ensures
            match r {
                Some(i) => i < self.entries.len() && self.entries@[i as int].0.key() == path.key(),
                None => !self@.contains_key(path.key()),
            },
    {
        let mut k: usize = 0;
        while k < self.entries.len()
            invariant
                self.wf(),
                k <= self.entries.len(),
                forall|i: int| 0 <= i < k ==> #[trigger] self.entries@[i].0.key() != path.key(),
            decreases self.entries.len() - k,
        {
            if same_path(&self.entries[k].0, path) {
                return Some(k);
            }
            k = k + 1;
        }
        None
    }

    /// The handler bound at `path`.
    pub fn lookup(&self, path: &ImportPath) -> (r: Option<&Handler>)
        requires
            self.wf(),
        ensures
            match r {
                Some(h) => self@.contains_key(path.key()) && self@[path.key()] == *h,
                None => !self@.contains_key(path.key()),
            },
    {
        match self.position(path) {
            Some(i) => {
                assert(self.map@.contains_key(self.entries@[i as int].0.key()));
                Some(&self.entries[i].1)
            },
            None => None,
        }
    }

    /// Binds `handler` at `path`, replacing (shadowing) any earlier binding.
    pub fn install(&mut self, path: ImportPath, handler: Handler)
        requires
            old(self).wf(),
        ensures
            final(self).wf(),
            final(self)@ == old(self)@.insert(path.key(), handler),
    {
        let ghost key = path.key();
        let ghost old_entries = self.entries@;
        let pos = self.position(&path);
        proof {
            self.map@ = self.map@.insert(key, handler);
        }
        let ghost at: int;
        match pos {
            Some(i) => {
                self.entries.set(i, (path, handler));
                proof {
                    at = i as int;
                }
                assert(forall|j: int| 0 <= j < self.entries.len() && j != i ==> self.entries@[j] == old_entries[j]);
            },
            None => {
                self.entries.push((path, handler));
                proof {
                    at = old_entries.len() as int;
                }
                assert(forall|j: int| 0 <= j < old_entries.len() ==> self.entries@[j] == old_entries[j]);
            },
        }
        assert(self.entries@[at].0.key() == key);
        assert forall|p: PathKey| #[trigger] self.map@.contains_key(p) implies exists|i: int|
            0 <= i < self.entries.len() && self.entries@[i].0.key() == p by {
            if p != key {
                let i = choose|i: int| 0 <= i < old_entries.len() && old_entries[i].0.key() == p;
                assert(self.entries@[i].0.key() == p);
            } else {
                assert(self.entries@[at].0.key() == p);
            }
        }
    }
}


/// Installing twice at one path leaves the second handler bound there and
/// no second entry: the same table as installing the second handler alone.
pub proof fn lemma_shadowing(m: Map<PathKey, Handler>, p: PathKey, h1: Handler, h2: Handler)
    ensures
        m.insert(p, h1).insert(p, h2) == m.insert(p, h2),
        m.insert(p, h1).insert(p, h2)[p] == h2,
        m.insert(p, h1).insert(p, h2).dom() == m.insert(p, h1).dom(),
{
    assert(m.insert(p, h1).insert(p, h2) =~= m.insert(p, h2));
    assert(m.insert(p, h1).insert(p, h2).dom() =~= m.insert(p, h1).dom());
}

} // verus!
