//! Behaviour by name. Content refers to behaviour (how prices are computed, say) by a
//! name; a [`NamedRegistry`] maps those names to handlers.

use vstd::prelude::*;
use vstd::string::StringExecFns;

use crate::search;
use crate::text;
use crate::text::{join, same_text};

verus! {

/// A name-keyed registry of behaviour handlers.
#[derive(Debug)]
pub struct NamedRegistry<H> {
    entries: Vec<(String, H)>,
}

/// Raised when content names a strategy that was never registered.
#[derive(Debug, Clone)]
pub struct UnknownStrategy {
    pub name: String,
    /// The names that are registered.
    pub available: String,
}

/// The names of a list of entries.
pub open spec fn names_of<H>(entries: Seq<(Seq<char>, H)>) -> Seq<Seq<char>> {
    Seq::new(entries.len(), |i: int| entries[i].0)
}

/// An entry with this name.
pub open spec fn named<H>(name: Seq<char>) -> spec_fn((Seq<char>, H)) -> bool {
    |e: (Seq<char>, H)| e.0 == name
}

/// The slot of a name.
pub open spec fn slot_of<H>(entries: Seq<(Seq<char>, H)>, name: Seq<char>) -> Option<int> {
    search::first(entries, named::<H>(name))
}

/// No name occurs twice.
pub open spec fn unique_names<H>(entries: Seq<(Seq<char>, H)>) -> bool {
    forall|i: int, j: int|
        0 <= i < j < entries.len() ==> (#[trigger] entries[i]).0 != (#[trigger] entries[j]).0
}

/// The entries after `handler` is registered under `name`: it takes the place of the one
/// registered under that name before, or comes last.
pub open spec fn registered<H>(
    entries: Seq<(Seq<char>, H)>,
    name: Seq<char>,
    handler: H,
) -> Seq<(Seq<char>, H)> {
    match slot_of(entries, name) {
        Some(i) => entries.update(i, (name, handler)),
        None => entries.push((name, handler)),
    }
}

impl UnknownStrategy {
    /// "unknown strategy 'x' (registered: [a, b])".
    pub open spec fn spec_message(&self) -> Seq<char> {
        "unknown strategy '"@ + self.name@ + "' (registered: ["@ + self.available@ + "])"@
    }

    /// The error as text.
    pub fn message(&self) -> (s: String)
        ensures
            s@ == self.spec_message(),
    {
        let mut s = String::new();
        s.append("unknown strategy '");
        s.append(self.name.as_str());
        s.append("' (registered: [");
        s.append(self.available.as_str());
        s.append("])");
        assert(s@ =~= self.spec_message());
        s
    }
}

impl<H> View for NamedRegistry<H> {
    type V = Seq<(Seq<char>, H)>;

    closed spec fn view(&self) -> Seq<(Seq<char>, H)> {
        Seq::new(self.entries@.len(), |i: int| (self.entries@[i].0@, self.entries@[i].1))
    }
}

impl<H> Default for NamedRegistry<H> {
    fn default() -> (r: Self)
        ensures
            r@ == Seq::<(Seq<char>, H)>::empty(),
    {
        Self::new()
    }
}

impl<H> NamedRegistry<H> {
    #[verifier::type_invariant]
    closed spec fn distinct(self) -> bool {
        unique_names(self@)
    }

    /// An empty registry.
    pub fn new() -> (r: Self)
        ensures
            r@ == Seq::<(Seq<char>, H)>::empty(),
    {
        let r = NamedRegistry { entries: Vec::new() };
        assert(r@ =~= Seq::<(Seq<char>, H)>::empty());
        r
    }

    /// The slot of `name`.
    fn find(&self, name: &str) -> (r: Option<usize>)
        ensures
            match r {
                Some(i) => i < self.entries@.len() && slot_of(self@, name@) == Some(i as int)
                    && self@[i as int].0 == name@,
                None => slot_of(self@, name@) is None,
            },
    {
        let ghost p = named::<H>(name@);
        let mut i: usize = 0;
        while i < self.entries.len()
            invariant
                i <= self.entries@.len(),
                p == named::<H>(name@),
                self@.len() == self.entries@.len(),
                forall|j: int| 0 <= j < i ==> !p(#[trigger] self@[j]),
            decreases self.entries@.len() - i,
        {
            assert(self@[i as int].0 == self.entries@[i as int].0@);
            if same_text(self.entries[i].0.as_str(), name) {
                proof {
                    search::lemma_first_is(self@, p, i as int);
                }
                return Some(i);
            }
            i = i + 1;
        }
        proof {
            search::lemma_first_none(self@, p);
        }
        None
    }

    /// Register `handler` under `name`, replacing any previous handler with that name.
    pub fn register(&mut self, name: &str, handler: H)
        ensures
            final(self)@ == registered(old(self)@, name@, handler),
    {
        proof {
            use_type_invariant(&*self);
        }
        let ghost before = self@;
        let slot = self.find(name);
        let mut entries: Vec<(String, H)> = Vec::new();
        std::mem::swap(&mut entries, &mut self.entries);
        let ghost ghosts = entries@;
        match slot {
            Some(i) => {
                entries.set(i, (name.to_owned(), handler));
            },
            None => {
                entries.push((name.to_owned(), handler));
            },
        }
        let ghost after = Seq::new(entries@.len(), |i: int| (entries@[i].0@, entries@[i].1));
        proof {
            assert(after =~= registered(before, name@, handler));
            lemma_registered_unique(before, name@, handler);
        }
        *self = NamedRegistry { entries };
        assert(self@ =~= after);
    }

    /// Resolve a name to its handler, or an error that lists what is registered.
    pub fn resolve(&self, name: &str) -> (r: Result<&H, UnknownStrategy>)
        ensures
            match r {
                Ok(h) => match slot_of(self@, name@) {
                    Some(i) => *h == self@[i].1,
                    None => false,
                },
                Err(e) => slot_of(self@, name@) is None && e.name@ == name@ && e.available@
                    == text::joined(names_of(self@), ", "@),
            },
    {
        match self.find(name) {
            Some(i) => Ok(&self.entries[i].1),
            None => Err(
                UnknownStrategy { name: name.to_owned(), available: join(&self.names(), ", ") },
            ),
        }
    }

    /// Whether `name` is registered.
    pub fn contains(&self, name: &str) -> (b: bool)
        ensures
            b == names_of(self@).contains(name@),
    {
        match self.find(name) {
            Some(i) => {
                assert(names_of(self@)[i as int] == name@);
                true
            },
            None => {
                proof {
                    let p = named::<H>(name@);
                    if names_of(self@).contains(name@) {
                        let k = names_of(self@).index_of(name@);
                        assert(p(self@[k]));
                        search::lemma_first_some(self@, p, k);
                    }
                }
                false
            },
        }
    }

    /// Every registered name once, in the order of first registration.
    pub fn names(&self) -> (r: Vec<String>)
        ensures
            text::texts(r@) == names_of(self@),
            r@.len() == self@.len(),
            unique_names(self@),
            text::texts(r@).no_duplicates(),
    {
        proof {
            use_type_invariant(self);
        }
        let mut out: Vec<String> = Vec::new();
        let mut i: usize = 0;
        while i < self.entries.len()
            invariant
                i <= self.entries@.len(),
                out@.len() == i,
                forall|j: int| 0 <= j < i ==> (#[trigger] out@[j])@ == self.entries@[j].0@,
            decreases self.entries@.len() - i,
        {
            out.push(self.entries[i].0.as_str().to_owned());
            i = i + 1;
        }
        assert(text::texts(out@) =~= names_of(self@));
        out
    }
}

/// Registering keeps names unique.
pub proof fn lemma_registered_unique<H>(
    entries: Seq<(Seq<char>, H)>,
    name: Seq<char>,
    handler: H,
)
    requires
        unique_names(entries),
    ensures
        unique_names(registered(entries, name, handler)),
{
    let p = named::<H>(name);
    match slot_of(entries, name) {
        Some(i) => {
            search::lemma_first_found(entries, p);
        },
        None => {
            assert forall|k: int| 0 <= k < entries.len() implies (#[trigger] entries[k]).0
                != name by {
                if entries[k].0 == name {
                    assert(p(entries[k]));
                    search::lemma_first_some(entries, p, k);
                }
            }
        },
    }
}

/// What was registered last under a name is what the name resolves to.
pub proof fn lemma_registered_resolves<H>(
    entries: Seq<(Seq<char>, H)>,
    name: Seq<char>,
    handler: H,
)
    requires
        unique_names(entries),
    ensures
        slot_of(registered(entries, name, handler), name) is Some,
        registered(entries, name, handler)[slot_of(
            registered(entries, name, handler),
            name,
        )->Some_0].1 == handler,
{
    let p = named::<H>(name);
    let after = registered(entries, name, handler);
    lemma_registered_unique(entries, name, handler);
    let k = match slot_of(entries, name) {
        Some(i) => {
            search::lemma_first_found(entries, p);
            i
        },
        None => entries.len() as int,
    };
    assert(p(after[k]));
    search::lemma_first_some(after, p, k);
    search::lemma_first_found(after, p);
}

/// The names of a registry are exactly those that resolve.
pub proof fn lemma_names_are_what_resolves<H>(entries: Seq<(Seq<char>, H)>, name: Seq<char>)
    ensures
        names_of(entries).contains(name) <==> slot_of(entries, name) is Some,
{
    let p = named::<H>(name);
    if names_of(entries).contains(name) {
        let k = names_of(entries).index_of(name);
        assert(p(entries[k]));
        search::lemma_first_some(entries, p, k);
    }
    if slot_of(entries, name) is Some {
        search::lemma_first_found(entries, p);
        let k = slot_of(entries, name)->Some_0;
        assert(names_of(entries)[k] == name);
    }
}

} // verus!
