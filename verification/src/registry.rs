//! The provider registry: which kind of record is read under which type tag.

use vstd::prelude::*;
use vstd::hash_map::StringHashMap;
use crate::error::{plain_error, Error, ErrorKind};
use crate::object::Kind;

verus! {

/// The registered providers, by type tag. No tag has two.
pub struct Registry {
    providers: StringHashMap<Kind>,
}

impl View for Registry {
    type V = Map<Seq<char>, Kind>;

    closed spec fn view(&self) -> Map<Seq<char>, Kind> {
        self.providers@
    }
}

/// The registry after `kind` was registered under `tag`: unchanged where the
/// tag is taken.
pub open spec fn registered(providers: Map<Seq<char>, Kind>, tag: Seq<char>, kind: Kind) -> Map<
    Seq<char>,
    Kind,
> {
    if providers.contains_key(tag) {
        providers
    } else {
        providers.insert(tag, kind)
    }
}

/// The registry that reads each kind under its own tag.
pub open spec fn standard_providers() -> Map<Seq<char>, Kind> {
    Map::<Seq<char>, Kind>::empty().insert(Kind::Profile.tag(), Kind::Profile).insert(
        Kind::Endorsement.tag(),
        Kind::Endorsement,
    ).insert(Kind::Post.tag(), Kind::Post)
}

impl Registry {
    /// A registry holds finitely many providers.
    #[verifier::type_invariant]
    spec fn finitely_many(self) -> bool {
        self.providers@.dom().finite()
    }

    /// A registry without providers.
    pub fn new() -> (registry: Registry)
        ensures
            registry@ == Map::<Seq<char>, Kind>::empty(),
            registry@.dom().finite(),
            registry@.len() == 0,
    {
        Registry { providers: StringHashMap::new() }
    }

    /// Number of providers.
    pub fn len(&self) -> (n: usize)
        ensures
            self@.dom().finite(),
            n == self@.len(),
    {
        proof {
            use_type_invariant(self);
        }
        self.providers.len()
    }

    /// Registers `kind` as the provider for `tag`, which makes one provider
    /// more. A tag that already has a provider keeps it, and the error names
    /// the tag.
    pub fn register(&mut self, tag: &str, kind: Kind) -> (r: Result<(), Error>)
        ensures
            final(self)@ == registered(old(self)@, tag@, kind),
            old(self)@.dom().finite(),
            final(self)@.dom().finite(),
            match r {
                Ok(_) => !old(self)@.contains_key(tag@) && final(self)@.len() == old(self)@.len()
                    + 1,
                Err(e) => old(self)@.contains_key(tag@) && e@ == plain_error(
                    ErrorKind::DuplicateProviderTag,
                    tag@,
                ),
            },
    {
        proof {
            use_type_invariant(&*self);
        }
        if self.providers.contains_key(tag) {
            Err(Error::plain(ErrorKind::DuplicateProviderTag, tag))
        } else {
            // The map is taken out while it is changed, and put back whole.
            let mut providers = StringHashMap::new();
            std::mem::swap(&mut providers, &mut self.providers);
            providers.insert(tag.to_owned(), kind);
            self.providers = providers;
            Ok(())
        }
    }

    /// The kind that is read under `tag`.
    pub fn provider(&self, tag: &str) -> (kind: Option<Kind>)
        ensures
            self@.dom().finite(),
            kind == (if self@.contains_key(tag@) {
                Some(self@[tag@])
            } else {
                None
            }),
    {
        proof {
            use_type_invariant(self);
        }
        match self.providers.get(tag) {
            Some(kind) => Some(*kind),
            None => None,
        }
    }

    /// The registry that reads each kind under its own tag.
    pub fn standard() -> (registry: Registry)
        ensures
            registry@ == standard_providers(),
            registry@.dom().finite(),
            registry@.len() == 3,
    {
        let mut registry = Registry::new();
        proof {
            crate::object::lemma_keys_differ();
        }
        let _ = add_provider(&mut registry, Kind::Profile);
        let _ = add_provider(&mut registry, Kind::Endorsement);
        let _ = add_provider(&mut registry, Kind::Post);
        registry
    }
}

/// Registers `kind` under its own type tag.
pub fn add_provider(providers: &mut Registry, kind: Kind) -> (r: Result<(), Error>)
    ensures
        final(providers)@ == registered(old(providers)@, kind.tag(), kind),
        old(providers)@.dom().finite(),
        final(providers)@.dom().finite(),
        match r {
            Ok(_) => !old(providers)@.contains_key(kind.tag()) && final(providers)@.len() == old(
                providers,
            )@.len() + 1,
            Err(e) => old(providers)@.contains_key(kind.tag()) && e@ == plain_error(
                ErrorKind::DuplicateProviderTag,
                kind.tag(),
            ),
        },
{
    providers.register(kind.type_provider_name(), kind)
}

/// A tag can be registered once: a second registration under it fails and
/// leaves the first provider in place, whatever kind it names.
pub proof fn lemma_second_registration_rejected(
    providers: Map<Seq<char>, Kind>,
    tag: Seq<char>,
    first: Kind,
    second: Kind,
)
    ensures
        registered(providers, tag, first).contains_key(tag),
        registered(registered(providers, tag, first), tag, second) == registered(
            providers,
            tag,
            first,
        ),
{
}

} // verus!
