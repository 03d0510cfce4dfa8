//! Personas: the names and descriptions that users go by.
use vstd::prelude::*;

use crate::assoc;
use crate::identity::{EntityId, ulid_text_of};
use crate::json::{copy_members, Json, JsonView, members_view};
use crate::text::{
    self, decimal, decimal_text, digit, lemma_lex_asymmetric, lemma_lex_irreflexive,
    lemma_lex_total, lemma_lex_transitive, less, lex_less, option_view,
};

verus! {

/// What is known of a persona beside its name.
#[derive(Clone, Debug, Eq, PartialEq)]
pub struct PersonaDescription {
    pub description: String,
    pub position: i64,
    pub metadata: Vec<(String, Json)>,
}

/// The personas of a user by key, each list in ascending order of its keys.
#[derive(Clone, Debug, Eq, PartialEq)]
pub struct PersonaStore {
    pub personas: Vec<(String, String)>,
    pub persona_descriptions: Vec<(String, PersonaDescription)>,
    pub default_persona: Option<String>,
    pub metadata: Vec<(String, Json)>,
}

/// A persona.
#[derive(Clone, Debug, Eq, PartialEq)]
pub struct Persona {
    pub key: String,
    pub name: String,
    pub description: String,
    pub position: i64,
}

/// Why personas cannot be had or changed.
#[derive(Clone, Debug, Eq, PartialEq)]
pub enum PersonaStoreError {
    Read { path: String, source: String },
    Parse { path: String, source: String },
    Serialize,
    Write { path: String, source: String },
    PersonaNotFound(String),
}

/// The abstract value of a [`PersonaDescription`].
pub struct DescriptionView {
    pub description: Seq<char>,
    pub position: i64,
    pub metadata: Seq<(Seq<char>, JsonView)>,
}

impl View for PersonaDescription {
    type V = DescriptionView;

    open spec fn view(&self) -> DescriptionView {
        DescriptionView {
            description: self.description@,
            position: self.position,
            metadata: members_view(self.metadata@),
        }
    }
}

/// The abstract value of a [`Persona`].
pub struct PersonaView {
    pub key: Seq<char>,
    pub name: Seq<char>,
    pub description: Seq<char>,
    pub position: i64,
}

impl View for Persona {
    type V = PersonaView;

    open spec fn view(&self) -> PersonaView {
        PersonaView {
            key: self.key@,
            name: self.name@,
            description: self.description@,
            position: self.position,
        }
    }
}

/// The abstract values of personas.
pub open spec fn persona_views(personas: Seq<Persona>) -> Seq<PersonaView> {
    Seq::new(personas.len(), |i: int| personas[i]@)
}

/// The persona of a key and a name, with what is known of it.
pub open spec fn persona_of(
    key: Seq<char>,
    name: Seq<char>,
    descriptions: Seq<(String, PersonaDescription)>,
) -> PersonaView {
    match assoc::lookup(descriptions, key) {
        Some(entry) => PersonaView {
            key,
            name,
            description: entry.description@,
            position: entry.position,
        },
        None => PersonaView { key, name, description: Seq::empty(), position: 0 },
    }
}

/// A persona comes before another: by its position, else by its name, else by
/// its key.
pub open spec fn comes_before(left: PersonaView, right: PersonaView) -> bool {
    ||| left.position < right.position
    ||| left.position == right.position && lex_less(left.name, right.name)
    ||| left.position == right.position && left.name == right.name && lex_less(left.key, right.key)
}

/// Where a persona goes among others: behind all at the end that it does not
/// come before.
pub open spec fn persona_slot(personas: Seq<PersonaView>, persona: PersonaView) -> int
    decreases personas.len(),
{
    if personas.len() > 0 && comes_before(persona, personas.last()) {
        persona_slot(personas.drop_last(), persona)
    } else {
        personas.len() as int
    }
}

/// The first `count` personas in the order in which they are shown.
pub open spec fn listed_upto(store: PersonaStore, count: int) -> Seq<PersonaView>
    decreases count,
{
    if count <= 0 {
        Seq::empty()
    } else {
        let head = listed_upto(store, count - 1);
        let persona = persona_of(
            store.personas@[count - 1].0@,
            store.personas@[count - 1].1@,
            store.persona_descriptions@,
        );
        head.insert(persona_slot(head, persona), persona)
    }
}

/// A persona of that name is there.
pub open spec fn has_named(personas: Seq<(String, String)>, name: Seq<char>) -> bool {
    exists|i: int| 0 <= i < personas.len() && (#[trigger] personas[i]).1@ == name
}

/// The name of a copy, with a number behind it from the second on.
pub open spec fn numbered(base: Seq<char>, n: nat) -> Seq<char> {
    if n <= 1 {
        base
    } else {
        base + "-"@ + decimal(n)
    }
}

/// The first name of a copy that no persona has.
pub open spec fn is_copy_name(
    name: Seq<char>,
    personas: Seq<(String, String)>,
    source_name: Seq<char>,
) -> bool {
    exists|n: nat|
        1 <= n && name == #[trigger] numbered(source_name + "-copy"@, n) && !has_named(
            personas,
            name,
        ) && forall|m: nat|
            1 <= m < n ==> has_named(personas, #[trigger] numbered(source_name + "-copy"@, m))
}

proof fn lemma_decimal_injective(a: nat, b: nat)
    requires
        decimal(a) == decimal(b),
    ensures
        a == b,
    decreases a,
{
    lemma_decimal_last(a);
    lemma_decimal_last(b);
    if a < 10 && b < 10 {
    } else if a < 10 {
        lemma_decimal_length(b / 10);
        assert(decimal(b).len() >= 2);
        assert(decimal(a).len() == 1);
    } else if b < 10 {
        lemma_decimal_length(a / 10);
        assert(decimal(a).len() >= 2);
        assert(decimal(b).len() == 1);
    } else {
        assert(decimal(a).drop_last() =~= decimal(a / 10));
        assert(decimal(b).drop_last() =~= decimal(b / 10));
        lemma_decimal_injective(a / 10, b / 10);
        assert(a == (a / 10) * 10 + a % 10);
        assert(b == (b / 10) * 10 + b % 10);
    }
}

proof fn lemma_decimal_length(n: nat)
    ensures
        decimal(n).len() >= 1,
    decreases n,
{
    if n >= 10 {
        lemma_decimal_length(n / 10);
    }
}

proof fn lemma_decimal_last(n: nat)
    ensures
        decimal(n).len() > 0,
        decimal(n).last() == digit(n % 10),
        forall|m: nat| #[trigger] digit(m % 10) == digit(n % 10) ==> m % 10 == n % 10,
{
    assert forall|m: nat| #[trigger] digit(m % 10) == digit(n % 10) implies m % 10 == n % 10 by {
        lemma_digit_injective(m % 10, n % 10);
    }
}

proof fn lemma_digit_injective(a: nat, b: nat)
    requires
        a < 10,
        b < 10,
        digit(a) == digit(b),
    ensures
        a == b,
{
    assert(digit(a) as u32 == 48 + a);
    assert(digit(b) as u32 == 48 + b);
}

proof fn lemma_numbered_injective(base: Seq<char>, a: nat, b: nat)
    requires
        numbered(base, a) == numbered(base, b),
        1 <= a,
        1 <= b,
    ensures
        a == b,
{
    reveal_strlit("-");
    if a >= 2 && b >= 2 {
        let left = numbered(base, a);
        let right = numbered(base, b);
        assert(left.skip(base.len() as int + 1) =~= decimal(a));
        assert(right.skip(base.len() as int + 1) =~= decimal(b));
        lemma_decimal_injective(a, b);
    } else if a >= 2 {
        assert(numbered(base, a).len() > base.len());
    } else if b >= 2 {
        assert(numbered(base, b).len() > base.len());
    }
}

fn check_named(personas: &Vec<(String, String)>, name: &str) -> (r: bool)
    ensures
        r == has_named(personas@, name@),
{
    let mut i: usize = 0;
    while i < personas.len()
        invariant
            i <= personas@.len(),
            forall|j: int| 0 <= j < i ==> (#[trigger] personas@[j]).1@ != name@,
        decreases personas@.len() - i,
    {
        if text::same(personas[i].1.as_str(), name) {
            return true;
        }
        i = i + 1;
    }
    false
}

/// A persona other than those already met has that name.
spec fn unmet_has_named(
    personas: Seq<(String, String)>,
    unmet: Set<int>,
    base: Seq<char>,
    n: nat,
) -> bool {
    forall|i: int|
        0 <= i < personas.len() ==> unmet.contains(i) || exists|m: nat|
            1 <= m < n && (#[trigger] personas[i]).1@ == #[trigger] numbered(base, m)
}

proof fn lemma_indices_are_finite(n: nat)
    ensures
        Set::new(|i: int| 0 <= i < n).finite(),
        Set::new(|i: int| 0 <= i < n).len() == n,
    decreases n,
{
    let all = Set::new(|i: int| 0 <= i < n);
    if n == 0 {
        assert(all =~= Set::empty());
    } else {
        lemma_indices_are_finite((n - 1) as nat);
        assert(all =~= Set::new(|i: int| 0 <= i < n - 1).insert(n - 1));
    }
}

fn copy_name(personas: &Vec<(String, String)>, source_name: &str) -> (name: String)
    requires
        personas@.len() < usize::MAX - 2,
    ensures
        is_copy_name(name@, personas@, source_name@),
{
    let mut base = source_name.to_owned();
    base.push_str("-copy");
    let ghost stem = source_name@ + "-copy"@;
    let count: usize = personas.len();
    let mut suffix: u64 = 1;
    let ghost mut unmet = Set::new(|i: int| 0 <= i < personas@.len());
    proof {
        lemma_indices_are_finite(personas@.len());
    }
    loop
        invariant
            base@ == stem,
            stem == source_name@ + "-copy"@,
            count == personas@.len(),
            count < usize::MAX - 2,
            1 <= suffix,
            unmet.finite(),
            suffix + unmet.len() <= count + 1,
            unmet_has_named(personas@, unmet, stem, suffix as nat),
            forall|m: nat|
                1 <= m < suffix ==> has_named(personas@, #[trigger] numbered(stem, m)),
        decreases unmet.len(),
    {
        let mut candidate = base.clone();
        if suffix >= 2 {
            candidate.push_str("-");
            candidate.push_str(decimal_text(suffix).as_str());
        }
        proof {
            assert(candidate@ == numbered(stem, suffix as nat));
        }
        if !check_named(personas, candidate.as_str()) {
            return candidate;
        }
        proof {
            let met = choose|i: int|
                0 <= i < personas@.len() && (#[trigger] personas@[i]).1@ == candidate@;
            if !unmet.contains(met) {
                let m = choose|m: nat|
                    1 <= m < suffix && personas@[met].1@ == #[trigger] numbered(stem, m);
                lemma_numbered_injective(stem, m, suffix as nat);
                assert(false);
            }
            let before = unmet;
            unmet = unmet.remove(met);
            assert forall|i: int| 0 <= i < personas@.len() implies unmet.contains(i) || exists|
                m: nat,
            |
                1 <= m < suffix + 1 && (#[trigger] personas@[i]).1@ == #[trigger] numbered(
                    stem,
                    m,
                ) by {
                if i == met {
                    assert(personas@[i].1@ == numbered(stem, suffix as nat));
                } else if !before.contains(i) {
                    let m = choose|m: nat|
                        1 <= m < suffix && personas@[i].1@ == #[trigger] numbered(stem, m);
                    assert(1 <= m < suffix + 1);
                }
            }
        }
        suffix = suffix + 1;
    }
}

impl PersonaStore {
    /// Each list is in strictly ascending order of its keys.
    pub open spec fn wf(&self) -> bool {
        &&& assoc::ascending(self.personas@)
        &&& assoc::ascending(self.persona_descriptions@)
        &&& assoc::ascending(self.metadata@)
    }

    /// The persona of a key.
    pub open spec fn persona(&self, key: Seq<char>) -> Option<PersonaView> {
        match assoc::lookup(self.personas@, key) {
            Some(name) => Some(persona_of(key, name@, self.persona_descriptions@)),
            None => None,
        }
    }

    /// What is known under a key, with all that a description holds.
    pub open spec fn description(&self, key: Seq<char>) -> Option<DescriptionView> {
        match assoc::lookup(self.persona_descriptions@, key) {
            Some(entry) => Some(entry@),
            None => None,
        }
    }

    /// Nothing but what stands under a key is other than it was.
    pub open spec fn differs_only_at(&self, before: Self, key: Seq<char>) -> bool {
        forall|other: Seq<char>|
            #![trigger self.persona(other)]
            #![trigger self.description(other)]
            other != key ==> self.persona(other) == before.persona(other) && self.description(other)
                == before.description(other)
    }

    /// No personas.
    pub fn empty() -> (store: Self)
        ensures
            store.wf(),
            store.personas@.len() == 0,
            store.persona_descriptions@.len() == 0,
            store.default_persona is None,
            store.metadata@.len() == 0,
    {
        PersonaStore {
            personas: Vec::new(),
            persona_descriptions: Vec::new(),
            default_persona: None,
            metadata: Vec::new(),
        }
    }

    fn describe(&self, key: &str, name: &str) -> (persona: Persona)
        ensures
            persona@ == persona_of(key@, name@, self.persona_descriptions@),
    {
        match assoc::find(&self.persona_descriptions, key) {
            Some(entry) => Persona {
                key: key.to_owned(),
                name: name.to_owned(),
                description: entry.description.clone(),
                position: entry.position,
            },
            None => {
                let description = String::new();
                proof {
                    assert(description@ =~= Seq::<char>::empty());
                }
                Persona { key: key.to_owned(), name: name.to_owned(), description, position: 0 }
            },
        }
    }

    /// The personas in the order in which they are shown.
    pub fn personas(&self) -> (list: Vec<Persona>)
        ensures
            persona_views(list@) == listed_upto(*self, self.personas@.len() as int),
    {
        let mut list: Vec<Persona> = Vec::new();
        let mut i: usize = 0;
        proof {
            assert(persona_views(list@) =~= Seq::<PersonaView>::empty());
        }
        while i < self.personas.len()
            invariant
                i <= self.personas@.len(),
                persona_views(list@) == listed_upto(*self, i as int),
            decreases self.personas@.len() - i,
        {
            let persona = self.describe(self.personas[i].0.as_str(), self.personas[i].1.as_str());
            insert_persona(&mut list, persona);
            i = i + 1;
        }
        list
    }

    /// The persona of a key.
    pub fn get(&self, key: &str) -> (found: Option<Persona>)
        ensures
            match found {
                Some(persona) => self.persona(key@) == Some(persona@),
                None => self.persona(key@) is None,
            },
    {
        match assoc::find(&self.personas, key) {
            Some(name) => Some(self.describe(key, name.as_str())),
            None => None,
        }
    }

    /// The key of the persona that is used where none is named.
    pub fn default_persona(&self) -> (key: Option<&String>)
        ensures
            match key {
                Some(k) => self.default_persona == Some(*k),
                None => self.default_persona is None,
            },
    {
        match &self.default_persona {
            Some(key) => Some(key),
            None => None,
        }
    }

    /// Adds a persona under a key.
    pub fn insert_with(&mut self, key: String, name: String, description: String)
        requires
            old(self).wf(),
        ensures
            final(self).wf(),
            final(self).persona(key@) == Some(
                (PersonaView { key: key@, name: name@, description: description@, position: 0 }),
            ),
            final(self).description(key@) == Some(
                (DescriptionView {
                    description: description@,
                    position: 0,
                    metadata: Seq::empty(),
                }),
            ),
            final(self).differs_only_at(*old(self), key@),
            final(self).default_persona == old(self).default_persona,
            final(self).metadata == old(self).metadata,
    {
        let entry = PersonaDescription { description, position: 0, metadata: Vec::new() };
        proof {
            assert(members_view(entry.metadata@) =~= Seq::empty());
            lemma_set(self.personas@, key, name);
            lemma_set(self.persona_descriptions@, key, entry);
        }
        assoc::set(&mut self.personas, key.clone(), name);
        assoc::set(&mut self.persona_descriptions, key, entry);
    }

    /// Adds a persona under a fresh key.
    pub fn insert(&mut self, name: String, description: String) -> (key: String)
        requires
            old(self).wf(),
        ensures
            final(self).wf(),
            exists|bits: u128| key@ == "stcli-"@ + #[trigger] ulid_text_of(bits),
            final(self).persona(key@) == Some(
                (PersonaView { key: key@, name: name@, description: description@, position: 0 }),
            ),
            final(self).description(key@) == Some(
                (DescriptionView {
                    description: description@,
                    position: 0,
                    metadata: Seq::empty(),
                }),
            ),
            final(self).differs_only_at(*old(self), key@),
            final(self).default_persona == old(self).default_persona,
            final(self).metadata == old(self).metadata,
    {
        let key = fresh_key();
        self.insert_with(key.clone(), name, description);
        key
    }

    /// Adds a copy of a persona under a key, by the first name of a copy that is
    /// free.
    pub fn duplicate_with(&mut self, key: &str, new_key: String) -> (r: Result<(), PersonaStoreError>)
        requires
            old(self).wf(),
            old(self).personas@.len() < usize::MAX - 2,
        ensures
            final(self).wf(),
            match r {
                Ok(()) => {
                    &&& is_duplicated(*old(self), *final(self), key@, new_key@)
                },
                Err(PersonaStoreError::PersonaNotFound(k)) => {
                    &&& k@ == key@
                    &&& old(self).description(key@) is None || old(self).persona(key@) is None
                    &&& *final(self) == *old(self)
                },
                Err(_) => false,
            },
            final(self).default_persona == old(self).default_persona,
            final(self).metadata == old(self).metadata,
    {
        let entry = match assoc::find(&self.persona_descriptions, key) {
            Some(entry) => PersonaDescription {
                description: entry.description.clone(),
                position: entry.position,
                metadata: copy_members(&entry.metadata),
            },
            None => return Err(PersonaStoreError::PersonaNotFound(key.to_owned())),
        };
        let name = match assoc::find(&self.personas, key) {
            Some(name) => copy_name(&self.personas, name.as_str()),
            None => return Err(PersonaStoreError::PersonaNotFound(key.to_owned())),
        };
        proof {
            lemma_set(self.personas@, new_key, name);
            lemma_set(self.persona_descriptions@, new_key, entry);
        }
        assoc::set(&mut self.personas, new_key.clone(), name);
        assoc::set(&mut self.persona_descriptions, new_key, entry);
        Ok(())
    }

    /// Adds a copy of a persona under a fresh key.
    pub fn duplicate(&mut self, key: &str) -> (r: Result<String, PersonaStoreError>)
        requires
            old(self).wf(),
            old(self).personas@.len() < usize::MAX - 2,
        ensures
            final(self).wf(),
            match r {
                Ok(new_key) => {
                    &&& exists|bits: u128| new_key@ == "stcli-"@ + #[trigger] ulid_text_of(bits)
                    &&& is_duplicated(*old(self), *final(self), key@, new_key@)
                },
                Err(PersonaStoreError::PersonaNotFound(k)) => {
                    &&& k@ == key@
                    &&& old(self).description(key@) is None || old(self).persona(key@) is None
                    &&& *final(self) == *old(self)
                },
                Err(_) => false,
            },
            final(self).default_persona == old(self).default_persona,
            final(self).metadata == old(self).metadata,
    {
        let new_key = fresh_key();
        match self.duplicate_with(key, new_key.clone()) {
            Ok(()) => Ok(new_key),
            Err(e) => Err(e),
        }
    }

    /// Changes the name and the description of a persona.
    pub fn update(&mut self, key: &str, name: String, description: String) -> (r: Result<
        (),
        PersonaStoreError,
    >)
        requires
            old(self).wf(),
        ensures
            final(self).wf(),
            match r {
                Ok(()) => {
                    &&& old(self).persona(key@) is Some
                    &&& final(self).persona(key@) == Some(
                        (PersonaView {
                            key: key@,
                            name: name@,
                            description: description@,
                            position: old(self).persona(key@)->0.position,
                        }),
                    )
                    &&& final(self).description(key@) == Some(
                        (DescriptionView {
                            description: description@,
                            position: old(self).persona(key@)->0.position,
                            metadata: match old(self).description(key@) {
                                Some(entry) => entry.metadata,
                                None => Seq::empty(),
                            },
                        }),
                    )
                    &&& final(self).differs_only_at(*old(self), key@)
                },
                Err(PersonaStoreError::PersonaNotFound(k)) => {
                    &&& k@ == key@
                    &&& old(self).persona(key@) is None
                    &&& *final(self) == *old(self)
                },
                Err(_) => false,
            },
            final(self).default_persona == old(self).default_persona,
            final(self).metadata == old(self).metadata,
    {
        if assoc::find(&self.personas, key).is_none() {
            return Err(PersonaStoreError::PersonaNotFound(key.to_owned()));
        }
        let entry = match assoc::find(&self.persona_descriptions, key) {
            Some(entry) => PersonaDescription {
                description,
                position: entry.position,
                metadata: copy_members(&entry.metadata),
            },
            None => {
                let entry = PersonaDescription { description, position: 0, metadata: Vec::new() };
                assert(members_view(entry.metadata@) =~= Seq::empty());
                entry
            },
        };
        let owned = key.to_owned();
        proof {
            lemma_set(self.personas@, owned, name);
            lemma_set(self.persona_descriptions@, owned, entry);
        }
        assoc::set(&mut self.personas, owned.clone(), name);
        assoc::set(&mut self.persona_descriptions, owned, entry);
        Ok(())
    }

    /// Takes a persona away.
    pub fn remove(&mut self, key: &str) -> (removed: bool)
        requires
            old(self).wf(),
        ensures
            final(self).wf(),
            removed == (old(self).persona(key@) is Some),
            final(self).persona(key@) is None,
            final(self).description(key@) is None,
            final(self).differs_only_at(*old(self), key@),
            option_view(final(self).default_persona) == if option_view(old(self).default_persona)
                == Some(key@) {
                None
            } else {
                option_view(old(self).default_persona)
            },
            final(self).metadata == old(self).metadata,
    {
        proof {
            lemma_unset(self.personas@, key@);
            lemma_unset(self.persona_descriptions@, key@);
        }
        let removed = assoc::remove(&mut self.personas, key).is_some();
        let _ = assoc::remove(&mut self.persona_descriptions, key);
        let is_default = match &self.default_persona {
            Some(default) => text::same(default.as_str(), key),
            None => false,
        };
        if is_default {
            self.default_persona = None;
        }
        removed
    }

    /// Takes over what a backup holds, in place of what is there under the same
    /// keys. Tells how many personas the backup holds.
    pub fn import_backup(&mut self, imported: PersonaStore) -> (count: usize)
        requires
            old(self).wf(),
            imported.wf(),
        ensures
            final(self).wf(),
            count == imported.personas@.len(),
            is_merged(final(self).personas@, old(self).personas@, imported.personas@),
            is_merged(
                final(self).persona_descriptions@,
                old(self).persona_descriptions@,
                imported.persona_descriptions@,
            ),
            is_merged(final(self).metadata@, old(self).metadata@, imported.metadata@),
            final(self).default_persona == match imported.default_persona {
                Some(key) => Some(key),
                None => old(self).default_persona,
            },
    {
        let count: usize = imported.personas.len();
        merge(&mut self.personas, imported.personas);
        merge(&mut self.persona_descriptions, imported.persona_descriptions);
        merge(&mut self.metadata, imported.metadata);
        if imported.default_persona.is_some() {
            self.default_persona = imported.default_persona;
        }
        count
    }
}

/// Under a new key stands a copy of what stands under another: all that is known
/// of it, under the first name of a copy that is free.
pub open spec fn is_duplicated(
    before: PersonaStore,
    after: PersonaStore,
    key: Seq<char>,
    new_key: Seq<char>,
) -> bool {
    &&& before.persona(key) matches Some(source)
    &&& before.description(key) is Some
    &&& after.persona(new_key) matches Some(copy)
    &&& is_copy_name(copy.name, before.personas@, source.name)
    &&& copy.description == source.description
    &&& copy.position == source.position
    &&& after.description(new_key) == before.description(key)
    &&& after.differs_only_at(before, new_key)
}

/// One list is another with the entries of a third put in, in place of those of
/// the same key.
pub open spec fn is_merged<V>(
    merged: Seq<(String, V)>,
    before: Seq<(String, V)>,
    added: Seq<(String, V)>,
) -> bool {
    &&& assoc::ascending(merged)
    &&& forall|key: Seq<char>| #[trigger]
        assoc::lookup(merged, key) == match assoc::lookup(added, key) {
            Some(value) => Some(value),
            None => assoc::lookup(before, key),
        }
}

fn merge<V>(entries: &mut Vec<(String, V)>, added: Vec<(String, V)>)
    requires
        assoc::ascending(old(entries)@),
        assoc::ascending(added@),
    ensures
        is_merged(final(entries)@, old(entries)@, added@),
{
    let ghost all = added@;
    let count: usize = added.len();
    let mut rest = added;
    let mut i: usize = 0;
    proof {
        assert(all.skip(0) =~= all);
        assert forall|key: Seq<char>| #[trigger] assoc::lookup(all.take(0), key) is None by {
            assoc::lemma_index_of(all.take(0), key);
        }
    }
    while i < count
        invariant
            i <= count,
            count == all.len(),
            rest@ == all.skip(i as int),
            assoc::ascending(all),
            assoc::ascending(entries@),
            is_merged(entries@, old(entries)@, all.take(i as int)),
        decreases count - i,
    {
        let ghost before = entries@;
        let (key, value) = rest.remove(0);
        proof {
            assert(rest@ =~= all.skip(i + 1));
            assert((key, value) == all[i as int]);
            lemma_set(before, key, value);
            assert forall|other: Seq<char>| #[trigger]
                assoc::lookup(assoc::with_entry(before, key, value), other) == match assoc::lookup(
                    all.take(i + 1),
                    other,
                ) {
                    Some(v) => Some(v),
                    None => assoc::lookup(old(entries)@, other),
                } by {
                assoc::lemma_with_entry_found(before, key, value, other);
                lemma_lookup_next(all, i as int, other);
            }
        }
        assoc::set(entries, key, value);
        i = i + 1;
    }
    proof {
        assert(all.take(count as int) =~= all);
    }
}

proof fn lemma_lookup_next<V>(entries: Seq<(String, V)>, i: int, key: Seq<char>)
    requires
        0 <= i < entries.len(),
        assoc::ascending(entries),
    ensures
        assoc::lookup(entries.take(i + 1), key) == if entries[i].0@ == key {
            Some(entries[i].1)
        } else {
            assoc::lookup(entries.take(i), key)
        },
{
    let head = entries.take(i);
    let next = entries.take(i + 1);
    assoc::lemma_index_of(head, key);
    assoc::lemma_index_of(next, key);
    let at = assoc::index_of(head, key);
    if entries[i].0@ == key {
        assert forall|j: int| 0 <= j < i implies (#[trigger] next[j]).0@ != key by {
            lemma_lex_irreflexive(key);
            assert(lex_less(entries[j].0@, entries[i].0@));
        }
        assoc::lemma_index_is(next, key, i);
    } else if at < i {
        assert(next[at] == head[at]);
        assert forall|j: int| 0 <= j < at implies (#[trigger] next[j]).0@ != key by {
            assert(next[j] == head[j]);
        }
        assoc::lemma_index_is(next, key, at);
    } else {
        assert forall|j: int| 0 <= j < i + 1 implies (#[trigger] next[j]).0@ != key by {
            if j < i {
                assert(next[j] == head[j]);
            }
        }
        assoc::lemma_index_is(next, key, i + 1);
    }
}

fn fresh_key() -> (key: String)
    ensures
        exists|bits: u128| key@ == "stcli-"@ + #[trigger] ulid_text_of(bits),
{
    let mut key = "stcli-".to_owned();
    key.push_str(EntityId::new().text().as_str());
    key
}

fn insert_persona(list: &mut Vec<Persona>, persona: Persona)
    ensures
        persona_views(final(list)@) == persona_views(old(list)@).insert(
            persona_slot(persona_views(old(list)@), persona@),
            persona@,
        ),
{
    let ghost before = persona_views(list@);
    let mut at: usize = list.len();
    proof {
        assert(before.take(at as int) =~= before);
    }
    while at > 0 && check_comes_before(&persona, &list[at - 1])
        invariant
            at <= list@.len(),
            before == persona_views(list@),
            persona_slot(before, persona@) == persona_slot(before.take(at as int), persona@),
        decreases at,
    {
        proof {
            assert(before.take(at as int).drop_last() =~= before.take(at - 1));
            assert(before.take(at as int).last() == list@[at - 1]@);
        }
        at = at - 1;
    }
    proof {
        assert(at > 0 ==> before.take(at as int).last() == list@[at - 1]@);
        assert(persona_slot(before, persona@) == at);
    }
    list.insert(at, persona);
    proof {
        assert(persona_views(list@) =~= before.insert(at as int, persona@));
    }
}

fn check_comes_before(left: &Persona, right: &Persona) -> (r: bool)
    ensures
        r == comes_before(left@, right@),
{
    if left.position != right.position {
        return left.position < right.position;
    }
    if !text::same(left.name.as_str(), right.name.as_str()) {
        proof {
            lemma_lex_total(left.name@, right.name@);
        }
        return less(left.name.as_str(), right.name.as_str());
    }
    proof {
        lemma_lex_irreflexive(left.name@);
    }
    less(left.key.as_str(), right.key.as_str())
}

proof fn lemma_set<V>(entries: Seq<(String, V)>, key: String, value: V)
    requires
        assoc::ascending(entries),
    ensures
        assoc::ascending(assoc::with_entry(entries, key, value)),
        forall|other: Seq<char>| #[trigger]
            assoc::lookup(assoc::with_entry(entries, key, value), other) == if other == key@ {
                Some(value)
            } else {
                assoc::lookup(entries, other)
            },
{
    assoc::lemma_with_entry_ascending(entries, key, value);
    assert forall|other: Seq<char>| #[trigger]
        assoc::lookup(assoc::with_entry(entries, key, value), other) == if other == key@ {
            Some(value)
        } else {
            assoc::lookup(entries, other)
        } by {
        assoc::lemma_with_entry_found(entries, key, value, other);
    }
}

proof fn lemma_unset<V>(entries: Seq<(String, V)>, key: Seq<char>)
    requires
        assoc::ascending(entries),
    ensures
        assoc::ascending(assoc::without_entry(entries, key)),
        forall|other: Seq<char>| #[trigger]
            assoc::lookup(assoc::without_entry(entries, key), other) == if other == key {
                None
            } else {
                assoc::lookup(entries, other)
            },
{
    assoc::lemma_without_entry_ascending(entries, key);
    assert forall|other: Seq<char>| #[trigger]
        assoc::lookup(assoc::without_entry(entries, key), other) == if other == key {
            None
        } else {
            assoc::lookup(entries, other)
        } by {
        assoc::lemma_without_entry_found(entries, key, other);
    }
}

proof fn lemma_not_before(a: PersonaView, b: PersonaView, c: PersonaView)
    requires
        !comes_before(b, a),
        !comes_before(c, b),
    ensures
        !comes_before(c, a),
{
    lemma_lex_total(a.name, b.name);
    lemma_lex_total(b.name, c.name);
    lemma_lex_total(a.key, b.key);
    lemma_lex_total(b.key, c.key);
    lemma_lex_irreflexive(a.name);
    lemma_lex_irreflexive(a.key);
    if lex_less(a.name, b.name) {
        lemma_lex_asymmetric(a.name, b.name);
        if lex_less(b.name, c.name) {
            lemma_lex_transitive(a.name, b.name, c.name);
            lemma_lex_asymmetric(a.name, c.name);
        }
    }
    if lex_less(b.name, c.name) {
        lemma_lex_asymmetric(b.name, c.name);
    }
    if lex_less(a.key, b.key) {
        lemma_lex_asymmetric(a.key, b.key);
        if lex_less(b.key, c.key) {
            lemma_lex_transitive(a.key, b.key, c.key);
            lemma_lex_asymmetric(a.key, c.key);
        }
    }
    if lex_less(b.key, c.key) {
        lemma_lex_asymmetric(b.key, c.key);
    }
}

/// No persona stands behind one that it comes before.
spec fn are_in_order(personas: Seq<PersonaView>) -> bool {
    forall|i: int, j: int|
        0 <= i < j < personas.len() ==> !comes_before(
            #[trigger] personas[j],
            #[trigger] personas[i],
        )
}

proof fn lemma_slot_in_order(personas: Seq<PersonaView>, persona: PersonaView)
    requires
        are_in_order(personas),
    ensures
        0 <= persona_slot(personas, persona) <= personas.len(),
        forall|i: int|
            0 <= i < persona_slot(personas, persona) ==> !comes_before(
                persona,
                #[trigger] personas[i],
            ),
        forall|i: int|
            persona_slot(personas, persona) <= i < personas.len() ==> !comes_before(
                #[trigger] personas[i],
                persona,
            ),
    decreases personas.len(),
{
    if personas.len() > 0 {
        let last = personas.last();
        if comes_before(persona, last) {
            let head = personas.drop_last();
            lemma_slot_in_order(head, persona);
            if lex_less(persona.name, last.name) {
                lemma_lex_asymmetric(persona.name, last.name);
            }
            if lex_less(persona.key, last.key) {
                lemma_lex_asymmetric(persona.key, last.key);
            }
            lemma_lex_irreflexive(persona.name);
            assert forall|i: int|
                persona_slot(personas, persona) <= i < personas.len() implies !comes_before(
                #[trigger] personas[i],
                persona,
            ) by {
                if i < head.len() {
                    assert(head[i] == personas[i]);
                }
            }
            assert forall|i: int| 0 <= i < persona_slot(personas, persona) implies !comes_before(
                persona,
                #[trigger] personas[i],
            ) by {
                assert(head[i] == personas[i]);
            }
        } else {
            assert forall|i: int| 0 <= i < personas.len() implies !comes_before(
                persona,
                #[trigger] personas[i],
            ) by {
                if i < personas.len() - 1 {
                    lemma_not_before(personas[i], last, persona);
                }
            }
        }
    }
}

proof fn lemma_listed(store: PersonaStore, count: int)
    requires
        0 <= count <= store.personas@.len(),
    ensures
        are_in_order(listed_upto(store, count)),
        listed_upto(store, count).len() == count,
        forall|k: int|
            0 <= k < count ==> listed_upto(store, count).contains(
                persona_of(
                    (#[trigger] store.personas@[k]).0@,
                    store.personas@[k].1@,
                    store.persona_descriptions@,
                ),
            ),
    decreases count,
{
    if count > 0 {
        lemma_listed(store, count - 1);
        let head = listed_upto(store, count - 1);
        let persona = persona_of(
            store.personas@[count - 1].0@,
            store.personas@[count - 1].1@,
            store.persona_descriptions@,
        );
        lemma_slot_in_order(head, persona);
        let at = persona_slot(head, persona);
        let all = head.insert(at, persona);
        assert forall|i: int, j: int| 0 <= i < j < all.len() implies !comes_before(
            #[trigger] all[j],
            #[trigger] all[i],
        ) by {
            if i != at && j != at {
                let a = if i < at {
                    i
                } else {
                    i - 1
                };
                let b = if j < at {
                    j
                } else {
                    j - 1
                };
                assert(all[i] == head[a] && all[j] == head[b]);
            } else if i == at {
                assert(all[j] == head[j - 1]);
            } else {
                assert(all[i] == head[i]);
            }
        }
        assert forall|k: int| 0 <= k < count implies all.contains(
            persona_of(
                (#[trigger] store.personas@[k]).0@,
                store.personas@[k].1@,
                store.persona_descriptions@,
            ),
        ) by {
            let one = persona_of(
                store.personas@[k].0@,
                store.personas@[k].1@,
                store.persona_descriptions@,
            );
            if k == count - 1 {
                assert(all[at] == one);
            } else {
                let m = choose|m: int| 0 <= m < head.len() && head[m] == one;
                assert(all[if m < at {
                    m
                } else {
                    m + 1
                }] == one);
            }
        }
    }
}

/// Personas are shown by their position, those of one position by their name, and
/// those of one name by their key.
pub proof fn law_personas_are_shown_in_order(store: PersonaStore, i: int, j: int)
    requires
        0 <= i < j < store.personas@.len(),
    ensures
        ({
            let shown = listed_upto(store, store.personas@.len() as int);
            &&& shown.len() == store.personas@.len()
            &&& shown[i].position <= shown[j].position
            &&& shown[i].position == shown[j].position ==> shown[i].name == shown[j].name
                || lex_less(shown[i].name, shown[j].name)
            &&& shown[i].position == shown[j].position && shown[i].name == shown[j].name
                ==> shown[i].key == shown[j].key || lex_less(shown[i].key, shown[j].key)
        }),
{
    let shown = listed_upto(store, store.personas@.len() as int);
    lemma_listed(store, store.personas@.len() as int);
    assert(!comes_before(shown[j], shown[i]));
    lemma_lex_total(shown[i].name, shown[j].name);
    lemma_lex_total(shown[i].key, shown[j].key);
}

/// A persona is shown with its name and with what is known of it.
pub open spec fn is_shown_as(store: PersonaStore, k: int, shown: PersonaView) -> bool {
    &&& shown.key == store.personas@[k].0@
    &&& shown.name == store.personas@[k].1@
    &&& match store.description(store.personas@[k].0@) {
        Some(known) => shown.description == known.description && shown.position == known.position,
        None => shown.description.len() == 0 && shown.position == 0,
    }
}

/// Every persona is shown, with its name and with what is known of it, or as nothing
/// more where nothing is known.
pub proof fn law_every_persona_is_shown(store: PersonaStore, k: int)
    requires
        0 <= k < store.personas@.len(),
        store.wf(),
    ensures
        exists|i: int|
            0 <= i < store.personas@.len() && is_shown_as(
                store,
                k,
                #[trigger] listed_upto(store, store.personas@.len() as int)[i],
            ),
{
    let shown = listed_upto(store, store.personas@.len() as int);
    lemma_listed(store, store.personas@.len() as int);
    let one = persona_of(
        store.personas@[k].0@,
        store.personas@[k].1@,
        store.persona_descriptions@,
    );
    assert(shown.contains(one));
    let i = choose|i: int| 0 <= i < shown.len() && shown[i] == one;
    assert(is_shown_as(store, k, shown[i]));
}

} // verus!
