//! The client configuration: named contexts (endpoint and credentials) and
//! which of them is current.

use vstd::prelude::*;
use crate::text::{owned, str_eq};

verus! {

/// An absolute URL (`url::Url`), carried through as is.
#[verifier::external_type_specification]
#[verifier::external_body]
pub struct ExUrl(url::Url);

/// One named context: where to reach the platform and how to authenticate.
pub struct ContextConfig {
    pub name: String,
    pub endpoint: url::Url,
    pub token: Option<String>,
    pub accept_invalid_certificates: bool,
    pub proxy: Option<url::Url>,
}

/// The whole configuration file.
pub struct ReinferConfig {
    current_context: Option<String>,
    contexts: Vec<ContextConfig>,
    pub context_is_required: bool,
}

/// The index of the first context named `name`, if any.
pub open spec fn position_of(contexts: Seq<ContextConfig>, name: Seq<char>) -> Option<int>
    decreases contexts.len(),
{
    if contexts.len() == 0 {
        None
    } else {
        match position_of(contexts.drop_last(), name) {
            Some(i) => Some(i),
            None => if contexts.last().name@ == name {
                Some(contexts.len() - 1)
            } else {
                None
            },
        }
    }
}

/// No two contexts share a name.
pub open spec fn names_unique(contexts: Seq<ContextConfig>) -> bool {
    forall|i: int, j: int| 0 <= i < j < contexts.len() ==> contexts[i].name@ != contexts[j].name@
}

proof fn lemma_position_of(contexts: Seq<ContextConfig>, name: Seq<char>)
    ensures
        position_of(contexts, name) matches Some(i) ==> 0 <= i < contexts.len()
            && contexts[i].name@ == name && forall|k: int| 0 <= k < i ==> contexts[k].name@ != name,
        position_of(contexts, name) is None ==> forall|k: int|
            0 <= k < contexts.len() ==> contexts[k].name@ != name,
    decreases contexts.len(),
{
    if contexts.len() > 0 {
        let init = contexts.drop_last();
        lemma_position_of(init, name);
        assert forall|k: int| 0 <= k < init.len() implies init[k] == contexts[k] by {}
    }
}

proof fn lemma_position_is_first(contexts: Seq<ContextConfig>, name: Seq<char>, i: int)
    requires
        0 <= i < contexts.len(),
        contexts[i].name@ == name,
        forall|k: int| 0 <= k < i ==> contexts[k].name@ != name,
    ensures
        position_of(contexts, name) == Some(i),
{
    lemma_position_of(contexts, name);
    if let Some(j) = position_of(contexts, name) {
        if j < i {
        } else if j > i {
        }
    }
}

proof fn lemma_position_absent(contexts: Seq<ContextConfig>, name: Seq<char>)
    requires
        forall|k: int| 0 <= k < contexts.len() ==> contexts[k].name@ != name,
    ensures
        position_of(contexts, name) is None,
{
    lemma_position_of(contexts, name);
}

/// Replacing or appending a context leaves the lookup of every other name
/// as it was, and makes the new context the one found under its name.
proof fn lemma_lookup_after_set(before: Seq<ContextConfig>, c: ContextConfig, other: Seq<char>)
    ensures
        ({
            let after = match position_of(before, c.name@) {
                Some(i) => before.update(i, c),
                None => before.push(c),
            };
            &&& position_of(after, c.name@) matches Some(j) && after[j] == c
            &&& other != c.name@ ==> position_of(after, other) == position_of(before, other)
            &&& other != c.name@ ==> (position_of(before, other) matches Some(j) ==> after[j]
                == before[j])
        }),
{
    lemma_position_of(before, c.name@);
    lemma_position_of(before, other);
    match position_of(before, c.name@) {
        Some(i) => {
            let after = before.update(i, c);
            lemma_position_is_first(after, c.name@, i);
            if other != c.name@ {
                match position_of(before, other) {
                    Some(j) => {
                        lemma_position_is_first(after, other, j);
                    },
                    None => {
                        lemma_position_absent(after, other);
                    },
                }
            }
        },
        None => {
            let after = before.push(c);
            lemma_position_is_first(after, c.name@, before.len() as int);
            if other != c.name@ {
                match position_of(before, other) {
                    Some(j) => {
                        lemma_position_is_first(after, other, j);
                    },
                    None => {
                        lemma_position_absent(after, other);
                    },
                }
            }
        },
    }
}

/// Removing the context at the first position of `name` leaves the lookup
/// of every other name finding the same context; with unique names,
/// `name` is then not found at all.
proof fn lemma_lookup_after_delete(before: Seq<ContextConfig>, name: Seq<char>, other: Seq<char>)
    requires
        position_of(before, name) is Some,
    ensures
        ({
            let i = position_of(before, name)->Some_0;
            let after = before.remove(i);
            &&& other != name ==> match position_of(before, other) {
                Some(j) => position_of(after, other) matches Some(k) && after[k] == before[j],
                None => position_of(after, other) is None,
            }
            &&& names_unique(before) ==> position_of(after, name) is None
            &&& names_unique(before) ==> names_unique(after)
        }),
{
    lemma_position_of(before, name);
    lemma_position_of(before, other);
    let i = position_of(before, name)->Some_0;
    let after = before.remove(i);
    assert forall|k: int| 0 <= k < after.len() implies after[k] == (if k < i {
        before[k]
    } else {
        before[k + 1]
    }) by {}
    if other != name {
        match position_of(before, other) {
            Some(j) => {
                if j < i {
                    lemma_position_is_first(after, other, j);
                } else {
                    lemma_position_is_first(after, other, j - 1);
                }
            },
            None => {
                lemma_position_absent(after, other);
            },
        }
    }
    if names_unique(before) {
        assert forall|k: int| 0 <= k < after.len() implies after[k].name@ != name by {
            if k < i {
                assert(before[k].name@ != before[i].name@);
            } else {
                assert(before[i].name@ != before[k + 1].name@);
            }
        }
        lemma_position_absent(after, name);
        assert forall|a: int, b: int| 0 <= a < b < after.len() implies after[a].name@
            != after[b].name@ by {
            let a0 = if a < i { a } else { a + 1 };
            let b0 = if b < i { b } else { b + 1 };
            assert(before[a0].name@ != before[b0].name@);
        }
    }
}

impl ReinferConfig {
    /// The contexts, in the order they were added.
    pub closed spec fn contexts(&self) -> Seq<ContextConfig> {
        self.contexts@
    }

    /// The name of the current context, if one was chosen.
    pub closed spec fn current(&self) -> Option<Seq<char>> {
        match self.current_context {
            Some(name) => Some(name@),
            None => None,
        }
    }

    /// Whether commands must be given a context explicitly.
    pub closed spec fn context_required(&self) -> bool {
        self.context_is_required
    }

    /// The context that `get_context(name)` finds.
    pub open spec fn context_named(&self, name: Seq<char>) -> Option<ContextConfig> {
        match position_of(self.contexts(), name) {
            Some(i) => Some(self.contexts()[i]),
            None => None,
        }
    }

    /// A configuration exactly as a file holds it: its contexts in order,
    /// the name of its current context (which need not be among them) and
    /// whether a context is required.
    pub fn from_parts(
        current_context: Option<String>,
        contexts: Vec<ContextConfig>,
        context_is_required: bool,
    ) -> (config: ReinferConfig)
        ensures
            config.contexts() == contexts@,
            config.current() == match current_context {
                Some(name) => Some(name@),
                None => None::<Seq<char>>,
            },
            config.context_required() == context_is_required,
    {
        ReinferConfig { current_context, contexts, context_is_required }
    }

    /// The name of the current context as recorded, whether or not a
    /// context of that name exists.
    pub fn current_context_name(&self) -> (name: Option<&String>)
        ensures
            match name {
                Some(n) => self.current() == Some(n@),
                None => self.current() is None,
            },
    {
        match &self.current_context {
            Some(name) => Some(name),
            None => None,
        }
    }

    /// A configuration with no context.
    pub fn new() -> (config: ReinferConfig)
        ensures
            config.contexts() == Seq::<ContextConfig>::empty(),
            config.current() is None,
            !config.context_required(),
    {
        ReinferConfig { current_context: None, contexts: Vec::new(), context_is_required: false }
    }

    /// All contexts.
    pub fn get_all_contexts(&self) -> (contexts: &Vec<ContextConfig>)
        ensures
            contexts@ == self.contexts(),
    {
        &self.contexts
    }

    /// The first context named `name`.
    pub fn get_context(&self, name: &str) -> (context: Option<&ContextConfig>)
        ensures
            context matches Some(c) ==> self.context_named(name@) == Some(*c),
            context is None ==> self.context_named(name@) is None,
    {
        match self.context_position(name) {
            Some(index) => Some(&self.contexts[index]),
            None => None,
        }
    }

    /// Adds `context`, or replaces the context of the same name. Returns
    /// whether one was replaced.
    pub fn set_context(&mut self, context: ContextConfig) -> (replaced: bool)
        ensures
            replaced == (position_of(old(self).contexts(), context.name@) is Some),
            replaced ==> final(self).contexts() == old(self).contexts().update(
                position_of(old(self).contexts(), context.name@)->Some_0,
                context,
            ),
            !replaced ==> final(self).contexts() == old(self).contexts().push(context),
            final(self).context_named(context.name@) == Some(context),
            forall|other: Seq<char>|
                other != context.name@ ==> #[trigger] final(self).context_named(other) == old(
                    self,
                ).context_named(other),
            names_unique(old(self).contexts()) ==> names_unique(final(self).contexts()),
            final(self).current() == old(self).current(),
            final(self).context_required() == old(self).context_required(),
    {
        let ghost before = self.contexts@;
        let ghost added = context;
        let replaced = match self.context_position(context.name.as_str()) {
            Some(index) => {
                self.contexts.set(index, context);
                true
            },
            None => {
                self.contexts.push(context);
                false
            },
        };
        proof {
            lemma_lookup_after_set(before, added, added.name@);
            assert forall|other: Seq<char>| other != added.name@ implies #[trigger] self.context_named(
                other,
            ) == old(self).context_named(other) by {
                lemma_lookup_after_set(before, added, other);
            }
            if names_unique(before) {
                lemma_position_of(before, added.name@);
                let after = self.contexts@;
                assert forall|a: int, b: int| 0 <= a < b < after.len() implies after[a].name@
                    != after[b].name@ by {
                    if !replaced && b == before.len() {
                        assert(after[a] == before[a]);
                    }
                }
            }
        }
        replaced
    }

    /// Adds `context`, or updates the context of the same name, as
    /// `re config add` does: when it leaves a single context, that context
    /// becomes the current one. Returns whether one was replaced.
    pub fn add_context(&mut self, context: ContextConfig) -> (replaced: bool)
        ensures
            replaced == (position_of(old(self).contexts(), context.name@) is Some),
            replaced ==> final(self).contexts() == old(self).contexts().update(
                position_of(old(self).contexts(), context.name@)->Some_0,
                context,
            ),
            !replaced ==> final(self).contexts() == old(self).contexts().push(context),
            final(self).context_named(context.name@) == Some(context),
            final(self).contexts().len() == 1 ==> final(self).current() == Some(context.name@),
            final(self).contexts().len() != 1 ==> final(self).current() == old(self).current(),
            final(self).context_required() == old(self).context_required(),
    {
        let name = context.name.clone();
        let ghost added = context;
        let replaced = self.set_context(context);
        if self.num_contexts() == 1 {
            let found = self.set_current_context(name.as_str());
            assert(found);
        }
        replaced
    }

    /// Removes the first context named `name`; if it was the current one,
    /// no context is current any more. Returns whether one was removed.
    pub fn delete_context(&mut self, name: &str) -> (deleted: bool)
        ensures
            deleted == (position_of(old(self).contexts(), name@) is Some),
            deleted ==> final(self).contexts() == old(self).contexts().remove(
                position_of(old(self).contexts(), name@)->Some_0,
            ),
            !deleted ==> final(self).contexts() == old(self).contexts(),
            names_unique(old(self).contexts()) ==> final(self).context_named(name@) is None,
            names_unique(old(self).contexts()) ==> names_unique(final(self).contexts()),
            forall|other: Seq<char>|
                other != name@ ==> #[trigger] final(self).context_named(other) == old(
                    self,
                ).context_named(other),
            deleted && old(self).current() == Some(name@) ==> final(self).current() is None,
            !(deleted && old(self).current() == Some(name@)) ==> final(self).current() == old(
                self,
            ).current(),
            final(self).context_required() == old(self).context_required(),
    {
        let ghost before = self.contexts@;
        let deleted = match self.context_position(name) {
            Some(index) => {
                self.contexts.remove(index);
                let is_current = match &self.current_context {
                    Some(current) => str_eq(current.as_str(), name),
                    None => false,
                };
                if is_current {
                    self.current_context = None;
                }
                true
            },
            None => false,
        };
        proof {
            lemma_position_of(before, name@);
            if deleted {
                lemma_lookup_after_delete(before, name@, name@);
            }
            assert forall|other: Seq<char>| other != name@ implies #[trigger] self.context_named(
                other,
            ) == old(self).context_named(other) by {
                if deleted {
                    lemma_lookup_after_delete(before, name@, other);
                }
            }
        }
        deleted
    }

    /// The current context, if one is chosen and exists.
    pub fn get_current_context(&self) -> (context: Option<&ContextConfig>)
        ensures
            context matches Some(c) ==> self.current() matches Some(name) && self.context_named(
                name,
            ) == Some(*c),
            context is None ==> (self.current() matches Some(name) ==> self.context_named(
                name,
            ) is None),
    {
        match &self.current_context {
            Some(current) => self.get_context(current.as_str()),
            None => None,
        }
    }

    /// Makes the context named `name` current, if it exists. Returns whether
    /// it did.
    pub fn set_current_context(&mut self, name: &str) -> (found: bool)
        ensures
            found == (old(self).context_named(name@) is Some),
            found == (position_of(old(self).contexts(), name@) is Some),
            found ==> final(self).current() == Some(name@),
            found ==> final(self).context_named(name@) is Some,
            !found ==> final(self).current() == old(self).current(),
            final(self).contexts() == old(self).contexts(),
            final(self).context_required() == old(self).context_required(),
    {
        if self.get_context(name).is_some() {
            self.current_context = Some(owned(name));
            true
        } else {
            false
        }
    }

    /// Whether commands must be given a context explicitly.
    pub fn is_context_required(&self) -> (required: bool)
        ensures
            required == self.context_required(),
    {
        self.context_is_required
    }

    /// Number of contexts.
    pub fn num_contexts(&self) -> (n: usize)
        ensures
            n == self.contexts().len(),
    {
        self.contexts.len()
    }

    fn context_position(&self, name: &str) -> (index: Option<usize>)
        ensures
            match index {
                Some(i) => i < self.contexts().len() && position_of(self.contexts(), name@) == Some(
                    i as int,
                ),
                None => position_of(self.contexts(), name@) is None,
            },
    {
        let mut i: usize = 0;
        while i < self.contexts.len()
            invariant
                i <= self.contexts.len(),
                forall|k: int| 0 <= k < i ==> self.contexts@[k].name@ != name@,
            decreases self.contexts.len() - i,
        {
            if str_eq(self.contexts[i].name.as_str(), name) {
                proof {
                    lemma_position_is_first(self.contexts@, name@, i as int);
                }
                return Some(i);
            }
            i = i + 1;
        }
        proof {
            lemma_position_absent(self.contexts@, name@);
        }
        None
    }
}

} // verus!
