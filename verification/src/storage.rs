//! The templates that are kept, in the order in which they were added.

use vstd::prelude::*;
use vstd::string::StringExecFns;
use crate::template::Template;

verus! {

/// No template with the wanted name is kept.
#[derive(Clone, Copy, Debug, PartialEq, Eq, Structural)]
pub struct NotFoundError;

impl NotFoundError {
    /// What is wrong, in words.
    pub fn message(&self) -> (text: String)
        ensures
            text@ == "not found"@,
    {
        String::from_str("not found")
    }
}

/// The templates that are kept, in the order in which they were added.
pub struct Storage {
    templates: Vec<Template>,
}

/// The index of the first template from `i` on that has the name `name`.
pub open spec fn named_from(ts: Seq<Template>, name: Seq<char>, i: int) -> Option<int>
    decreases ts.len() - i,
{
    if i < 0 || i >= ts.len() {
        None
    } else if ts[i].name@ == name {
        Some(i)
    } else {
        named_from(ts, name, i + 1)
    }
}

/// The index of the first template that has the name `name`.
pub open spec fn named(ts: Seq<Template>, name: Seq<char>) -> Option<int> {
    named_from(ts, name, 0)
}

/// The index of the first template from `i` on that is marked as the default.
pub open spec fn default_from(ts: Seq<Template>, i: int) -> Option<int>
    decreases ts.len() - i,
{
    if i < 0 || i >= ts.len() {
        None
    } else if ts[i].default {
        Some(i)
    } else {
        default_from(ts, i + 1)
    }
}

/// `t` marked as the default.
pub open spec fn as_default(t: Template) -> Template {
    Template { default: true, ..t }
}

/// `ts` without the template at `i`. Where that template was the default,
/// the first of those that are left becomes the default.
pub open spec fn without(ts: Seq<Template>, i: int) -> Seq<Template> {
    let rest = ts.remove(i);
    if ts[i].default && rest.len() > 0 {
        rest.update(0, as_default(rest[0]))
    } else {
        rest
    }
}

/// What `named_from` finds is the first template from `i` on with that name;
/// it finds none only if there is none.
pub proof fn lemma_named_from(ts: Seq<Template>, name: Seq<char>, i: int)
    requires
        0 <= i,
    ensures
        match named_from(ts, name, i) {
            Some(at) => i <= at < ts.len() && ts[at].name@ == name && forall|k: int|
                i <= k < at ==> (#[trigger] ts[k]).name@ != name,
            None => forall|k: int| i <= k < ts.len() ==> (#[trigger] ts[k]).name@ != name,
        },
    decreases ts.len() - i,
{
    if i < ts.len() && ts[i].name@ != name {
        lemma_named_from(ts, name, i + 1);
    }
}

/// What `default_from` finds is the first template from `i` on that is
/// marked as the default; it finds none only if there is none.
pub proof fn lemma_default_from(ts: Seq<Template>, i: int)
    requires
        0 <= i,
    ensures
        match default_from(ts, i) {
            Some(at) => i <= at < ts.len() && ts[at].default && forall|k: int|
                i <= k < at ==> !(#[trigger] ts[k]).default,
            None => forall|k: int| i <= k < ts.len() ==> !(#[trigger] ts[k]).default,
        },
    decreases ts.len() - i,
{
    if i < ts.len() && !ts[i].default {
        lemma_default_from(ts, i + 1);
    }
}

impl View for Storage {
    type V = Seq<Template>;

    closed spec fn view(&self) -> Seq<Template> {
        self.templates@
    }
}

impl Storage {
    /// A storage that keeps `templates`.
    pub fn from_templates(templates: Vec<Template>) -> (store: Storage)
        ensures
            store@ == templates@,
    {
        Storage { templates }
    }

    /// The index of the first template named `name`.
    fn position(&self, name: &str) -> (at: Option<usize>)
        ensures
            match at {
                Some(i) => named(self@, name@) == Some(i as int) && i < self@.len(),
                None => named(self@, name@) is None,
            },
    {
        let wanted = String::from_str(name);
        let mut i: usize = 0;
        while i < self.templates.len()
            invariant
                i <= self.templates.len(),
                wanted@ == name@,
                named(self@, name@) == named_from(self@, name@, i as int),
            decreases self.templates.len() - i,
        {
            if self.templates[i].name == wanted {
                return Some(i);
            }
            i += 1;
        }
        None
    }

    /// Keeps `template` behind the templates that are already kept.
    pub fn add(&mut self, template: Template)
        ensures
            final(self)@ == old(self)@.push(template),
    {
        self.templates.push(template);
    }

    /// The first template named `name`.
    pub fn get(&self, name: &str) -> (found: Option<&Template>)
        ensures
            match named(self@, name@) {
                Some(i) => found == Some(&self@[i]),
                None => found is None,
            },
    {
        match self.position(name) {
            Some(i) => Some(&self.templates[i]),
            None => None,
        }
    }

    /// The first template named `name`, to be changed in place.
    pub fn get_mut(&mut self, name: &str) -> (found: Option<&mut Template>)
        ensures
            match named(old(self)@, name@) {
                Some(i) => found matches Some(t) && *t == old(self)@[i] && final(self)@ == old(
                    self,
                )@.update(i, *final(t)),
                None => found is None && final(self)@ == old(self)@,
            },
    {
        match self.position(name) {
            Some(i) => Some(&mut self.templates[i]),
            None => None,
        }
    }

    /// The first template that is marked as the default.
    pub fn get_default(&self) -> (found: Option<&Template>)
        ensures
            match default_from(self@, 0) {
                Some(i) => found == Some(&self@[i]),
                None => found is None,
            },
    {
        let mut i: usize = 0;
        while i < self.templates.len()
            invariant
                i <= self.templates.len(),
                default_from(self@, 0) == default_from(self@, i as int),
            decreases self.templates.len() - i,
        {
            if self.templates[i].default {
                return Some(&self.templates[i]);
            }
            i += 1;
        }
        None
    }

    /// All templates, in the order in which they were added.
    pub fn list(&self) -> (all: &Vec<Template>)
        ensures
            all@ == self@,
    {
        &self.templates
    }

    /// Removes the first template named `name`. Where it was the default, the
    /// first of the templates that are left becomes the default.
    pub fn delete(&mut self, name: &str) -> (r: Result<(), NotFoundError>)
        ensures
            match named(old(self)@, name@) {
                Some(i) => r is Ok && final(self)@ == without(old(self)@, i),
                None => r is Err && final(self)@ == old(self)@,
            },
    {
        match self.position(name) {
            Some(i) => {
                let deleted = self.templates.remove(i);
                if deleted.default && self.templates.len() > 0 {
                    self.templates[0].default = true;
                }
                Ok(())
            },
            None => Err(NotFoundError),
        }
    }

    /// Removes every template.
    pub fn delete_all(&mut self)
        ensures
            final(self)@ == Seq::<Template>::empty(),
    {
        self.templates = Vec::new();
    }
}

} // verus!
