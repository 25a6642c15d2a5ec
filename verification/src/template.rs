//! Template rendering at the library's boundary: a registry of prepared
//! template engines keyed by name, and a fallback that renders a raw
//! template text with a one-off engine. The engines and their contexts are
//! opaque; the registry's bookkeeping is what this module verifies.

use vstd::prelude::*;

use crate::strutil::str_eq;

verus! {

#[verifier::external_type_specification]
#[verifier::external_body]
pub struct ExTera(tera::Tera);

#[verifier::external_type_specification]
#[verifier::external_body]
pub struct ExContext(tera::Context);

/// Relies on tera::Tera::render: the engine decides the rendering; an
/// error is reduced to its message.
#[verifier::external_body]
fn tera_render(t: &tera::Tera, tpl: &str, ctx: &tera::Context) -> (r: Result<String, String>) {
    match t.render(tpl, ctx) {
        Ok(s) => Ok(s),
        Err(e) => Err(format!("{}", e)),
    }
}

/// Relies on tera::Tera::default: a fresh engine with no templates.
#[verifier::external_body]
fn tera_default() -> (r: tera::Tera) {
    tera::Tera::default()
}

/// Relies on tera::Tera::add_raw_template: registers the template text
/// under the name; the engine decides whether the text parses.
#[verifier::external_body]
fn tera_add_raw(t: &mut tera::Tera, name: &str, tpl: &str) -> (r: Result<(), String>) {
    match t.add_raw_template(name, tpl) {
        Ok(()) => Ok(()),
        Err(e) => Err(format!("{}", e)),
    }
}

struct TplEntry {
    name: String,
    engine: tera::Tera,
}

/// A registry of prepared template engines, keyed by name. Loading
/// templates from disk happens outside; a prepared engine is handed in.
pub struct TemplateRegistry {
    entries: Vec<TplEntry>,
}

impl TemplateRegistry {
    /// The registry's internal invariant: names are unique.
    pub closed spec fn wf(&self) -> bool {
        forall|i: int, j: int|
            0 <= i < j < self.entries@.len() ==> self.entries@[i].name@ != self.entries@[j].name@
    }

    /// Whether an engine is registered under `name`.
    pub closed spec fn has_engine(&self, name: Seq<char>) -> bool {
        exists|i: int| 0 <= i < self.entries@.len() && self.entries@[i].name@ == name
    }

    /// An empty registry.
    pub fn new() -> (r: Self)
        ensures
            r.wf(),
            forall|n: Seq<char>| !r.has_engine(n),
    {
        Self { entries: Vec::new() }
    }

    fn find(&self, name: &str) -> (r: Option<usize>)
        requires
            self.wf(),
        ensures
            match r {
                Some(i) => i < self.entries@.len() && self.entries@[i as int].name@ == name@,
                None => !self.has_engine(name@),
            },
    {
        let mut i: usize = 0;
        while i < self.entries.len()
            invariant
                i <= self.entries@.len(),
                forall|j: int| 0 <= j < i ==> self.entries@[j].name@ != name@,
            decreases self.entries@.len() - i,
        {
            if str_eq(self.entries[i].name.as_str(), name) {
                return Some(i);
            }
            i += 1;
        }
        None
    }

    /// Register a prepared engine under `name`, replacing any previous one.
    pub fn register(&mut self, name: String, engine: tera::Tera)
        requires
            old(self).wf(),
        ensures
            final(self).wf(),
            forall|n: Seq<char>|
                #[trigger] final(self).has_engine(n) <==> (n == name@ || old(self).has_engine(n)),
    {
        let e = TplEntry { name, engine };
        let ghost nv = e.name@;
        match self.find(e.name.as_str()) {
            Some(i) => {
                let ghost pre = self.entries@;
                self.entries.set(i, e);
                proof {
                    assert forall|n: Seq<char>| #[trigger]
                        self.has_engine(n) implies (n == nv || old(self).has_engine(n)) by {
                        let j = choose|j: int|
                            0 <= j < self.entries@.len() && self.entries@[j].name@ == n;
                        if j != i {
                            assert(pre[j].name@ == n);
                        }
                    }
                    assert forall|n: Seq<char>|
                        (n == nv || old(self).has_engine(n)) implies #[trigger] self.has_engine(
                        n,
                    ) by {
                        if n == nv {
                            assert(self.entries@[i as int].name@ == n);
                        } else {
                            let j = choose|j: int| 0 <= j < pre.len() && pre[j].name@ == n;
                            if j == i {
                                assert(self.entries@[i as int].name@ == n);
                            } else {
                                assert(self.entries@[j].name@ == n);
                            }
                        }
                    }
                }
            },
            None => {
                let ghost pre = self.entries@;
                self.entries.push(e);
                proof {
                    assert forall|n: Seq<char>| #[trigger]
                        self.has_engine(n) implies (n == nv || old(self).has_engine(n)) by {
                        let j = choose|j: int|
                            0 <= j < self.entries@.len() && self.entries@[j].name@ == n;
                        if j < pre.len() {
                            assert(pre[j].name@ == n);
                        }
                    }
                    assert forall|n: Seq<char>|
                        (n == nv || old(self).has_engine(n)) implies #[trigger] self.has_engine(
                        n,
                    ) by {
                        if n == nv {
                            assert(self.entries@[pre.len() as int].name@ == n);
                        } else {
                            let j = choose|j: int| 0 <= j < pre.len() && pre[j].name@ == n;
                            assert(self.entries@[j].name@ == n);
                        }
                    }
                }
            },
        }
    }

    /// Render `tpl` through the engine registered under `name`, or, when
    /// none is, through a one-off engine holding `tpl` as its only raw
    /// template. The template engine decides the output and the errors.
    pub fn render(&self, name: &str, tpl: &str, ctx: &tera::Context) -> (r: Result<String, String>)
        requires
            self.wf(),
    {
        match self.find(name) {
            Some(i) => tera_render(&self.entries[i].engine, tpl, ctx),
            None => {
                let mut t = tera_default();
                match tera_add_raw(&mut t, tpl, tpl) {
                    Ok(()) => tera_render(&t, tpl, ctx),
                    Err(e) => Err(e),
                }
            },
        }
    }
}

} // verus!
