//! The function registry: a name-to-resolver table seeded with the built-in
//! transforms and extensible by the caller.

use vstd::prelude::*;

use crate::errors::Error;
use crate::placeholder::Placeholder;
use crate::util::str_eq;
use crate::value::Value;

verus! {

/// Which resolver a registry entry dispatches to.
#[derive(Clone, Copy, Debug, PartialEq, Eq, Structural)]
pub enum FuncKind {
    /// The built-in `string` transform: renders a looked-up value as text.
    StringFn,
    /// The built-in `file` transform: loads and resolves another document.
    FileFn,
    /// The built-in `compose` transform: merges several fragments.
    ComposeFn,
    /// A caller-registered function, dispatched by name.
    Custom,
}

/// Models of the registry entries.
pub open spec fn view_funcs(es: Seq<(String, FuncKind)>) -> Seq<(Seq<char>, FuncKind)>
    decreases es,
{
    if es.len() == 0 {
        Seq::empty()
    } else {
        seq![(es[0].0@, es[0].1)] + view_funcs(es.drop_first())
    }
}

/// The model of a registry is the sequence of the entry models.
pub proof fn lemma_view_funcs(es: Seq<(String, FuncKind)>)
    ensures
        view_funcs(es).len() == es.len(),
        forall|j: int|
            0 <= j < es.len() ==> #[trigger] view_funcs(es)[j] == (es[j].0@, es[j].1),
    decreases es.len(),
{
    if es.len() > 0 {
        lemma_view_funcs(es.drop_first());
        assert(forall|j: int| 1 <= j < es.len() ==> es.drop_first()[j - 1] == #[trigger] es[j]);
    }
}

/// The position of the first entry with the given name.
pub open spec fn funs_idx(fs: Seq<(Seq<char>, FuncKind)>, name: Seq<char>) -> Option<int>
    decreases fs.len(),
{
    if fs.len() == 0 {
        None
    } else if fs[0].0 == name {
        Some(0int)
    } else {
        match funs_idx(fs.drop_first(), name) {
            Some(i) => Some(i + 1),
            None => None,
        }
    }
}

/// What `funs_idx` finds: the first entry with the name, if any.
pub proof fn lemma_funs_idx(fs: Seq<(Seq<char>, FuncKind)>, name: Seq<char>)
    ensures
        match funs_idx(fs, name) {
            Some(i) => 0 <= i < fs.len() && fs[i].0 == name && (forall|j: int|
                0 <= j < i ==> (#[trigger] fs[j]).0 != name),
            None => forall|j: int| 0 <= j < fs.len() ==> (#[trigger] fs[j]).0 != name,
        },
    decreases fs.len(),
{
    if fs.len() > 0 && fs[0].0 != name {
        lemma_funs_idx(fs.drop_first(), name);
        assert(forall|j: int| 1 <= j < fs.len() ==> fs.drop_first()[j - 1] == #[trigger] fs[j]);
    }
}

/// The resolver registered under a name, if any.
pub open spec fn funs_get(fs: Seq<(Seq<char>, FuncKind)>, name: Seq<char>) -> Option<FuncKind> {
    match funs_idx(fs, name) {
        Some(i) => Some(fs[i].1),
        None => None,
    }
}

/// Registration: replaces the first entry with the name, or appends a new
/// entry.
pub open spec fn funs_set(
    fs: Seq<(Seq<char>, FuncKind)>,
    name: Seq<char>,
    kind: FuncKind,
) -> Seq<(Seq<char>, FuncKind)> {
    match funs_idx(fs, name) {
        Some(i) => fs.update(i, (name, kind)),
        None => fs.push((name, kind)),
    }
}

/// The name of the built-in `string` transform.
pub open spec fn string_name() -> Seq<char> {
    seq!['s', 't', 'r', 'i', 'n', 'g']
}

/// The name of the built-in `file` transform.
pub open spec fn file_name() -> Seq<char> {
    seq!['f', 'i', 'l', 'e']
}

/// The name of the built-in `compose` transform.
pub open spec fn compose_name() -> Seq<char> {
    seq!['c', 'o', 'm', 'p', 'o', 's', 'e']
}

/// The registry a fresh context starts from: the three built-ins.
pub open spec fn builtin_funcs() -> Seq<(Seq<char>, FuncKind)> {
    seq![
        (string_name(), FuncKind::StringFn),
        (file_name(), FuncKind::FileFn),
        (compose_name(), FuncKind::ComposeFn),
    ]
}

/// Functions registry.
#[derive(Debug)]
pub struct Functions {
    /// The registered entries, in registration order, names unique.
    pub entries: Vec<(String, FuncKind)>,
}

impl View for Functions {
    type V = Seq<(Seq<char>, FuncKind)>;

    open spec fn view(&self) -> Seq<(Seq<char>, FuncKind)> {
        view_funcs(self.entries@)
    }
}

impl Default for Functions {
    /// The registry seeded with the built-in transforms.
    fn default() -> (r: Self)
        ensures
            r@ == builtin_funcs(),
    {
        let mut entries: Vec<(String, FuncKind)> = Vec::new();
        entries.push(("string".to_owned(), FuncKind::StringFn));
        entries.push(("file".to_owned(), FuncKind::FileFn));
        entries.push(("compose".to_owned(), FuncKind::ComposeFn));
        let r = Functions { entries };
        proof {
            reveal_strlit("string");
            reveal_strlit("file");
            reveal_strlit("compose");
            lemma_view_funcs(r.entries@);
            assert("string"@ =~= string_name());
            assert("file"@ =~= file_name());
            assert("compose"@ =~= compose_name());
            assert(r@ =~= builtin_funcs());
        }
        r
    }
}

impl Functions {
    /// Makes a copy of the registry.
    pub fn duplicate(&self) -> (r: Self)
        ensures
            r@ == self@,
    {
        proof {
            lemma_view_funcs(self.entries@);
        }
        let n = self.entries.len();
        let mut entries: Vec<(String, FuncKind)> = Vec::new();
        let mut i: usize = 0;
        while i < n
            invariant
                n == self.entries@.len(),
                i <= n,
                entries@.len() == i as int,
                forall|j: int|
                    0 <= j < i ==> (#[trigger] entries@[j]).0@ == self.entries@[j].0@
                        && entries@[j].1 == self.entries@[j].1,
            decreases n - i,
        {
            let k = self.entries[i].0.clone();
            let v = self.entries[i].1;
            entries.push((k, v));
            i = i + 1;
        }
        let r = Functions { entries };
        proof {
            lemma_view_funcs(r.entries@);
            assert(r@ =~= self@);
        }
        r
    }

    /// Registers a resolver under a name; a later registration overwrites an
    /// earlier one.
    pub fn register(&mut self, name: &str, kind: FuncKind)
        ensures
            final(self)@ == funs_set(old(self)@, name@, kind),
    {
        proof {
            lemma_view_funcs(self.entries@);
            lemma_funs_idx(self@, name@);
        }
        let n = self.entries.len();
        let mut i: usize = 0;
        while i < n
            invariant
                *self == *old(self),
                n == self.entries@.len(),
                i <= n,
                self@.len() == n,
                forall|j: int|
                    0 <= j < n ==> #[trigger] self@[j] == (self.entries@[j].0@, self.entries@[j].1),
                forall|j: int| 0 <= j < i ==> (#[trigger] self.entries@[j]).0@ != name@,
                match funs_idx(self@, name@) {
                    Some(m) => 0 <= m < n && self@[m].0 == name@ && (forall|j: int|
                        0 <= j < m ==> (#[trigger] self@[j]).0 != name@),
                    None => forall|j: int| 0 <= j < n ==> (#[trigger] self@[j]).0 != name@,
                },
            decreases n - i,
        {
            if str_eq(self.entries[i].0.as_str(), name) {
                proof {
                    assert(self@[i as int].0 == self.entries@[i as int].0@);
                    match funs_idx(self@, name@) {
                        Some(m) => {
                            if m < i {
                                assert(self.entries@[m].0@ != name@);
                                assert(self@[m].0 == self.entries@[m].0@);
                                assert(false);
                            }
                            if m > i {
                                assert(self@[i as int].0 != name@);
                                assert(false);
                            }
                        },
                        None => {
                            assert(self@[i as int].0 != name@);
                            assert(false);
                        },
                    }
                }
                let ghost pre = self@;
                self.entries[i] = (name.to_owned(), kind);
                proof {
                    lemma_view_funcs(self.entries@);
                    assert(self@ =~= pre.update(i as int, (name@, kind)));
                }
                return ;
            }
            i = i + 1;
        }
        proof {
            match funs_idx(self@, name@) {
                Some(m) => {
                    assert(self.entries@[m].0@ != name@);
                    assert(self@[m].0 == self.entries@[m].0@);
                    assert(false);
                },
                None => {},
            }
        }
        let ghost pre = self@;
        self.entries.push((name.to_owned(), kind));
        proof {
            lemma_view_funcs(self.entries@);
            assert(self@ =~= pre.push((name@, kind)));
        }
    }

    /// Get a function.
    pub fn get(&self, name: &str) -> (r: Option<FuncKind>)
        ensures
            r == funs_get(self@, name@),
    {
        proof {
            lemma_view_funcs(self.entries@);
            lemma_funs_idx(self@, name@);
        }
        let n = self.entries.len();
        let mut i: usize = 0;
        while i < n
            invariant
                n == self.entries@.len(),
                i <= n,
                self@.len() == n,
                forall|j: int|
                    0 <= j < n ==> #[trigger] self@[j] == (self.entries@[j].0@, self.entries@[j].1),
                forall|j: int| 0 <= j < i ==> (#[trigger] self.entries@[j]).0@ != name@,
                match funs_idx(self@, name@) {
                    Some(m) => 0 <= m < n && self@[m].0 == name@ && (forall|j: int|
                        0 <= j < m ==> (#[trigger] self@[j]).0 != name@),
                    None => forall|j: int| 0 <= j < n ==> (#[trigger] self@[j]).0 != name@,
                },
            decreases n - i,
        {
            if str_eq(self.entries[i].0.as_str(), name) {
                proof {
                    assert(self@[i as int].0 == self.entries@[i as int].0@);
                    match funs_idx(self@, name@) {
                        Some(m) => {
                            if m < i {
                                assert(self.entries@[m].0@ != name@);
                                assert(self@[m].0 == self.entries@[m].0@);
                                assert(false);
                            }
                            if m > i {
                                assert(self@[i as int].0 != name@);
                                assert(false);
                            }
                        },
                        None => {
                            assert(self@[i as int].0 != name@);
                            assert(false);
                        },
                    }
                }
                return Some(self.entries[i].1);
            }
            i = i + 1;
        }
        proof {
            match funs_idx(self@, name@) {
                Some(m) => {
                    assert(self.entries@[m].0@ != name@);
                    assert(self@[m].0 == self.entries@[m].0@);
                    assert(false);
                },
                None => {},
            }
        }
        None
    }
}

/// A caller-supplied resolver for custom placeholder types. The resolver
/// receives the registered name it was dispatched under and the placeholder,
/// and returns the resolved value or an error.
pub trait ResolverFn {
    /// Resolves a placeholder dispatched to a custom-registered name.
    fn call(&self, name: &str, placeholder: &Placeholder) -> Result<Value, Error>;
}

/// The resolver used when no custom functions are registered: it rejects
/// every name.
pub struct NoCustom;

impl ResolverFn for NoCustom {
    fn call(&self, name: &str, _placeholder: &Placeholder) -> Result<Value, Error> {
        Err(Error::FunctionNotFound(name.to_owned()))
    }
}

} // verus!
