//! The resolution context: the data tree placeholders are looked up in, the
//! base directory for file placeholders, the function registry, and the store
//! of already-loaded file documents.

use vstd::prelude::*;

use crate::funcs::{FuncKind, Functions};
use crate::merge::{add_v, override_v};
use crate::value::Value;

verus! {

/// Deserialization context.
#[derive(Debug)]
pub struct Context {
    /// JSON data.
    pub data: Value,
    /// Directory for file placeholders.
    pub directory: Option<String>,
    /// Functions.
    pub functions: Functions,
    /// Already-loaded file documents, keyed by their joined path. A file
    /// placeholder looks its document up here; when the document is missing,
    /// resolution fails with a file-unavailable error naming the path, and
    /// the caller may load the file, add it, and resolve again.
    pub files: Vec<(String, Value)>,
}

impl Context {
    /// Create a new context: no data, no directory, the built-in functions,
    /// no files.
    pub fn new() -> (r: Self)
        ensures
            r.data@ == crate::value::ValueV::Null,
            r.directory is None,
            r.functions@ == crate::funcs::builtin_funcs(),
            r.files@ == Seq::<(String, Value)>::empty(),
    {
        Context {
            data: Value::Null,
            directory: None,
            functions: Functions::default(),
            files: Vec::new(),
        }
    }

    /// Set data.
    pub fn with_data(self, data: Value) -> (r: Self)
        ensures
            r.data == data,
            r.directory == self.directory,
            r.functions == self.functions,
            r.files == self.files,
    {
        let mut c = self;
        c.set_data(data);
        c
    }

    /// Set data.
    pub fn set_data(&mut self, data: Value)
        ensures
            final(self).data == data,
            final(self).directory == old(self).directory,
            final(self).functions == old(self).functions,
            final(self).files == old(self).files,
    {
        self.data = data;
    }

    /// Override data: incoming values win.
    pub fn override_data(&mut self, new_value: Value)
        ensures
            final(self).data@ == override_v(old(self).data@, new_value@),
            final(self).directory == old(self).directory,
            final(self).functions == old(self).functions,
            final(self).files == old(self).files,
    {
        self.data.override_recursive(new_value);
    }

    /// Override data: incoming values win.
    pub fn with_override(self, new_value: Value) -> (r: Self)
        ensures
            r.data@ == override_v(self.data@, new_value@),
            r.directory == self.directory,
            r.functions == self.functions,
            r.files == self.files,
    {
        let mut c = self;
        c.override_data(new_value);
        c
    }

    /// Add data: existing values win.
    pub fn add_data(&mut self, new_value: Value)
        ensures
            final(self).data@ == add_v(old(self).data@, new_value@),
            final(self).directory == old(self).directory,
            final(self).functions == old(self).functions,
            final(self).files == old(self).files,
    {
        self.data.add_recursive(new_value);
    }

    /// Add data: existing values win.
    pub fn with_additional_data(self, new_value: Value) -> (r: Self)
        ensures
            r.data@ == add_v(self.data@, new_value@),
            r.directory == self.directory,
            r.functions == self.functions,
            r.files == self.files,
    {
        let mut c = self;
        c.add_data(new_value);
        c
    }

    /// Set directory.
    pub fn set_directory(&mut self, directory: Option<String>)
        ensures
            final(self).directory == directory,
            final(self).data == old(self).data,
            final(self).functions == old(self).functions,
            final(self).files == old(self).files,
    {
        self.directory = directory;
    }

    /// Set directory.
    pub fn with_directory(self, directory: Option<String>) -> (r: Self)
        ensures
            r.directory == directory,
            r.data == self.data,
            r.functions == self.functions,
            r.files == self.files,
    {
        let mut c = self;
        c.set_directory(directory);
        c
    }

    /// Registers a custom resolver function name; a placeholder typed with
    /// this name dispatches to the caller-supplied resolver.
    pub fn set_function(&mut self, name: &str)
        ensures
            final(self).functions@ == crate::funcs::funs_set(
                old(self).functions@,
                name@,
                FuncKind::Custom,
            ),
            final(self).data == old(self).data,
            final(self).directory == old(self).directory,
            final(self).files == old(self).files,
    {
        self.functions.register(name, FuncKind::Custom);
    }

    /// Registers a custom resolver function name.
    pub fn with_function(self, name: &str) -> (r: Self)
        ensures
            r.functions@ == crate::funcs::funs_set(self.functions@, name@, FuncKind::Custom),
            r.data == self.data,
            r.directory == self.directory,
            r.files == self.files,
    {
        let mut c = self;
        c.set_function(name);
        c
    }

    /// Makes an independent copy of the context.
    pub fn duplicate(&self) -> (r: Self)
        ensures
            r.data@ == self.data@,
            r.directory == self.directory,
            r.functions@ == self.functions@,
            crate::value::view_fields(r.files@) == crate::value::view_fields(self.files@),
    {
        let data = self.data.duplicate();
        let directory = match &self.directory {
            Some(d) => Some(d.clone()),
            None => None,
        };
        let functions = self.functions.duplicate();
        proof {
            crate::value::lemma_view_fields(self.files@);
        }
        let n = self.files.len();
        let mut files: Vec<(String, Value)> = Vec::new();
        let mut i: usize = 0;
        while i < n
            invariant
                n == self.files@.len(),
                i <= n,
                files@.len() == i as int,
                forall|j: int|
                    0 <= j < i ==> (#[trigger] files@[j]).0@ == self.files@[j].0@
                        && files@[j].1@ == self.files@[j].1@,
            decreases n - i,
        {
            let k = self.files[i].0.clone();
            let v = self.files[i].1.duplicate();
            files.push((k, v));
            i = i + 1;
        }
        let r = Context { data, directory, functions, files };
        proof {
            crate::value::lemma_view_fields(r.files@);
            assert(crate::value::view_fields(r.files@) =~= crate::value::view_fields(
                self.files@,
            ));
        }
        r
    }

    /// Adds a loaded file document to the file store.
    pub fn add_file(&mut self, path: String, value: Value)
        ensures
            final(self).files@ == old(self).files@.push((path, value)),
            final(self).data == old(self).data,
            final(self).directory == old(self).directory,
            final(self).functions == old(self).functions,
    {
        self.files.push((path, value));
    }

    /// Adds a loaded file document to the file store.
    pub fn with_file(self, path: String, value: Value) -> (r: Self)
        ensures
            r.files@ == self.files@.push((path, value)),
            r.data == self.data,
            r.directory == self.directory,
            r.functions == self.functions,
    {
        let mut c = self;
        c.add_file(path, value);
        c
    }
}

} // verus!
