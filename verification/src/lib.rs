//! A JSON templating engine: placeholders embedded as strings inside a JSON
//! document are resolved against caller-supplied data, external fragments and
//! named transform functions, producing a placeholder-free document.

pub mod context;
pub mod errors;
pub mod funcs;
pub mod laws;
pub mod merge;
pub mod path;
pub mod placeholder;
pub mod resolver;
pub mod sem;
pub mod text;
pub mod util;
pub mod value;

pub use context::Context;
pub use errors::Error;
pub use errors::ErrorV;
pub use funcs::FuncKind;
pub use funcs::Functions;
pub use funcs::NoCustom;
pub use funcs::ResolverFn;
pub use path::Path;
pub use resolver::Deserializer;
pub use resolver::DEFAULT_FUEL;
pub use placeholder::Placeholder;
pub use placeholder::PlaceholderV;
pub use value::Value;
pub use value::ValueV;
