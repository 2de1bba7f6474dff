//! A parser and resolver for a line-oriented, schema-carrying configuration
//! language: struct declarations with typed, defaulted fields; instance
//! records with positional and named arguments; cross-record references by
//! primary key; and `{placeholder}` templating inside strings.
pub mod context;
pub mod error;
pub mod parser;
pub mod render;
pub mod utils;
pub mod value;

pub use context::FieldSchema;
pub use context::TycoContext;
pub use context::TycoStruct;
pub use error::SourceSpan;
pub use error::TycoError;
pub use parser::TycoParser;
pub use parser::loads;
pub use value::TycoInstance;
pub use value::TycoString;
pub use value::TycoValue;
