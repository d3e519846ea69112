//! Font attribute index and criteria matching.
use vstd::prelude::*;

pub mod text;
pub mod codepoints;
pub mod font;
pub mod handle;
pub mod query;
pub mod matchers;
pub mod cache;
pub mod sql;
pub mod scan;
pub mod cli;
pub mod laws;

pub use cache::FontCache;
pub use font::FontInfo;
pub use query::QueryCriteria;
pub use scan::FontQuery;

verus! {

/// Number of records written per store transaction by a batch update.
pub const DEFAULT_BATCH_SIZE: usize = 100;

/// Errors reported by the library.
#[derive(Debug, Clone, PartialEq, Eq)]
pub enum FontgrepError {
    Io(String),
    Font(String),
    Database(String),
    Cache(String),
    Parse(String),
    Pool(String),
    Serialization(String),
    Regex(String),
    Mmap(String),
    FontLoad(String),
    Feature(String),
    Script(String),
    Table(String),
    Name(String),
    Charset(String),
    Config(String),
    Other(String),
}

/// Result type of the library.
pub type Result<T> = core::result::Result<T, FontgrepError>;

impl FontgrepError {
    /// The label that precedes the detail in the rendered message.
    pub open spec fn spec_label(&self) -> Seq<char> {
        match self {
            FontgrepError::Io(_) => "IO error: "@,
            FontgrepError::Font(_) => "Font error: "@,
            FontgrepError::Database(_) => "Database error: "@,
            FontgrepError::Cache(_) => "Cache error: "@,
            FontgrepError::Parse(_) => "Parse error: "@,
            FontgrepError::Pool(_) => "Connection pool error: "@,
            FontgrepError::Serialization(_) => "Serialization error: "@,
            FontgrepError::Regex(_) => "Regex error: "@,
            FontgrepError::Mmap(_) => "Memory mapping error: "@,
            FontgrepError::FontLoad(_) => "Font loading error: "@,
            FontgrepError::Feature(_) => "Font feature error: "@,
            FontgrepError::Script(_) => "Font script error: "@,
            FontgrepError::Table(_) => "Font table error: "@,
            FontgrepError::Name(_) => "Font name error: "@,
            FontgrepError::Charset(_) => "Font charset error: "@,
            FontgrepError::Config(_) => "Configuration error: "@,
            FontgrepError::Other(_) => "Error: "@,
        }
    }

    /// The detail carried by the error.
    pub open spec fn spec_detail(&self) -> Seq<char> {
        match self {
            FontgrepError::Io(s) => s@,
            FontgrepError::Font(s) => s@,
            FontgrepError::Database(s) => s@,
            FontgrepError::Cache(s) => s@,
            FontgrepError::Parse(s) => s@,
            FontgrepError::Pool(s) => s@,
            FontgrepError::Serialization(s) => s@,
            FontgrepError::Regex(s) => s@,
            FontgrepError::Mmap(s) => s@,
            FontgrepError::FontLoad(s) => s@,
            FontgrepError::Feature(s) => s@,
            FontgrepError::Script(s) => s@,
            FontgrepError::Table(s) => s@,
            FontgrepError::Name(s) => s@,
            FontgrepError::Charset(s) => s@,
            FontgrepError::Config(s) => s@,
            FontgrepError::Other(s) => s@,
        }
    }

    /// The rendered message: label followed by detail.
    pub open spec fn spec_message(&self) -> Seq<char> {
        self.spec_label() + self.spec_detail()
    }

    /// Renders the error as text.
    pub fn message(&self) -> (r: String)
        ensures
            r@ == self.spec_message(),
    {
        let (label, detail): (&str, &String) = match self {
            FontgrepError::Io(s) => ("IO error: ", s),
            FontgrepError::Font(s) => ("Font error: ", s),
            FontgrepError::Database(s) => ("Database error: ", s),
            FontgrepError::Cache(s) => ("Cache error: ", s),
            FontgrepError::Parse(s) => ("Parse error: ", s),
            FontgrepError::Pool(s) => ("Connection pool error: ", s),
            FontgrepError::Serialization(s) => ("Serialization error: ", s),
            FontgrepError::Regex(s) => ("Regex error: ", s),
            FontgrepError::Mmap(s) => ("Memory mapping error: ", s),
            FontgrepError::FontLoad(s) => ("Font loading error: ", s),
            FontgrepError::Feature(s) => ("Font feature error: ", s),
            FontgrepError::Script(s) => ("Font script error: ", s),
            FontgrepError::Table(s) => ("Font table error: ", s),
            FontgrepError::Name(s) => ("Font name error: ", s),
            FontgrepError::Charset(s) => ("Font charset error: ", s),
            FontgrepError::Config(s) => ("Configuration error: ", s),
            FontgrepError::Other(s) => ("Error: ", s),
        };
        let mut out = label.to_string();
        out.append(detail.as_str());
        out
    }
}

/// Replaces an error by an `Other` error whose text is the context, a colon
/// and the wrapped error's message; a success passes through unchanged.
pub fn with_context<T, C>(result: Result<T>, context: C) -> (r: Result<T>)
    where
        C: FnOnce() -> String,
    requires
        call_requires(context, ()),
    ensures
        result is Ok ==> r == result,
        result is Err ==> exists|ctx: String|
            call_ensures(context, (), ctx) && (r matches Err(FontgrepError::Other(m))
                && m@ == ctx@ + ": "@ + result->Err_0.spec_message()),
{
    match result {
        Ok(v) => Ok(v),
        Err(e) => {
            let ctx = context();
            let mut m = ctx.clone();
            m.append(": ");
            let em = e.message();
            m.append(em.as_str());
            proof {
                assert(m@ == ctx@ + ": "@ + em@);
            }
            Err(FontgrepError::Other(m))
        }
    }
}

} // verus!
