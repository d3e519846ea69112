//! The command surface: what a user asks for, as plain values, and how a
//! search request becomes query criteria.
use vstd::prelude::*;
use crate::codepoints::{code_values, codepoints_spec, parse_codepoints, string_views};
use crate::font::{parse_table_tags, tag_text, utf8_len};
use crate::query::QueryCriteria;
use crate::text::chars_of;
use crate::FontgrepError;

verus! {

/// A command line: the command and the options common to all commands.
#[derive(Debug)]
pub struct Cli {
    pub command: Commands,
    pub cache_path: Option<String>,
    pub verbose: bool,
    pub json: bool,
}

/// The commands.
#[derive(Debug)]
pub enum Commands {
    /// Search font files directly.
    Find(SearchArgs),
    /// Search the store.
    Fast(SearchArgs),
    /// Scan font files into the store.
    Save(UpdateArgs),
    /// Show the attributes of one font.
    Font(InfoArgs),
    /// List the stored fonts.
    Saved,
    /// Remove stored fonts whose files are gone.
    Forget,
}

impl Commands {
    /// Whether the command works with the store.
    pub fn uses_cache(&self) -> (r: bool)
        ensures
            r == (self is Fast || self is Save || self is Saved || self is Forget),
    {
        match self {
            Commands::Find(_) => false,
            Commands::Font(_) => false,
            _ => true,
        }
    }
}

/// What to search for, and where.
#[derive(Debug)]
pub struct SearchArgs {
    pub paths: Vec<String>,
    pub axes: Vec<String>,
    pub features: Vec<String>,
    pub scripts: Vec<String>,
    pub tables: Vec<String>,
    pub variable: bool,
    pub name: Vec<String>,
    pub codepoints: Vec<String>,
    pub text: Option<String>,
    pub jobs: usize,
}

/// What to scan into the store.
#[derive(Debug)]
pub struct UpdateArgs {
    pub paths: Vec<String>,
    pub force: bool,
    pub jobs: usize,
}

/// Which font to describe.
#[derive(Debug)]
pub struct InfoArgs {
    pub path: String,
    pub detailed: bool,
}

/// The characters of an optional text; none when absent.
pub open spec fn text_chars(t: Option<String>) -> Seq<char> {
    match t {
        Some(s) => s@,
        None => Seq::empty(),
    }
}

/// How each table argument is written as a tag: its UTF-8 bytes shown by
/// `tag_text`.
pub open spec fn tag_texts(tables: Seq<Seq<char>>) -> Seq<Seq<char>> {
    tables.map_values(|t: Seq<char>| tag_text(vstd::utf8::encode_utf8(t)))
}

/// Turns search arguments into criteria: the codepoint arguments are
/// parsed, the characters of the text appended to them, and the table
/// names checked to be tags. The first failure is returned.
pub fn args_to_query_criteria(args: &SearchArgs) -> (r: crate::Result<QueryCriteria>)
    ensures
        codepoints_spec(string_views(args.codepoints@)) matches Err(m) ==> (r matches Err(
            FontgrepError::Parse(e),
        ) && e@ == m),
        (codepoints_spec(string_views(args.codepoints@)) is Ok && exists|i: int|
            0 <= i < args.tables@.len() && utf8_len(#[trigger] args.tables@[i]@) != 4) ==> r is Err,
        (codepoints_spec(string_views(args.codepoints@)) is Ok && forall|i: int|
            0 <= i < args.tables@.len() ==> utf8_len(#[trigger] args.tables@[i]@) == 4) ==> r is Ok,
        r matches Ok(c) ==> ({
            &&& codepoints_spec(string_views(args.codepoints@)) matches Ok(cps)
            &&& code_values(c@.codepoints) == cps + code_values(text_chars(args.text))
            &&& c@.charset == c@.codepoints
            &&& c@.axes == string_views(args.axes@)
            &&& c@.features == string_views(args.features@)
            &&& c@.scripts == string_views(args.scripts@)
            &&& c@.tables == tag_texts(string_views(args.tables@))
            &&& c@.name_patterns == string_views(args.name@)
            &&& c@.variable == args.variable
        }),
{
    let cps_in = args.codepoints.as_slice();
    let mut codepoints = match parse_codepoints(cps_in) {
        Ok(v) => v,
        Err(e) => {
            return Err(e);
        },
    };
    let ghost parsed = codepoints@;
    let ghost text = text_chars(args.text);
    match &args.text {
        Some(t) => {
            let extra = chars_of(t.as_str());
            let mut i: usize = 0;
            while i < extra.len()
                invariant
                    i <= extra.len(),
                    codepoints@ == parsed + extra@.take(i as int),
                decreases extra.len() - i,
            {
                codepoints.push(extra[i]);
                proof {
                    assert(codepoints@ =~= parsed + extra@.take(i as int + 1));
                }
                i = i + 1;
            }
            proof {
                assert(extra@.take(extra@.len() as int) =~= extra@);
            }
        },
        None => {
            proof {
                assert(codepoints@ =~= parsed + Seq::<char>::empty());
            }
        },
    }
    proof {
        assert(code_values(codepoints@) =~= code_values(parsed) + code_values(text));
    }
    let tables_in = args.tables.as_slice();
    let tags = match parse_table_tags(tables_in) {
        Ok(t) => t,
        Err(e) => {
            return Err(e);
        },
    };
    let mut tables: Vec<String> = Vec::new();
    let mut k: usize = 0;
    while k < tags.len()
        invariant
            k <= tags@.len(),
            tags@.len() == args.tables@.len(),
            forall|m: int| 0 <= m < tags@.len() ==> #[trigger] tags@[m].spec_bytes() == vstd::utf8::encode_utf8(args.tables@[m]@),
            string_views(tables@) == tag_texts(string_views(args.tables@).take(k as int)),
        decreases tags.len() - k,
    {
        let ghost before = string_views(tables@);
        tables.push(tags[k].to_string());
        proof {
            assert(string_views(tables@) =~= before.push(tags@[k as int].spec_text()));
            assert(string_views(args.tables@).take(k as int + 1) =~= string_views(args.tables@).take(k as int).push(args.tables@[k as int]@));
            assert(tag_texts(string_views(args.tables@).take(k as int + 1)) =~= tag_texts(string_views(args.tables@).take(k as int)).push(tag_text(vstd::utf8::encode_utf8(args.tables@[k as int]@))));
        }
        k = k + 1;
    }
    proof {
        assert(string_views(args.tables@).take(tags@.len() as int) =~= string_views(args.tables@));
    }
    let criteria = QueryCriteria::new(
        crate::font::copy_strings(args.axes.as_slice()),
        codepoints,
        crate::font::copy_strings(args.features.as_slice()),
        crate::font::copy_strings(args.scripts.as_slice()),
        tables,
        crate::font::copy_strings(args.name.as_slice()),
        args.variable,
    );
    Ok(criteria)
}

} // verus!
