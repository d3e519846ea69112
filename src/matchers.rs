//! One matcher per criterion kind; a query is the conjunction of its
//! active matchers.
use vstd::prelude::*;
use crate::codepoints::string_views;
use crate::font::{copy_strings, FontInfo, InfoView, Tag};
use crate::query::{
    has_all, regex_is_match, regex_is_valid, regex_match, has_all_chars, has_all_codepoints,
    has_all_tags, copy_chars,
};
use crate::text::chars_of;

verus! {

/// A predicate over a font's extracted attributes.
pub trait FontMatcher {
    /// Which fonts the matcher accepts.
    spec fn accepts(&self, info: InfoView) -> bool;

    /// Whether the font is accepted.
    fn matches(&self, info: &FontInfo) -> (r: bool)
        ensures
            r == self.accepts(info@),
    ;
}

/// Accepts fonts that have every given variation axis.
pub struct AxesMatcher {
    axes: Vec<String>,
}

impl AxesMatcher {
    /// What the matcher asks for.
    pub closed spec fn wanted(&self) -> Seq<Seq<char>> {
        string_views(self.axes@)
    }

    /// A matcher for the given axes.
    pub fn new(axes: &[String]) -> (r: AxesMatcher)
        ensures
            r.wanted() == string_views(axes@),
    {
        AxesMatcher { axes: copy_strings(axes) }
    }
}

impl FontMatcher for AxesMatcher {
    open spec fn accepts(&self, info: InfoView) -> bool {
        has_all(info.axes, self.wanted())
    }

    fn matches(&self, info: &FontInfo) -> (r: bool) {
        has_all_tags(&info.axes, &self.axes)
    }
}

/// Accepts fonts that have every given feature.
pub struct FeaturesMatcher {
    features: Vec<String>,
}

impl FeaturesMatcher {
    /// What the matcher asks for.
    pub closed spec fn wanted(&self) -> Seq<Seq<char>> {
        string_views(self.features@)
    }

    /// A matcher for the given features.
    pub fn new(features: &[String]) -> (r: FeaturesMatcher)
        ensures
            r.wanted() == string_views(features@),
    {
        FeaturesMatcher { features: copy_strings(features) }
    }
}

impl FontMatcher for FeaturesMatcher {
    open spec fn accepts(&self, info: InfoView) -> bool {
        has_all(info.features, self.wanted())
    }

    fn matches(&self, info: &FontInfo) -> (r: bool) {
        has_all_tags(&info.features, &self.features)
    }
}

/// Accepts fonts that have every given script.
pub struct ScriptsMatcher {
    scripts: Vec<String>,
}

impl ScriptsMatcher {
    /// What the matcher asks for.
    pub closed spec fn wanted(&self) -> Seq<Seq<char>> {
        string_views(self.scripts@)
    }

    /// A matcher for the given scripts.
    pub fn new(scripts: &[String]) -> (r: ScriptsMatcher)
        ensures
            r.wanted() == string_views(scripts@),
    {
        ScriptsMatcher { scripts: copy_strings(scripts) }
    }
}

impl FontMatcher for ScriptsMatcher {
    open spec fn accepts(&self, info: InfoView) -> bool {
        has_all(info.scripts, self.wanted())
    }

    fn matches(&self, info: &FontInfo) -> (r: bool) {
        has_all_tags(&info.scripts, &self.scripts)
    }
}

/// Accepts fonts that have every given table.
pub struct TablesMatcher {
    tables: Vec<String>,
}

impl TablesMatcher {
    /// What the matcher asks for.
    pub closed spec fn wanted(&self) -> Seq<Seq<char>> {
        string_views(self.tables@)
    }

    /// A matcher for the given tables.
    pub fn new(tables: &[Tag]) -> (r: TablesMatcher)
        ensures
            r.wanted().len() == tables@.len(),
            forall|i: int| 0 <= i < tables@.len() ==> r.wanted()[i] == (#[trigger] tables@[i]).spec_text(),
    {
        let mut names: Vec<String> = Vec::new();
        let mut i: usize = 0;
        while i < tables.len()
            invariant
                i <= tables@.len(),
                names@.len() == i,
                forall|k: int| 0 <= k < i ==> (#[trigger] names@[k])@ == tables@[k].spec_text(),
            decreases tables.len() - i,
        {
            names.push(tables[i].to_string());
            i = i + 1;
        }
        TablesMatcher { tables: names }
    }
}

impl FontMatcher for TablesMatcher {
    open spec fn accepts(&self, info: InfoView) -> bool {
        has_all(info.tables, self.wanted())
    }

    fn matches(&self, info: &FontInfo) -> (r: bool) {
        has_all_tags(&info.tables, &self.tables)
    }
}

/// Accepts fonts with at least one variation axis.
pub struct VariableFontMatcher;

impl VariableFontMatcher {
    /// The matcher.
    pub fn new() -> (r: VariableFontMatcher) {
        VariableFontMatcher
    }
}

impl FontMatcher for VariableFontMatcher {
    open spec fn accepts(&self, info: InfoView) -> bool {
        info.axes.len() > 0
    }

    fn matches(&self, info: &FontInfo) -> (r: bool) {
        info.axes.len() > 0
    }
}

/// Accepts fonts whose charset holds every given codepoint.
pub struct CodepointsMatcher {
    codepoints: Vec<char>,
}

impl CodepointsMatcher {
    /// What the matcher asks for.
    pub closed spec fn wanted(&self) -> Seq<char> {
        self.codepoints@
    }

    /// A matcher for the given codepoints.
    pub fn new(codepoints: &[char]) -> (r: CodepointsMatcher)
        ensures
            r.wanted() == codepoints@,
    {
        CodepointsMatcher { codepoints: copy_chars(codepoints) }
    }
}

impl FontMatcher for CodepointsMatcher {
    open spec fn accepts(&self, info: InfoView) -> bool {
        has_all_chars(info.charset, self.wanted())
    }

    fn matches(&self, info: &FontInfo) -> (r: bool) {
        let charset = chars_of(info.charset_string.as_str());
        has_all_codepoints(&charset, &self.codepoints)
    }
}

/// Whether some of the regular expressions, as written, matches some of
/// the names; expressions that do not compile match nothing.
pub open spec fn any_regex_matches(sources: Seq<Seq<char>>, names: Seq<Seq<char>>) -> bool {
    exists|i: int, j: int|
        0 <= i < sources.len() && 0 <= j < names.len() && regex_is_valid(#[trigger] sources[i])
            && regex_is_match(sources[i], #[trigger] names[j])
}

/// Accepts fonts of which at least one name string matches at least one of
/// the regular expressions.
pub struct NameMatcher {
    patterns: Vec<String>,
}

impl NameMatcher {
    /// The regular expressions, as written.
    pub closed spec fn wanted(&self) -> Seq<Seq<char>> {
        string_views(self.patterns@)
    }

    /// A matcher for the given regular expressions.
    pub fn new(patterns: &[String]) -> (r: NameMatcher)
        ensures
            r.wanted() == string_views(patterns@),
    {
        NameMatcher { patterns: copy_strings(patterns) }
    }
}

impl FontMatcher for NameMatcher {
    open spec fn accepts(&self, info: InfoView) -> bool {
        any_regex_matches(self.wanted(), info.names)
    }

    fn matches(&self, info: &FontInfo) -> (r: bool) {
        let mut i: usize = 0;
        while i < self.patterns.len()
            invariant
                i <= self.patterns@.len(),
                forall|a: int, b: int|
                    0 <= a < i && 0 <= b < info.names@.len() ==> !(regex_is_valid(
                        #[trigger] string_views(self.patterns@)[a],
                    ) && regex_is_match(
                        string_views(self.patterns@)[a],
                        #[trigger] string_views(info.names@)[b],
                    )),
            decreases self.patterns.len() - i,
        {
            let mut j: usize = 0;
            while j < info.names.len()
                invariant
                    i < self.patterns@.len(),
                    j <= info.names@.len(),
                    forall|a: int, b: int|
                        0 <= a < i && 0 <= b < info.names@.len() ==> !(regex_is_valid(
                            #[trigger] string_views(self.patterns@)[a],
                        ) && regex_is_match(
                            string_views(self.patterns@)[a],
                            #[trigger] string_views(info.names@)[b],
                        )),
                    forall|b: int|
                        0 <= b < j ==> !(regex_is_valid(string_views(self.patterns@)[i as int])
                            && regex_is_match(
                            string_views(self.patterns@)[i as int],
                            #[trigger] string_views(info.names@)[b],
                        )),
                decreases info.names.len() - j,
            {
                proof {
                    assert(string_views(self.patterns@)[i as int] == self.patterns@[i as int]@);
                    assert(string_views(info.names@)[j as int] == info.names@[j as int]@);
                }
                match regex_match(self.patterns[i].as_str(), info.names[j].as_str()) {
                    Some(true) => {
                        return true;
                    },
                    _ => {},
                }
                j = j + 1;
            }
            i = i + 1;
        }
        false
    }
}

} // verus!
