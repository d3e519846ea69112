//! Query criteria and what it means for a font to satisfy them.
use vstd::prelude::*;
use crate::codepoints::string_views;
use crate::font::{FontInfo, InfoView};
use crate::text::{chars_of, string_of};

verus! {

/// What a search asks for.
#[derive(Debug)]
pub struct QueryCriteria {
    /// Variation axes that must all be present.
    pub axes: Vec<String>,
    /// Codepoints that must all be supported.
    pub codepoints: Vec<char>,
    /// Features that must all be present.
    pub features: Vec<String>,
    /// Scripts that must all be present.
    pub scripts: Vec<String>,
    /// Tables that must all be present.
    pub tables: Vec<String>,
    /// Name patterns, of which at least one must match.
    pub name_patterns: Vec<String>,
    /// Only variable fonts.
    pub variable: bool,
    /// The wanted codepoints as text.
    pub charset: String,
}

/// The mathematical content of `QueryCriteria`.
pub struct CriteriaView {
    pub axes: Seq<Seq<char>>,
    pub codepoints: Seq<char>,
    pub features: Seq<Seq<char>>,
    pub scripts: Seq<Seq<char>>,
    pub tables: Seq<Seq<char>>,
    pub name_patterns: Seq<Seq<char>>,
    pub variable: bool,
    pub charset: Seq<char>,
}

impl View for QueryCriteria {
    type V = CriteriaView;

    open spec fn view(&self) -> CriteriaView {
        CriteriaView {
            axes: string_views(self.axes@),
            codepoints: self.codepoints@,
            features: string_views(self.features@),
            scripts: string_views(self.scripts@),
            tables: string_views(self.tables@),
            name_patterns: string_views(self.name_patterns@),
            variable: self.variable,
            charset: self.charset@,
        }
    }
}

/// Every wanted tag is among the present ones.
pub open spec fn has_all(have: Seq<Seq<char>>, want: Seq<Seq<char>>) -> bool {
    forall|i: int| 0 <= i < want.len() ==> have.contains(#[trigger] want[i])
}

/// Every wanted character is in the charset.
pub open spec fn has_all_chars(charset: Seq<char>, want: Seq<char>) -> bool {
    forall|i: int| 0 <= i < want.len() ==> charset.contains(#[trigger] want[i])
}

/// Whether `source` compiles as a regular expression of the regex crate.
pub uninterp spec fn regex_is_valid(source: Seq<char>) -> bool;

/// Whether the regular expression `source` matches somewhere in `text`.
pub uninterp spec fn regex_is_match(source: Seq<char>, text: Seq<char>) -> bool;

/// Relies on `regex::Regex::new` and `Regex::is_match`: compiles `source`
/// (none when it is no valid expression, which depends on `source` alone)
/// and reports whether it matches somewhere in `text`.
#[verifier::external_body]
pub(crate) fn regex_match(source: &str, text: &str) -> (r: Option<bool>)
    ensures
        r is Some <==> regex_is_valid(source@),
        r matches Some(b) ==> b == regex_is_match(source@, text@),
{
    regex::Regex::new(source).ok().map(|re| re.is_match(text))
}

/// The characters that the regex crate treats as meta characters.
pub open spec fn regex_meta(c: char) -> bool {
    c == '\\' || c == '.' || c == '+' || c == '*' || c == '?' || c == '(' || c == ')' || c == '|'
        || c == '[' || c == ']' || c == '{' || c == '}' || c == '^' || c == '$' || c == '#' || c
        == '&' || c == '-' || c == '~'
}

/// `s` with a backslash before every meta character, which makes it match
/// itself literally.
pub open spec fn regex_escape_spec(s: Seq<char>) -> Seq<char>
    decreases s.len(),
{
    if s.len() == 0 {
        s
    } else if regex_meta(s.last()) {
        regex_escape_spec(s.drop_last()).push('\\').push(s.last())
    } else {
        regex_escape_spec(s.drop_last()).push(s.last())
    }
}

/// Relies on `regex::escape`: a backslash before each meta character
/// (`regex_syntax::is_meta_character`), every character kept in order.
#[verifier::external_body]
fn escape_regex(s: &str) -> (r: String)
    ensures
        r@ == regex_escape_spec(s@),
{
    regex::escape(s)
}

/// The regular expression a name pattern stands for: a pattern without a
/// leading `^` or a trailing `$` is literal text found anywhere; any other
/// pattern is a regular expression as written. Both ignore case.
pub open spec fn regex_source(p: Seq<char>) -> Seq<char> {
    if !(p.len() > 0 && p[0] == '^') && !(p.len() > 0 && p.last() == '$') {
        "(?i)"@ + ".*"@ + regex_escape_spec(p) + ".*"@
    } else {
        "(?i)"@ + p
    }
}

/// Whether a name pattern yields a valid regular expression; others are
/// left out of the name criterion.
pub open spec fn pattern_valid(p: Seq<char>) -> bool {
    regex_is_valid(regex_source(p))
}

/// A valid name pattern that matches a name.
pub open spec fn pattern_matches(p: Seq<char>, name: Seq<char>) -> bool {
    pattern_valid(p) && regex_is_match(regex_source(p), name)
}

/// At least one of the patterns matches at least one of the names.
pub open spec fn any_pattern_matches(patterns: Seq<Seq<char>>, names: Seq<Seq<char>>) -> bool {
    exists|i: int, j: int|
        0 <= i < patterns.len() && 0 <= j < names.len() && pattern_matches(
            #[trigger] patterns[i],
            #[trigger] names[j],
        )
}

/// At least one of the patterns is valid.
pub open spec fn some_pattern_valid(patterns: Seq<Seq<char>>) -> bool {
    exists|i: int| 0 <= i < patterns.len() && pattern_valid(#[trigger] patterns[i])
}

/// The name criterion: when any pattern is valid, some valid pattern
/// matches some name string.
pub open spec fn names_pass_spec(patterns: Seq<Seq<char>>, names: Seq<Seq<char>>) -> bool {
    some_pattern_valid(patterns) ==> any_pattern_matches(patterns, names)
}

/// The live matching rules: a conjunction over every active criterion.
pub open spec fn live_matches(c: CriteriaView, f: InfoView) -> bool {
    &&& (c.variable ==> f.axes.len() > 0)
    &&& has_all(f.axes, c.axes)
    &&& has_all(f.features, c.features)
    &&& has_all(f.scripts, c.scripts)
    &&& has_all(f.tables, c.tables)
    &&& has_all_chars(f.charset, c.codepoints)
    &&& names_pass_spec(c.name_patterns, f.names)
}

/// The characters of a charset criterion that the store checks: all of a
/// text of at most ten characters, otherwise only the first five (which
/// may let through fonts lacking later characters).
pub open spec fn charset_probe(cs: Seq<char>) -> Seq<char> {
    if cs.len() <= 10 {
        cs
    } else {
        cs.take(5)
    }
}

/// The store's matching rules: those of live matching, with the charset
/// criterion checked through `charset_probe`.
pub open spec fn store_matches(c: CriteriaView, f: InfoView) -> bool {
    &&& (c.variable ==> f.axes.len() > 0)
    &&& has_all(f.axes, c.axes)
    &&& has_all(f.features, c.features)
    &&& has_all(f.scripts, c.scripts)
    &&& has_all(f.tables, c.tables)
    &&& has_all_chars(f.charset, charset_probe(c.charset))
    &&& names_pass_spec(c.name_patterns, f.names)
}

/// Whether the text is among the strings.
pub fn contains_str(have: &Vec<String>, want: &String) -> (r: bool)
    ensures
        r == string_views(have@).contains(want@),
{
    let mut i: usize = 0;
    while i < have.len()
        invariant
            i <= have.len(),
            forall|j: int| 0 <= j < i ==> have@[j]@ != want@,
        decreases have.len() - i,
    {
        if have[i] == *want {
            proof {
                assert(string_views(have@)[i as int] == want@);
            }
            return true;
        }
        i = i + 1;
    }
    proof {
        if string_views(have@).contains(want@) {
            let k = choose|k: int| 0 <= k < have@.len() && string_views(have@)[k] == want@;
            assert(have@[k]@ == want@);
        }
    }
    false
}

/// Whether every wanted tag is present.
pub fn has_all_tags(have: &Vec<String>, want: &Vec<String>) -> (r: bool)
    ensures
        r == has_all(string_views(have@), string_views(want@)),
{
    let mut i: usize = 0;
    while i < want.len()
        invariant
            i <= want.len(),
            forall|j: int|
                0 <= j < i ==> string_views(have@).contains(#[trigger] string_views(want@)[j]),
        decreases want.len() - i,
    {
        if !contains_str(have, &want[i]) {
            proof {
                assert(string_views(want@)[i as int] == want@[i as int]@);
            }
            return false;
        }
        i = i + 1;
    }
    true
}

fn contains_char(s: &Vec<char>, c: char) -> (r: bool)
    ensures
        r == s@.contains(c),
{
    let mut i: usize = 0;
    while i < s.len()
        invariant
            i <= s.len(),
            forall|j: int| 0 <= j < i ==> s@[j] != c,
        decreases s.len() - i,
    {
        if s[i] == c {
            return true;
        }
        i = i + 1;
    }
    false
}

/// Whether every wanted character is in the charset.
pub fn has_all_codepoints(charset: &Vec<char>, want: &Vec<char>) -> (r: bool)
    ensures
        r == has_all_chars(charset@, want@),
{
    let mut i: usize = 0;
    while i < want.len()
        invariant
            i <= want.len(),
            forall|j: int| 0 <= j < i ==> charset@.contains(#[trigger] want@[j]),
        decreases want.len() - i,
    {
        if !contains_char(charset, want[i]) {
            return false;
        }
        i = i + 1;
    }
    true
}

/// The characters of `s` from `from` up to `to`.
pub fn sub_chars(s: &Vec<char>, from: usize, to: usize) -> (r: Vec<char>)
    requires
        from <= to <= s.len(),
    ensures
        r@ == s@.subrange(from as int, to as int),
{
    let mut out: Vec<char> = Vec::new();
    let mut j: usize = from;
    while j < to
        invariant
            from <= j <= to,
            to <= s.len(),
            out@ == s@.subrange(from as int, j as int),
        decreases to - j,
    {
        out.push(s[j]);
        proof {
            assert(out@ =~= s@.subrange(from as int, j as int + 1));
        }
        j = j + 1;
    }
    out
}

/// The regular expression a name pattern stands for.
pub fn pattern_source(p: &String) -> (r: String)
    ensures
        r@ == regex_source(p@),
{
    let cs = chars_of(p.as_str());
    let anchored = (cs.len() > 0 && cs[0] == '^') || (cs.len() > 0 && cs[cs.len() - 1] == '$');
    let mut out = "(?i)".to_string();
    if !anchored {
        out.append(".*");
        let e = escape_regex(p.as_str());
        out.append(e.as_str());
        out.append(".*");
    } else {
        out.append(p.as_str());
    }
    out
}

fn pattern_matches_some(source: &String, names: &Vec<String>, p: Ghost<Seq<char>>) -> (r: bool)
    requires
        source@ == regex_source(p@),
        regex_is_valid(source@),
    ensures
        r == exists|j: int| 0 <= j < names@.len() && pattern_matches(p@, #[trigger] string_views(names@)[j]),
{
    let mut j: usize = 0;
    while j < names.len()
        invariant
            j <= names@.len(),
            source@ == regex_source(p@),
            regex_is_valid(source@),
            forall|k: int| 0 <= k < j ==> !pattern_matches(p@, #[trigger] string_views(names@)[k]),
        decreases names.len() - j,
    {
        proof {
            assert(string_views(names@)[j as int] == names@[j as int]@);
        }
        match regex_match(source.as_str(), names[j].as_str()) {
            Some(true) => {
                return true;
            },
            _ => {},
        }
        j = j + 1;
    }
    false
}

/// Whether at least one valid pattern matches at least one of the names.
pub fn any_name_matches(patterns: &Vec<String>, names: &Vec<String>) -> (r: bool)
    ensures
        r == any_pattern_matches(string_views(patterns@), string_views(names@)),
{
    let mut i: usize = 0;
    while i < patterns.len()
        invariant
            i <= patterns.len(),
            forall|a: int, b: int|
                0 <= a < i && 0 <= b < names@.len() ==> !pattern_matches(
                    #[trigger] string_views(patterns@)[a],
                    #[trigger] string_views(names@)[b],
                ),
        decreases patterns.len() - i,
    {
        proof {
            assert(string_views(patterns@)[i as int] == patterns@[i as int]@);
        }
        let source = pattern_source(&patterns[i]);
        match regex_match(source.as_str(), "") {
            Some(_) => {
                if pattern_matches_some(&source, names, Ghost(patterns@[i as int]@)) {
                    return true;
                }
            },
            None => {},
        }
        i = i + 1;
    }
    false
}

/// Whether at least one of the patterns is valid.
pub fn some_pattern_is_valid(patterns: &Vec<String>) -> (r: bool)
    ensures
        r == some_pattern_valid(string_views(patterns@)),
{
    let mut i: usize = 0;
    while i < patterns.len()
        invariant
            i <= patterns.len(),
            forall|a: int| 0 <= a < i ==> !pattern_valid(#[trigger] string_views(patterns@)[a]),
        decreases patterns.len() - i,
    {
        proof {
            assert(string_views(patterns@)[i as int] == patterns@[i as int]@);
        }
        let source = pattern_source(&patterns[i]);
        if regex_match(source.as_str(), "").is_some() {
            return true;
        }
        i = i + 1;
    }
    false
}

/// The name criterion: when any pattern is valid, whether some valid
/// pattern matches some name string.
pub fn names_pass(patterns: &Vec<String>, names: &Vec<String>) -> (r: bool)
    ensures
        r == names_pass_spec(string_views(patterns@), string_views(names@)),
{
    !some_pattern_is_valid(patterns) || any_name_matches(patterns, names)
}

/// Whether a font satisfies every active criterion under the live rules.
pub fn live_match(criteria: &QueryCriteria, info: &FontInfo) -> (r: bool)
    ensures
        r == live_matches(criteria@, info@),
{
    if criteria.variable && info.axes.len() == 0 {
        return false;
    }
    if !has_all_tags(&info.axes, &criteria.axes) {
        return false;
    }
    if !has_all_tags(&info.features, &criteria.features) {
        return false;
    }
    if !has_all_tags(&info.scripts, &criteria.scripts) {
        return false;
    }
    if !has_all_tags(&info.tables, &criteria.tables) {
        return false;
    }
    let charset = chars_of(info.charset_string.as_str());
    if !has_all_codepoints(&charset, &criteria.codepoints) {
        return false;
    }
    if !names_pass(&criteria.name_patterns, &info.names) {
        return false;
    }
    true
}

/// Whether a stored font satisfies every active criterion under the store's
/// rules.
pub fn store_match(criteria: &QueryCriteria, info: &FontInfo) -> (r: bool)
    ensures
        r == store_matches(criteria@, info@),
{
    if criteria.variable && info.axes.len() == 0 {
        return false;
    }
    if !has_all_tags(&info.axes, &criteria.axes) {
        return false;
    }
    if !has_all_tags(&info.features, &criteria.features) {
        return false;
    }
    if !has_all_tags(&info.scripts, &criteria.scripts) {
        return false;
    }
    if !has_all_tags(&info.tables, &criteria.tables) {
        return false;
    }
    let charset = chars_of(info.charset_string.as_str());
    let wanted = chars_of(criteria.charset.as_str());
    let probe = if wanted.len() <= 10 {
        wanted
    } else {
        sub_chars(&wanted, 0, 5)
    };
    if !has_all_codepoints(&charset, &probe) {
        return false;
    }
    if !names_pass(&criteria.name_patterns, &info.names) {
        return false;
    }
    true
}

/// A copy of the characters.
pub fn copy_chars(v: &[char]) -> (r: Vec<char>)
    ensures
        r@ == v@,
{
    let mut out: Vec<char> = Vec::new();
    let mut i: usize = 0;
    while i < v.len()
        invariant
            i <= v.len(),
            out@ == v@.take(i as int),
        decreases v.len() - i,
    {
        out.push(v[i]);
        proof {
            assert(out@ =~= v@.take(i as int + 1));
        }
        i = i + 1;
    }
    proof {
        assert(v@.take(v@.len() as int) =~= v@);
    }
    out
}

impl QueryCriteria {
    /// Criteria over the given wants; the charset text holds the codepoints.
    pub fn new(
        axes: Vec<String>,
        codepoints: Vec<char>,
        features: Vec<String>,
        scripts: Vec<String>,
        tables: Vec<String>,
        name_patterns: Vec<String>,
        variable: bool,
    ) -> (r: QueryCriteria)
        ensures
            r.axes == axes,
            r.codepoints == codepoints,
            r.features == features,
            r.scripts == scripts,
            r.tables == tables,
            r.name_patterns == name_patterns,
            r.variable == variable,
            r.charset@ == codepoints@,
    {
        let charset = string_of(&codepoints);
        QueryCriteria { axes, codepoints, features, scripts, tables, name_patterns, variable, charset }
    }

    /// Whether no criterion is active.
    pub fn is_empty(&self) -> (r: bool)
        ensures
            r == (self.axes@.len() == 0 && self.codepoints@.len() == 0 && self.features@.len() == 0
                && self.scripts@.len() == 0 && self.tables@.len() == 0
                && self.name_patterns@.len() == 0 && !self.variable),
    {
        self.axes.len() == 0 && self.codepoints.len() == 0 && self.features.len() == 0
            && self.scripts.len() == 0 && self.tables.len() == 0 && self.name_patterns.len() == 0
            && !self.variable
    }

    /// The charset text, when codepoints are wanted.
    pub fn get_charset_query(&self) -> (r: Option<String>)
        ensures
            self.codepoints@.len() == 0 ==> r is None,
            self.codepoints@.len() > 0 ==> (r matches Some(s) && s@ == self.charset@),
    {
        if self.codepoints.len() == 0 {
            None
        } else {
            Some(self.charset.clone())
        }
    }

    /// A copy of these criteria.
    pub fn duplicate(&self) -> (r: QueryCriteria)
        ensures
            r@ == self@,
    {
        QueryCriteria {
            axes: crate::font::copy_strings(self.axes.as_slice()),
            codepoints: copy_chars(self.codepoints.as_slice()),
            features: crate::font::copy_strings(self.features.as_slice()),
            scripts: crate::font::copy_strings(self.scripts.as_slice()),
            tables: crate::font::copy_strings(self.tables.as_slice()),
            name_patterns: crate::font::copy_strings(self.name_patterns.as_slice()),
            variable: self.variable,
            charset: self.charset.clone(),
        }
    }
}

impl Default for QueryCriteria {
    fn default() -> (r: QueryCriteria)
        ensures
            r@.axes.len() == 0 && r@.codepoints.len() == 0 && r@.features.len() == 0
                && r@.scripts.len() == 0 && r@.tables.len() == 0 && r@.name_patterns.len() == 0
                && !r@.variable && r@.charset.len() == 0,
    {
        QueryCriteria {
            axes: Vec::new(),
            codepoints: Vec::new(),
            features: Vec::new(),
            scripts: Vec::new(),
            tables: Vec::new(),
            name_patterns: Vec::new(),
            variable: false,
            charset: String::new(),
        }
    }
}

} // verus!
