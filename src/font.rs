//! Extracted Info: the flattened, persistable attributes of one font, and
//! how they are assembled from what a font parser reports.
use vstd::prelude::*;
use std::collections::BTreeSet;
use vstd::std_specs::iter::IteratorSpec;
use crate::codepoints::{code_values, invalid_codepoint, is_invalid_unicode, string_views};
use crate::text::{
    char_from_u32, chars_of, fold_ascii, is_scalar, to_ascii_lower, split_chars, split_spec, string_of,
    views_of, push_char, lemma_split_nonempty, digits_of, zero_padded,
};
use crate::FontgrepError;

verus! {

broadcast use vstd::std_specs::btree::group_btree_axioms, vstd::laws_cmp::group_laws_cmp;

/// The queryable attributes of one font.
#[derive(Debug)]
pub struct FontInfo {
    /// The distinct name strings of the font, joined by spaces.
    pub name_string: String,
    /// The distinct name strings of the font.
    pub names: Vec<String>,
    /// Whether the font has variation axes.
    pub is_variable: bool,
    /// Variation axis tags.
    pub axes: Vec<String>,
    /// OpenType feature tags.
    pub features: Vec<String>,
    /// OpenType script tags.
    pub scripts: Vec<String>,
    /// Table tags.
    pub tables: Vec<String>,
    /// The supported characters, in increasing codepoint order.
    pub charset_string: String,
}

/// The mathematical content of a `FontInfo`.
pub struct InfoView {
    pub name: Seq<char>,
    pub names: Seq<Seq<char>>,
    pub is_variable: bool,
    pub axes: Seq<Seq<char>>,
    pub features: Seq<Seq<char>>,
    pub scripts: Seq<Seq<char>>,
    pub tables: Seq<Seq<char>>,
    pub charset: Seq<char>,
}

impl View for FontInfo {
    type V = InfoView;

    open spec fn view(&self) -> InfoView {
        InfoView {
            name: self.name_string@,
            names: string_views(self.names@),
            is_variable: self.is_variable,
            axes: string_views(self.axes@),
            features: string_views(self.features@),
            scripts: string_views(self.scripts@),
            tables: string_views(self.tables@),
            charset: self.charset_string@,
        }
    }
}

/// A copy of a vector of strings.
pub fn copy_strings(v: &[String]) -> (r: Vec<String>)
    ensures
        r@ == v@,
{
    let mut out: Vec<String> = Vec::new();
    let mut i: usize = 0;
    while i < v.len()
        invariant
            i <= v.len(),
            out@ == v@.take(i as int),
        decreases v.len() - i,
    {
        out.push(v[i].clone());
        proof {
            assert(out@ =~= v@.take(i as int + 1));
        }
        i = i + 1;
    }
    proof {
        assert(v@.take(v@.len() as int) =~= v@);
    }
    out
}

impl FontInfo {
    /// A copy of this record.
    pub fn duplicate(&self) -> (r: FontInfo)
        ensures
            r@ == self@,
    {
        FontInfo {
            name_string: self.name_string.clone(),
            names: copy_strings(self.names.as_slice()),
            is_variable: self.is_variable,
            axes: copy_strings(self.axes.as_slice()),
            features: copy_strings(self.features.as_slice()),
            scripts: copy_strings(self.scripts.as_slice()),
            tables: copy_strings(self.tables.as_slice()),
            charset_string: self.charset_string.clone(),
        }
    }
}

/// The sequence with later repetitions of an element left out.
pub open spec fn dedup_spec(s: Seq<Seq<char>>) -> Seq<Seq<char>>
    decreases s.len(),
{
    if s.len() == 0 {
        s
    } else if s.drop_last().contains(s.last()) {
        dedup_spec(s.drop_last())
    } else {
        dedup_spec(s.drop_last()).push(s.last())
    }
}

/// `dedup_spec` keeps exactly the elements of its input.
pub proof fn lemma_dedup_contains(s: Seq<Seq<char>>, x: Seq<char>)
    ensures
        dedup_spec(s).contains(x) <==> s.contains(x),
    decreases s.len(),
{
    if s.len() > 0 {
        lemma_dedup_contains(s.drop_last(), x);
        if s.contains(x) && x != s.last() {
            let i = choose|i: int| 0 <= i < s.len() && s[i] == x;
            assert(s.drop_last()[i] == x);
        }
        if s.drop_last().contains(x) {
            let i = choose|i: int| 0 <= i < s.len() - 1 && s.drop_last()[i] == x;
            assert(s[i] == x);
        }
        if !s.drop_last().contains(s.last()) {
            let d = dedup_spec(s.drop_last());
            if d.push(s.last()).contains(x) && x != s.last() {
                let i = choose|i: int| 0 <= i < d.len() + 1 && d.push(s.last())[i] == x;
                assert(d[i] == x);
            }
            if x == s.last() {
                assert(d.push(s.last())[d.len() as int] == x);
            }
            if d.contains(x) {
                let i = choose|i: int| 0 <= i < d.len() && d[i] == x;
                assert(d.push(s.last())[i] == x);
            }
        }
        if x == s.last() {
            assert(s[s.len() - 1] == x);
        }
    }
}

fn contains_string(v: &Vec<String>, s: &String) -> (r: bool)
    ensures
        r == string_views(v@).contains(s@),
{
    let mut i: usize = 0;
    while i < v.len()
        invariant
            i <= v.len(),
            forall|j: int| 0 <= j < i ==> v@[j]@ != s@,
        decreases v.len() - i,
    {
        if v[i] == *s {
            proof {
                assert(string_views(v@)[i as int] == s@);
            }
            return true;
        }
        i = i + 1;
    }
    proof {
        if string_views(v@).contains(s@) {
            let k = choose|k: int| 0 <= k < v@.len() && string_views(v@)[k] == s@;
            assert(v@[k]@ == s@);
        }
    }
    false
}

/// The strings with later repetitions left out, first occurrences in order.
pub fn dedup_strings(v: &Vec<String>) -> (r: Vec<String>)
    ensures
        string_views(r@) == dedup_spec(string_views(v@)),
{
    let mut out: Vec<String> = Vec::new();
    let mut i: usize = 0;
    proof {
        assert(string_views(v@.take(0)) =~= Seq::<Seq<char>>::empty());
        assert(string_views(out@) =~= Seq::<Seq<char>>::empty());
    }
    while i < v.len()
        invariant
            i <= v.len(),
            string_views(out@) == dedup_spec(string_views(v@.take(i as int))),
        decreases v.len() - i,
    {
        let ghost pre = string_views(v@.take(i as int));
        let ghost cur = string_views(v@.take(i as int + 1));
        proof {
            assert(cur.drop_last() =~= pre);
            assert(cur.last() == v@[i as int]@);
            lemma_dedup_contains(pre, v@[i as int]@);
        }
        if !contains_string(&out, &v[i]) {
            let ghost before = out@;
            out.push(v[i].clone());
            proof {
                assert(string_views(out@) =~= string_views(before).push(v@[i as int]@));
            }
        }
        i = i + 1;
    }
    proof {
        assert(v@.take(v@.len() as int) =~= v@);
    }
    out
}

/// The attributes with each tag kind and the names reduced to their
/// distinct values, first occurrences in order: what a store keeps.
pub open spec fn distinct_info(i: InfoView) -> InfoView {
    InfoView {
        names: dedup_spec(i.names),
        axes: dedup_spec(i.axes),
        features: dedup_spec(i.features),
        scripts: dedup_spec(i.scripts),
        tables: dedup_spec(i.tables),
        ..i
    }
}

impl FontInfo {
    /// A copy with each tag kind and the names reduced to their distinct
    /// values.
    pub fn distinct(&self) -> (r: FontInfo)
        ensures
            r@ == distinct_info(self@),
    {
        FontInfo {
            name_string: self.name_string.clone(),
            names: dedup_strings(&self.names),
            is_variable: self.is_variable,
            axes: dedup_strings(&self.axes),
            features: dedup_strings(&self.features),
            scripts: dedup_strings(&self.scripts),
            tables: dedup_strings(&self.tables),
            charset_string: self.charset_string.clone(),
        }
    }
}

/// The pieces joined with a separator character between neighbours.
pub open spec fn join_spec(s: Seq<Seq<char>>, sep: char) -> Seq<char>
    decreases s.len(),
{
    if s.len() == 0 {
        Seq::empty()
    } else if s.len() == 1 {
        s[0]
    } else {
        join_spec(s.drop_last(), sep).push(sep) + s.last()
    }
}

/// Joins strings with a separator character.
pub fn join_strings(v: &Vec<String>, sep: char) -> (r: String)
    ensures
        r@ == join_spec(string_views(v@), sep),
{
    let mut out = String::new();
    let mut i: usize = 0;
    proof {
        assert(string_views(v@.take(0)) =~= Seq::<Seq<char>>::empty());
    }
    while i < v.len()
        invariant
            i <= v.len(),
            out@ == join_spec(string_views(v@.take(i as int)), sep),
        decreases v.len() - i,
    {
        let ghost cur = string_views(v@.take(i as int + 1));
        proof {
            assert(cur.drop_last() =~= string_views(v@.take(i as int)));
            assert(cur.last() == v@[i as int]@);
        }
        if i > 0 {
            push_char(&mut out, sep);
        } else {
            proof {
                assert(cur[0] == v@[0]@);
            }
        }
        out.append(v[i].as_str());
        i = i + 1;
    }
    proof {
        assert(v@.take(v@.len() as int) =~= v@);
    }
    out
}

/// The codepoints a charset keeps from a font's character map.
pub open spec fn kept_codepoint(cp: u32) -> bool {
    !invalid_codepoint(cp)
}

/// The set of mapped codepoints that are not left out.
pub fn create_charset(mapped: &Vec<u32>) -> (r: BTreeSet<u32>)
    ensures
        forall|cp: u32| #[trigger] r@.contains(cp) <==> (mapped@.contains(cp) && kept_codepoint(cp)),
{
    let mut charset: BTreeSet<u32> = BTreeSet::new();
    let mut i: usize = 0;
    while i < mapped.len()
        invariant
            i <= mapped.len(),
            forall|cp: u32|
                #[trigger] charset@.contains(cp) <==> (mapped@.take(i as int).contains(cp)
                    && kept_codepoint(cp)),
        decreases mapped.len() - i,
    {
        let cp = mapped[i];
        let ghost before = charset@;
        if !is_invalid_unicode(cp) {
            charset.insert(cp);
            proof {
                assert(vstd::laws_cmp::obeys_cmp::<u32>());
                assert(charset@ == before.insert(cp));
            }
        }
        proof {
            let t0 = mapped@.take(i as int);
            let t1 = mapped@.take(i as int + 1);
            assert forall|x: u32|
                charset@.contains(x) <==> (t1.contains(x) && kept_codepoint(x)) by {
                assert(before.contains(x) <==> (t0.contains(x) && kept_codepoint(x)));
                if t1.contains(x) && x != cp {
                    let k = choose|k: int| 0 <= k < t1.len() && #[trigger] t1[k] == x;
                    assert(t0[k] == x);
                }
                if t0.contains(x) {
                    let k = choose|k: int| 0 <= k < t0.len() && #[trigger] t0[k] == x;
                    assert(t1[k] == x);
                }
                assert(t1[i as int] == cp);
            }
        }
        i = i + 1;
    }
    proof {
        assert(mapped@.take(mapped@.len() as int) =~= mapped@);
    }
    charset
}

/// Whether a sequence of codepoints is strictly increasing.
pub open spec fn strictly_increasing(s: Seq<u32>) -> bool {
    forall|i: int, j: int| 0 <= i < j < s.len() ==> s[i] < s[j]
}

fn insert_sorted(v: &mut Vec<u32>, x: u32)
    requires
        strictly_increasing(old(v)@),
    ensures
        strictly_increasing(final(v)@),
        forall|y: u32| final(v)@.contains(y) <==> (old(v)@.contains(y) || y == x),
{
    let mut i: usize = 0;
    while i < v.len() && v[i] < x
        invariant
            i <= v.len(),
            v@ == old(v)@,
            forall|k: int| 0 <= k < i ==> v@[k] < x,
        decreases v.len() - i,
    {
        i = i + 1;
    }
    if i < v.len() && v[i] == x {
        proof {
            assert(v@[i as int] == x);
        }
        return;
    }
    let ghost before = v@;
    v.insert(i, x);
    proof {
        assert(before == old(v)@);
        assert(v@ =~= before.take(i as int).push(x) + before.skip(i as int));
        assert forall|a: int, b: int| 0 <= a < b < v@.len() implies v@[a] < v@[b] by {
            if b > i && a < i {
                assert(before[a] < before[b - 1]);
            }
            if a > i {
                assert(before[a - 1] < before[b - 1]);
            }
            if b < i {
                assert(before[a] < before[b]);
            }
            if a == i && b > i + 1 {
                assert(before[i as int] < before[b - 1]);
            }
        }
        assert forall|y: u32| v@.contains(y) <==> (before.contains(y) || y == x) by {
            if v@.contains(y) && y != x {
                let k = choose|k: int| 0 <= k < v@.len() && v@[k] == y;
                if k < i {
                    assert(before[k] == y);
                } else {
                    assert(before[k - 1] == y);
                }
            }
            if before.contains(y) {
                let k = choose|k: int| 0 <= k < before.len() && before[k] == y;
                if k < i {
                    assert(v@[k] == y);
                } else {
                    assert(v@[k + 1] == y);
                }
            }
            if y == x {
                assert(v@[i as int] == x);
            }
        }
    }
}

/// The characters of a charset in increasing order: exactly its members
/// that are Unicode scalar values.
pub fn charset_to_string(charset: &BTreeSet<u32>) -> (r: String)
    ensures
        strictly_increasing(code_values(r@)),
        forall|cp: u32| #[trigger]
            code_values(r@).contains(cp) <==> (charset@.contains(cp) && is_scalar(cp)),
{
    let mut sorted: Vec<u32> = Vec::new();
    let ghost rem = vstd::std_specs::btree::spec_btree_keys_iter(charset).remaining();
    let ghost ks = rem.unref();
    proof {
        assert(vstd::laws_cmp::obeys_cmp::<u32>());
    }
    for cp in it: charset.iter()
        invariant
            it.seq() == rem,
            ks == rem.unref(),
            ks.to_set() == charset@,
            strictly_increasing(sorted@),
            forall|y: u32| #[trigger]
                sorted@.contains(y) <==> (ks.take(it.index() as int).contains(y) && is_scalar(y)),
    {
        let ghost i = it.index();
        let ghost before = sorted@;
        if char_from_u32(*cp).is_some() {
            insert_sorted(&mut sorted, *cp);
        }
        proof {
            let t0 = ks.take(i as int);
            let t1 = ks.take(i + 1);
            assert(i < rem.len());
            assert(*cp == *rem[i as int]);
            assert(ks[i as int] == *rem[i as int]);
            assert(t1[i as int] == *cp);
            assert forall|y: u32| #[trigger]
                sorted@.contains(y) <==> (t1.contains(y) && is_scalar(y)) by {
                assert(before.contains(y) <==> (t0.contains(y) && is_scalar(y)));
                if t1.contains(y) && y != *cp {
                    let k = choose|k: int| 0 <= k < t1.len() && #[trigger] t1[k] == y;
                    assert(t0[k] == y);
                }
                if t0.contains(y) {
                    let k = choose|k: int| 0 <= k < t0.len() && #[trigger] t0[k] == y;
                    assert(t1[k] == y);
                }
            }
        }
    }
    let mut out: Vec<char> = Vec::new();
    let mut j: usize = 0;
    proof {
        assert forall|k: int| 0 <= k < sorted@.len() implies is_scalar(#[trigger] sorted@[k]) by {
            assert(sorted@.contains(sorted@[k]));
        }
        assert(code_values(out@) =~= sorted@.take(0));
    }
    while j < sorted.len()
        invariant
            j <= sorted.len(),
            forall|k: int| 0 <= k < sorted@.len() ==> is_scalar(#[trigger] sorted@[k]),
            code_values(out@) == sorted@.take(j as int),
        decreases sorted.len() - j,
    {
        proof {
            assert(sorted@.contains(sorted@[j as int]));
        }
        let c = char_from_u32(sorted[j]);
        let ghost before = out@;
        match c {
            Some(ch) => {
                out.push(ch);
                proof {
                    assert(ch as u32 == sorted@[j as int]);
                    assert(code_values(before) == sorted@.take(j as int));
                    assert(code_values(out@) =~= code_values(before).push(ch as u32));
                    assert(code_values(out@) =~= sorted@.take(j as int + 1));
                }
            },
            None => {},
        }
        j = j + 1;
    }
    proof {
        assert(ks.take(ks.len() as int) =~= ks);
        assert(sorted@.take(sorted@.len() as int) =~= sorted@);
        assert forall|x: u32| ks.contains(x) <==> charset@.contains(x) by {
            assert(ks.to_set().contains(x) <==> ks.contains(x));
        }
    }
    string_of(&out)
}

impl FontInfo {
    /// Assembles the record from what a font parser reports: every name
    /// string, the axis tags, the feature and script tags of both layout
    /// tables, the table tags and every codepoint of the character map.
    pub fn from_extracted(
        names: &Vec<String>,
        axes: &Vec<String>,
        features: &Vec<String>,
        scripts: &Vec<String>,
        tables: &Vec<String>,
        mapped: &Vec<u32>,
    ) -> (r: FontInfo)
        ensures
            r@.name == join_spec(dedup_spec(string_views(names@)), ' '),
            r@.names == dedup_spec(string_views(names@)),
            r@.is_variable == (axes@.len() > 0),
            r@.axes == string_views(axes@),
            r@.features == dedup_spec(string_views(features@)),
            r@.scripts == dedup_spec(string_views(scripts@)),
            r@.tables == string_views(tables@),
            strictly_increasing(code_values(r@.charset)),
            forall|cp: u32|
                #[trigger] code_values(r@.charset).contains(cp) <==> (mapped@.contains(cp)
                    && kept_codepoint(cp) && is_scalar(cp)),
    {
        let distinct_names = dedup_strings(names);
        let charset = create_charset(mapped);
        let charset_string = charset_to_string(&charset);
        proof {
            assert forall|cp: u32|
                code_values(charset_string@).contains(cp) <==> (mapped@.contains(cp)
                    && kept_codepoint(cp) && is_scalar(cp)) by {
                assert(charset@.contains(cp) <==> (mapped@.contains(cp) && kept_codepoint(cp)));
                assert(code_values(charset_string@).contains(cp) <==> (charset@.contains(cp)
                    && is_scalar(cp)));
            }
        }
        FontInfo {
            name_string: join_strings(&distinct_names, ' '),
            names: distinct_names,
            is_variable: axes.len() > 0,
            axes: copy_strings(axes.as_slice()),
            features: dedup_strings(features),
            scripts: dedup_strings(scripts),
            tables: copy_strings(tables.as_slice()),
            charset_string,
        }
    }
}

/// The last of the pieces that is neither empty nor `.`, if any: the file
/// name of a path split at its slashes.
pub open spec fn last_component(parts: Seq<Seq<char>>) -> Option<Seq<char>>
    decreases parts.len(),
{
    if parts.len() == 0 {
        None
    } else if parts.last().len() == 0 || parts.last() == seq!['.'] {
        last_component(parts.drop_last())
    } else {
        Some(parts.last())
    }
}

/// The extension of a path, as `Path::extension` gives it: the text after
/// the last dot of the file name, when that dot is not its first character;
/// none for a file name `..` or a path without one.
pub open spec fn extension_of(path: Seq<char>) -> Option<Seq<char>> {
    match last_component(split_spec(path, '/')) {
        None => None,
        Some(name) => {
            let pieces = split_spec(name, '.');
            if pieces.len() < 2 || name == seq!['.', '.'] || (pieces.len() == 2 && pieces[0].len()
                == 0) {
                None
            } else {
                Some(pieces.last())
            }
        },
    }
}

fn extension(path: &str) -> (r: Option<String>)
    ensures
        r matches Some(e) ==> extension_of(path@) == Some(e@),
        r is None ==> extension_of(path@) is None,
{
    let cs = chars_of(path);
    let components = split_chars(&cs, '/');
    let ghost parts = views_of(components@);
    let mut k: usize = components.len();
    proof {
        assert(parts.take(k as int) =~= parts);
    }
    while k > 0 && (components[k - 1].len() == 0 || (components[k - 1].len() == 1
        && components[k - 1][0] == '.'))
        invariant
            k <= components@.len(),
            parts == views_of(components@),
            last_component(parts.take(k as int)) == last_component(split_spec(cs@, '/')),
            cs@ == path@,
        decreases k,
    {
        proof {
            assert(parts.take(k as int).drop_last() =~= parts.take(k as int - 1));
            assert(parts[k - 1] == components@[k - 1]@);
            if components@[k - 1]@.len() == 1 {
                assert(components@[k - 1]@ =~= seq!['.']);
            }
        }
        k = k - 1;
    }
    if k == 0 {
        proof {
            assert(parts.take(0) =~= Seq::<Seq<char>>::empty());
        }
        return None;
    }
    let name = &components[k - 1];
    proof {
        assert(parts[k - 1] == name@);
        if name@.len() == 1 && name@[0] == '.' {
        } else if name@ == seq!['.'] {
            assert(name@[0] == '.');
        }
        assert(last_component(parts.take(k as int)) == Some(name@));
    }
    let pieces = split_chars(name, '.');
    proof {
        lemma_split_nonempty(name@, '.');
        assert(views_of(pieces@)[0] == pieces@[0]@);
        assert(views_of(pieces@)[pieces@.len() - 1] == pieces@[pieces@.len() - 1]@);
    }
    let dotdot = name.len() == 2 && name[0] == '.' && name[1] == '.';
    proof {
        if dotdot {
            assert(name@ =~= seq!['.', '.']);
        }
    }
    if pieces.len() < 2 || dotdot || (pieces.len() == 2 && pieces[0].len() == 0) {
        None
    } else {
        Some(string_of(&pieces[pieces.len() - 1]))
    }
}

/// The lower-case extensions of font files.
pub open spec fn font_extension(e: Seq<char>) -> bool {
    e == seq!['t', 't', 'f'] || e == seq!['o', 't', 'f'] || e == seq!['t', 't', 'c'] || e == seq![
        'o',
        't',
        'c',
    ]
}

/// Whether a lower-case extension is that of a font file.
pub fn is_font_extension(lower_ext: &str) -> (r: bool)
    ensures
        r == font_extension(lower_ext@),
{
    let e = chars_of(lower_ext);
    if e.len() != 3 {
        return false;
    }
    let r = (e[0] == 't' && e[1] == 't' && e[2] == 'f') || (e[0] == 'o' && e[1] == 't' && e[2]
        == 'f') || (e[0] == 't' && e[1] == 't' && e[2] == 'c') || (e[0] == 'o' && e[1] == 't'
        && e[2] == 'c');
    proof {
        if e[0] == 't' && e[1] == 't' && e[2] == 'f' {
            assert(e@ =~= seq!['t', 't', 'f']);
        }
        if e[0] == 'o' && e[1] == 't' && e[2] == 'f' {
            assert(e@ =~= seq!['o', 't', 'f']);
        }
        if e[0] == 't' && e[1] == 't' && e[2] == 'c' {
            assert(e@ =~= seq!['t', 't', 'c']);
        }
        if e[0] == 'o' && e[1] == 't' && e[2] == 'c' {
            assert(e@ =~= seq!['o', 't', 'c']);
        }
    }
    r
}

impl FontInfo {
    /// Whether a path names a font file by its extension, ASCII letters
    /// compared without regard to case (no other character lowers to one of
    /// the letters of a font extension, so full lower-casing would agree).
    pub fn is_font_file(path: &str) -> (r: bool)
        ensures
            r == (extension_of(path@) matches Some(e) && font_extension(fold_ascii(e))),
    {
        match extension(path) {
            Some(ext) => {
                let cs = chars_of(ext.as_str());
                let lower = string_of(&to_ascii_lower(&cs));
                is_font_extension(lower.as_str())
            },
            None => false,
        }
    }
}

/// Whether a path names a font file by its extension.
pub fn is_font_file(path: &str) -> (r: bool)
    ensures
        r == (extension_of(path@) matches Some(e) && font_extension(fold_ascii(e))),
{
    FontInfo::is_font_file(path)
}

/// How a tag shows one byte: printable ASCII as itself, any other byte as
/// `{0xNN}` in upper-case hexadecimal.
pub open spec fn byte_text(b: u8) -> Seq<char> {
    if 0x20 <= b && b <= 0x7E {
        seq![b as char]
    } else {
        "{0x"@ + zero_padded(digits_of(b as nat, 16), 2) + "}"@
    }
}

/// How a tag shows its bytes, one after the other.
pub open spec fn tag_text(bytes: Seq<u8>) -> Seq<char>
    decreases bytes.len(),
{
    if bytes.len() == 0 {
        Seq::empty()
    } else {
        tag_text(bytes.drop_last()) + byte_text(bytes.last())
    }
}

/// A four-byte OpenType tag.
#[derive(Debug)]
pub struct Tag {
    bytes: Vec<u8>,
}

impl Tag {
    /// The tag's bytes.
    pub closed spec fn spec_bytes(&self) -> Seq<u8> {
        self.bytes@
    }

    /// The tag as text.
    pub open spec fn spec_text(&self) -> Seq<char> {
        tag_text(self.spec_bytes())
    }

    /// The tag as text: printable ASCII bytes as themselves, others as
    /// `{0xNN}`.
    pub fn to_string(&self) -> (r: String)
        ensures
            r@ == self.spec_text(),
    {
        let mut out = String::new();
        let mut i: usize = 0;
        proof {
            assert(self.bytes@.take(0) =~= Seq::<u8>::empty());
        }
        while i < self.bytes.len()
            invariant
                i <= self.bytes@.len(),
                out@ == tag_text(self.bytes@.take(i as int)),
            decreases self.bytes.len() - i,
        {
            let b = self.bytes[i];
            proof {
                assert(self.bytes@.take(i as int + 1).drop_last() =~= self.bytes@.take(i as int));
            }
            if 0x20 <= b && b <= 0x7E {
                push_char(&mut out, b as char);
                proof {
                    assert(byte_text(b) =~= seq![b as char]);
                }
            } else {
                out.append("{0x");
                let h = crate::text::hex_padded(b as u32, 2);
                out.append(h.as_str());
                out.append("}");
            }
            i = i + 1;
        }
        proof {
            assert(self.bytes@.take(self.bytes@.len() as int) =~= self.bytes@);
        }
        out
    }
}

/// The number of bytes UTF-8 takes for a character.
pub open spec fn utf8_width(c: char) -> nat {
    if (c as u32) < 0x80 {
        1
    } else if (c as u32) < 0x800 {
        2
    } else if (c as u32) < 0x10000 {
        3
    } else {
        4
    }
}

/// The length in bytes of a text's UTF-8 encoding.
pub open spec fn utf8_len(s: Seq<char>) -> nat
    decreases s.len(),
{
    if s.len() == 0 {
        0
    } else {
        utf8_len(s.drop_last()) + utf8_width(s.last())
    }
}

fn is_four_bytes(cs: &Vec<char>) -> (r: bool)
    ensures
        r == (utf8_len(cs@) == 4),
{
    let mut acc: u64 = 0;
    let mut i: usize = 0;
    proof {
        assert(cs@.take(0) =~= Seq::<char>::empty());
    }
    while i < cs.len()
        invariant
            i <= cs.len(),
            acc == if utf8_len(cs@.take(i as int)) < 5 {
                utf8_len(cs@.take(i as int))
            } else {
                5
            },
        decreases cs.len() - i,
    {
        let c = cs[i];
        let w: u64 = if (c as u32) < 0x80 {
            1
        } else if (c as u32) < 0x800 {
            2
        } else if (c as u32) < 0x10000 {
            3
        } else {
            4
        };
        proof {
            assert(cs@.take(i as int + 1).drop_last() =~= cs@.take(i as int));
        }
        acc = if acc + w < 5 { acc + w } else { 5 };
        i = i + 1;
    }
    proof {
        assert(cs@.take(cs@.len() as int) =~= cs@);
    }
    acc == 4
}

/// Parses table tags: each must be exactly four bytes long in UTF-8.
pub fn parse_table_tags(input: &[String]) -> (r: crate::Result<Vec<Tag>>)
    ensures
        r matches Ok(v) ==> v@.len() == input@.len() && forall|i: int|
            0 <= i < v@.len() ==> #[trigger] v@[i].spec_bytes() == vstd::utf8::encode_utf8(input@[i]@),
        r matches Ok(_) <==> forall|i: int| 0 <= i < input@.len() ==> utf8_len(#[trigger] input@[i]@) == 4,
        r is Err ==> exists|i: int| 0 <= i < input@.len()
            && utf8_len(input@[i]@) != 4
            && (forall|j: int| 0 <= j < i ==> utf8_len(#[trigger] input@[j]@) == 4)
            && (r matches Err(FontgrepError::Parse(m)) && m@ == "Invalid table tag: "@ + input@[i]@),
{
    let mut result: Vec<Tag> = Vec::new();
    let mut i: usize = 0;
    while i < input.len()
        invariant
            i <= input@.len(),
            result@.len() == i,
            forall|k: int| 0 <= k < i ==> #[trigger] result@[k].spec_bytes() == vstd::utf8::encode_utf8(input@[k]@),
            forall|k: int| 0 <= k < i ==> utf8_len(#[trigger] input@[k]@) == 4,
        decreases input.len() - i,
    {
        let item = &input[i];
        let cs = chars_of(item.as_str());
        if !is_four_bytes(&cs) {
            let mut m = "Invalid table tag: ".to_string();
            m.append(item.as_str());
            return Err(FontgrepError::Parse(m));
        }
        let raw: &[u8] = item.as_str().as_bytes();
        let mut bytes: Vec<u8> = Vec::new();
        let mut k: usize = 0;
        while k < raw.len()
            invariant
                k <= raw@.len(),
                bytes@ == raw@.take(k as int),
            decreases raw.len() - k,
        {
            bytes.push(raw[k]);
            proof {
                assert(bytes@ =~= raw@.take(k as int + 1));
            }
            k = k + 1;
        }
        proof {
            assert(raw@.take(raw@.len() as int) =~= raw@);
        }
        result.push(Tag { bytes });
        i = i + 1;
    }
    Ok(result)
}

} // verus!
