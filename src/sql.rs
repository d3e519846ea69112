//! Query Builder: renders criteria as one parameterized query over the
//! persisted schema.
use vstd::prelude::*;
use crate::codepoints::string_views;
use crate::font::{copy_strings, dedup_spec, dedup_strings};
use crate::query::{charset_probe, QueryCriteria};
use crate::text::{chars_of, decimal_string, digits_of, push_char};

verus! {

/// Characters that a LIKE pattern treats specially.
pub open spec fn like_meta(c: char) -> bool {
    c == '%' || c == '_' || c == '[' || c == ']' || c == '^' || c == '\\'
}

/// `s` with a backslash before every LIKE metacharacter.
pub open spec fn escape_like_spec(s: Seq<char>) -> Seq<char>
    decreases s.len(),
{
    if s.len() == 0 {
        s
    } else if like_meta(s.last()) {
        escape_like_spec(s.drop_last()).push('\\').push(s.last())
    } else {
        escape_like_spec(s.drop_last()).push(s.last())
    }
}

/// `s` with every single quote doubled, as an SQL string literal needs.
pub open spec fn quote_spec(s: Seq<char>) -> Seq<char>
    decreases s.len(),
{
    if s.len() == 0 {
        s
    } else if s.last() == '\'' {
        quote_spec(s.drop_last()).push('\'').push('\'')
    } else {
        quote_spec(s.drop_last()).push(s.last())
    }
}

/// Escapes the LIKE metacharacters `% _ [ ] ^`, and the escape character
/// `\` itself, with a backslash.
pub fn escape_like_pattern(s: &str) -> (r: String)
    ensures
        r@ == escape_like_spec(s@),
{
    let cs = chars_of(s);
    let mut result = String::new();
    let mut i: usize = 0;
    while i < cs.len()
        invariant
            i <= cs.len(),
            cs@ == s@,
            result@ == escape_like_spec(cs@.take(i as int)),
        decreases cs.len() - i,
    {
        let c = cs[i];
        proof {
            assert(cs@.take(i as int + 1).drop_last() =~= cs@.take(i as int));
        }
        if c == '%' || c == '_' || c == '[' || c == ']' || c == '^' || c == '\\' {
            push_char(&mut result, '\\');
        }
        push_char(&mut result, c);
        i = i + 1;
    }
    proof {
        assert(cs@.take(cs@.len() as int) =~= cs@);
    }
    result
}

fn quote_text(s: &String) -> (r: String)
    ensures
        r@ == quote_spec(s@),
{
    let cs = chars_of(s.as_str());
    let mut result = String::new();
    let mut i: usize = 0;
    while i < cs.len()
        invariant
            i <= cs.len(),
            cs@ == s@,
            result@ == quote_spec(cs@.take(i as int)),
        decreases cs.len() - i,
    {
        let c = cs[i];
        proof {
            assert(cs@.take(i as int + 1).drop_last() =~= cs@.take(i as int));
        }
        if c == '\'' {
            push_char(&mut result, '\'');
        }
        push_char(&mut result, c);
        i = i + 1;
    }
    proof {
        assert(cs@.take(cs@.len() as int) =~= cs@);
    }
    result
}

/// The alias of the `n`-th joined property table.
pub open spec fn alias_spec(n: nat) -> Seq<char> {
    "p"@ + digits_of(n, 10)
}

/// The join that brings in properties of one kind under alias `a`.
pub open spec fn join_spec(a: Seq<char>) -> Seq<char> {
    "JOIN font_properties "@ + a + " ON "@ + a + ".font_id = f.id AND "@ + a + ".kind = ?"@
}

/// The placeholders `?, ?, ...` for `n >= 1` values.
pub open spec fn placeholders_spec(n: nat) -> Seq<char>
    decreases n,
{
    if n <= 1 {
        "?"@
    } else {
        placeholders_spec((n - 1) as nat) + ", ?"@
    }
}

/// The condition that the property under alias `a` takes one of `n` values.
pub open spec fn value_in_spec(a: Seq<char>, n: nat) -> Seq<char> {
    a + ".value IN ("@ + placeholders_spec(n) + ")"@
}

/// The condition that all `n` wanted values occur under alias `a`.
pub open spec fn count_spec(a: Seq<char>, n: nat) -> Seq<char> {
    "COUNT(DISTINCT "@ + a + ".value) = "@ + digits_of(n, 10)
}

/// The text a name pattern is compared with: its LIKE form, quoted.
pub open spec fn name_like_spec(p: Seq<char>) -> Seq<char> {
    if p.len() >= 2 && p[0] == '^' && p.last() == '$' {
        quote_spec(escape_like_spec(p.subrange(1, p.len() - 1)))
    } else if p.len() >= 1 && p[0] == '^' {
        quote_spec(escape_like_spec(p.skip(1))) + "%"@
    } else if p.len() >= 1 && p.last() == '$' {
        "%"@ + quote_spec(escape_like_spec(p.take(p.len() - 1)))
    } else {
        "%"@ + quote_spec(escape_like_spec(p)) + "%"@
    }
}

/// The predicate for one name pattern.
pub open spec fn name_predicate_spec(p: Seq<char>) -> Seq<char> {
    "nf.name LIKE '"@ + name_like_spec(p) + "' ESCAPE '\\'"@
}

/// The predicates of the patterns joined by ` OR `.
pub open spec fn name_predicates_spec(ps: Seq<Seq<char>>) -> Seq<char>
    decreases ps.len(),
{
    if ps.len() == 0 {
        Seq::empty()
    } else if ps.len() == 1 {
        name_predicate_spec(ps[0])
    } else {
        name_predicates_spec(ps.drop_last()) + " OR "@ + name_predicate_spec(ps.last())
    }
}

/// The LIKE parameter that finds character `c` in a charset.
pub open spec fn char_param_spec(c: char) -> Seq<char> {
    "%"@ + escape_like_spec(seq![c]) + "%"@
}

/// `n >= 1` charset predicates joined by ` AND `.
pub open spec fn charset_predicates_spec(n: nat) -> Seq<char>
    decreases n,
{
    if n <= 1 {
        "f.charset LIKE ? ESCAPE '\\'"@
    } else {
        charset_predicates_spec((n - 1) as nat) + " AND f.charset LIKE ? ESCAPE '\\'"@
    }
}

/// The pieces joined by a separator text.
pub open spec fn join_with(ps: Seq<Seq<char>>, sep: Seq<char>) -> Seq<char>
    decreases ps.len(),
{
    if ps.len() == 0 {
        Seq::empty()
    } else if ps.len() == 1 {
        ps[0]
    } else {
        join_with(ps.drop_last(), sep) + sep + ps.last()
    }
}

/// Assembles the parts of a query: joins, WHERE predicates and HAVING
/// conditions, with the parameters of the joins' placeholders and of the
/// predicates' placeholders, each in order.
pub struct QueryBuilder {
    where_clauses: Vec<String>,
    join_clauses: Vec<String>,
    having_clauses: Vec<String>,
    join_params: Vec<String>,
    where_params: Vec<String>,
    join_counter: usize,
}

/// The mathematical content of a `QueryBuilder`.
pub struct BuilderView {
    pub wheres: Seq<Seq<char>>,
    pub joins: Seq<Seq<char>>,
    pub havings: Seq<Seq<char>>,
    pub join_params: Seq<Seq<char>>,
    pub where_params: Seq<Seq<char>>,
    pub counter: nat,
}

impl View for QueryBuilder {
    type V = BuilderView;

    closed spec fn view(&self) -> BuilderView {
        BuilderView {
            wheres: string_views(self.where_clauses@),
            joins: string_views(self.join_clauses@),
            havings: string_views(self.having_clauses@),
            join_params: string_views(self.join_params@),
            where_params: string_views(self.where_params@),
            counter: self.join_counter as nat,
        }
    }
}

/// A builder after `with_variable`.
pub open spec fn add_variable_spec(b: BuilderView) -> BuilderView {
    BuilderView { wheres: b.wheres.push("f.is_variable = 1"@), ..b }
}

/// A builder after `with_property` for one kind and its distinct wanted tags.
pub open spec fn add_property_spec(b: BuilderView, kind: Seq<char>, tags: Seq<Seq<char>>) -> BuilderView {
    if tags.len() == 0 {
        b
    } else {
        let a = alias_spec((b.counter + 1) as nat);
        BuilderView {
            wheres: b.wheres.push(value_in_spec(a, tags.len())),
            joins: b.joins.push(join_spec(a)),
            havings: b.havings.push(count_spec(a, tags.len())),
            join_params: b.join_params.push(kind),
            where_params: b.where_params + tags,
            counter: b.counter + 1,
        }
    }
}

/// A builder after `with_name_patterns`.
pub open spec fn add_names_spec(b: BuilderView, ps: Seq<Seq<char>>) -> BuilderView {
    if ps.len() == 0 {
        b
    } else {
        BuilderView {
            wheres: b.wheres.push(
                "EXISTS (SELECT 1 FROM font_names nf WHERE nf.font_id = f.id AND "@ + ("("@
                    + name_predicates_spec(ps) + ")"@) + ")"@,
            ),
            ..b
        }
    }
}

/// A builder after `with_charset`.
pub open spec fn add_charset_spec(b: BuilderView, cs: Seq<char>) -> BuilderView {
    if cs.len() == 0 {
        b
    } else {
        let probe = charset_probe(cs);
        BuilderView {
            wheres: b.wheres.push("("@ + charset_predicates_spec(probe.len()) + ")"@),
            where_params: b.where_params + probe.map_values(|c: char| char_param_spec(c)),
            ..b
        }
    }
}

/// The builder for a set of criteria: variable flag, axes, features,
/// scripts, tables, name patterns and charset, in this order.
pub open spec fn criteria_builder_spec(c: crate::query::CriteriaView) -> BuilderView {
    let b0 = BuilderView {
        wheres: Seq::empty(),
        joins: Seq::empty(),
        havings: Seq::empty(),
        join_params: Seq::empty(),
        where_params: Seq::empty(),
        counter: 0,
    };
    let b1 = if c.variable { add_variable_spec(b0) } else { b0 };
    let b2 = add_property_spec(b1, "axis"@, dedup_spec(c.axes));
    let b3 = add_property_spec(b2, "feature"@, dedup_spec(c.features));
    let b4 = add_property_spec(b3, "script"@, dedup_spec(c.scripts));
    let b5 = add_property_spec(b4, "table"@, dedup_spec(c.tables));
    let b6 = add_names_spec(b5, c.name_patterns);
    add_charset_spec(b6, c.charset)
}

/// The query text of a builder's parts.
pub open spec fn render_spec(b: BuilderView) -> Seq<char> {
    let base = "SELECT DISTINCT f.path FROM fonts f"@;
    let with_joins = if b.joins.len() == 0 { base } else { base + " "@ + join_with(b.joins, " "@) };
    let with_where = if b.wheres.len() == 0 {
        with_joins
    } else {
        with_joins + " WHERE "@ + join_with(b.wheres, " AND "@)
    };
    if b.havings.len() == 0 {
        with_where
    } else {
        with_where + " GROUP BY f.id HAVING "@ + join_with(b.havings, " AND "@)
    }
}

fn cat(a: &String, b: &str) -> (r: String)
    ensures
        r@ == a@ + b@,
{
    let mut r = a.clone();
    r.append(b);
    r
}

fn join_strs(parts: &Vec<String>, sep: &str) -> (r: String)
    ensures
        r@ == join_with(string_views(parts@), sep@),
{
    let mut out = String::new();
    let mut i: usize = 0;
    proof {
        assert(string_views(parts@.take(0)) =~= Seq::<Seq<char>>::empty());
    }
    while i < parts.len()
        invariant
            i <= parts.len(),
            out@ == join_with(string_views(parts@.take(i as int)), sep@),
        decreases parts.len() - i,
    {
        let ghost cur = string_views(parts@.take(i as int + 1));
        proof {
            assert(cur.drop_last() =~= string_views(parts@.take(i as int)));
            assert(cur.last() == parts@[i as int]@);
        }
        if i > 0 {
            out.append(sep);
            out.append(parts[i].as_str());
        } else {
            proof {
                assert(cur[0] == parts@[0]@);
            }
            out.append(parts[i].as_str());
            proof {
                assert(out@ =~= parts@[0]@);
            }
        }
        i = i + 1;
    }
    proof {
        assert(parts@.take(parts@.len() as int) =~= parts@);
    }
    out
}

impl QueryBuilder {
    /// A builder with no parts.
    pub fn new() -> (r: QueryBuilder)
        ensures
            r@.wheres.len() == 0 && r@.joins.len() == 0 && r@.havings.len() == 0
                && r@.join_params.len() == 0 && r@.where_params.len() == 0 && r@.counter == 0,
    {
        QueryBuilder {
            where_clauses: Vec::new(),
            join_clauses: Vec::new(),
            having_clauses: Vec::new(),
            join_params: Vec::new(),
            where_params: Vec::new(),
            join_counter: 0,
        }
    }

    /// Keeps only variable fonts.
    pub fn with_variable(self) -> (r: QueryBuilder)
        ensures
            r@ == add_variable_spec(self@),
    {
        let mut b = self;
        let ghost before = string_views(b.where_clauses@);
        b.where_clauses.push("f.is_variable = 1".to_string());
        proof {
            assert(string_views(b.where_clauses@) =~= before.push("f.is_variable = 1"@));
        }
        b
    }

    /// Keeps only fonts having every given tag of one kind: one join with a
    /// fresh alias, the kind and each distinct tag bound in order, and a
    /// count that all distinct tags occur. No tags leave the builder as it is.
    pub fn with_property(self, prop_type: &str, wanted: &[String]) -> (r: QueryBuilder)
        requires
            self@.counter < usize::MAX,
        ensures
            r@ == add_property_spec(self@, prop_type@, dedup_spec(string_views(wanted@))),
    {
        let owned = copy_strings(wanted);
        let uniq = dedup_strings(&owned);
        let tags = uniq.as_slice();
        if tags.len() == 0 {
            return self;
        }
        let mut b = self;
        b.join_counter = b.join_counter + 1;
        let digits = decimal_string_usize(b.join_counter);
        let alias = cat(&"p".to_string(), digits.as_str());
        let j = cat(&cat(&cat(&cat(&cat(&cat(&"JOIN font_properties ".to_string(), alias.as_str()),
            " ON "), alias.as_str()), ".font_id = f.id AND "), alias.as_str()), ".kind = ?");
        let ghost joins0 = string_views(b.join_clauses@);
        b.join_clauses.push(j);
        proof {
            assert(string_views(b.join_clauses@) =~= joins0.push(j@));
        }
        let ghost jparams0 = string_views(b.join_params@);
        b.join_params.push(prop_type.to_string());
        proof {
            assert(string_views(b.join_params@) =~= jparams0.push(prop_type@));
        }
        let mut ph = "?".to_string();
        let mut k: usize = 1;
        let ghost params1 = string_views(b.where_params@);
        b.where_params.push(tags[0].clone());
        proof {
            assert(string_views(b.where_params@) =~= params1 + string_views(tags@.take(1)));
        }
        let ghost jc = b.join_clauses@;
        let ghost wc = b.where_clauses@;
        let ghost hc = b.having_clauses@;
        let ghost jp = b.join_params@;
        let ghost cnt = b.join_counter;
        while k < tags.len()
            invariant
                1 <= k <= tags@.len(),
                b.join_params@ == jp,
                b.join_clauses@ == jc,
                b.where_clauses@ == wc,
                b.having_clauses@ == hc,
                b.join_counter == cnt,
                ph@ == placeholders_spec(k as nat),
                string_views(b.where_params@) == params1 + string_views(tags@.take(k as int)),
            decreases tags.len() - k,
        {
            ph.append(", ?");
            let ghost pv = string_views(b.where_params@);
            b.where_params.push(tags[k].clone());
            proof {
                assert(string_views(b.where_params@) =~= pv.push(tags@[k as int]@));
                assert(string_views(tags@.take(k as int + 1)) =~= string_views(tags@.take(k as int)).push(tags@[k as int]@));
                assert(params1 + string_views(tags@.take(k as int + 1)) =~= (params1 + string_views(tags@.take(k as int))).push(tags@[k as int]@));
            }
            k = k + 1;
        }
        proof {
            assert(tags@.take(tags@.len() as int) =~= tags@);
            assert(string_views(tags@) == dedup_spec(string_views(wanted@)));
        }
        let w = cat(&cat(&cat(&alias, ".value IN ("), ph.as_str()), ")");
        let ghost wheres0 = string_views(b.where_clauses@);
        b.where_clauses.push(w);
        proof {
            assert(string_views(b.where_clauses@) =~= wheres0.push(w@));
        }
        let n = decimal_string_usize(tags.len());
        let h = cat(&cat(&cat(&"COUNT(DISTINCT ".to_string(), alias.as_str()), ".value) = "), n.as_str());
        let ghost havings0 = string_views(b.having_clauses@);
        b.having_clauses.push(h);
        proof {
            assert(string_views(b.having_clauses@) =~= havings0.push(h@));
        }
        b
    }

    /// Keeps only fonts of which at least one name string (a row of
    /// `font_names`) matches at least one pattern; the patterns are written
    /// into the query with quotes doubled and LIKE metacharacters escaped.
    /// No patterns leave the builder as it is.
    pub fn with_name_patterns(self, patterns: &[String]) -> (r: QueryBuilder)
        ensures
            r@ == add_names_spec(self@, string_views(patterns@)),
    {
        if patterns.len() == 0 {
            return self;
        }
        let mut b = self;
        let mut cond = "(".to_string();
        let mut i: usize = 0;
        proof {
            assert(string_views(patterns@.take(0)) =~= Seq::<Seq<char>>::empty());
            assert(cond@ =~= "("@ + name_predicates_spec(Seq::<Seq<char>>::empty()));
        }
        while i < patterns.len()
            invariant
                i <= patterns@.len(),
                cond@ == "("@ + name_predicates_spec(string_views(patterns@.take(i as int))),
            decreases patterns.len() - i,
        {
            let ghost cur = string_views(patterns@.take(i as int + 1));
            proof {
                assert(cur.drop_last() =~= string_views(patterns@.take(i as int)));
                assert(cur.last() == patterns@[i as int]@);
            }
            let pred = name_predicate(&patterns[i]);
            if i > 0 {
                cond.append(" OR ");
                cond.append(pred.as_str());
            } else {
                cond.append(pred.as_str());
                proof {
                    assert(cur[0] == patterns@[0]@);
                    assert("("@ + name_predicates_spec(Seq::<Seq<char>>::empty()) =~= "("@);
                }
            }
            i = i + 1;
        }
        proof {
            assert(patterns@.take(patterns@.len() as int) =~= patterns@);
        }
        cond.append(")");
        let full = cat(
            &cat(&"EXISTS (SELECT 1 FROM font_names nf WHERE nf.font_id = f.id AND ".to_string(), cond.as_str()),
            ")",
        );
        let ghost wheres0 = string_views(b.where_clauses@);
        b.where_clauses.push(full);
        proof {
            assert(string_views(b.where_clauses@) =~= wheres0.push(full@));
        }
        b
    }

    /// Keeps only fonts whose charset holds the probed characters of the
    /// text (see `charset_probe`), each bound as a LIKE parameter. An empty
    /// text leaves the builder as it is.
    pub fn with_charset(self, charset: &str) -> (r: QueryBuilder)
        ensures
            r@ == add_charset_spec(self@, charset@),
    {
        let all = chars_of(charset);
        if all.len() == 0 {
            return self;
        }
        let n: usize = if all.len() <= 10 { all.len() } else { 5 };
        let ghost probe = charset_probe(charset@);
        proof {
            assert(probe =~= all@.take(n as int));
        }
        let mut b = self;
        let ghost params0 = string_views(b.where_params@);
        let mut cond = cat(&"(".to_string(), "f.charset LIKE ? ESCAPE '\\'");
        let mut i: usize = 0;
        let ghost jc = b.join_clauses@;
        let ghost wc = b.where_clauses@;
        let ghost hc = b.having_clauses@;
        let ghost jp = b.join_params@;
        let ghost cnt = b.join_counter;
        while i < n
            invariant
                b.join_params@ == jp,
                b.join_clauses@ == jc,
                b.where_clauses@ == wc,
                b.having_clauses@ == hc,
                b.join_counter == cnt,
                n <= all@.len(),
                1 <= n,
                i <= n,
                probe == all@.take(n as int),
                i >= 1 ==> cond@ == "("@ + charset_predicates_spec(i as nat),
                i == 0 ==> cond@ == "("@ + charset_predicates_spec(1),
                string_views(b.where_params@) == params0 + all@.take(i as int).map_values(|c: char| char_param_spec(c)),
            decreases n - i,
        {
            if i > 0 {
                cond.append(" AND f.charset LIKE ? ESCAPE '\\'");
            }
            let c = all[i];
            let mut one = String::new();
            push_char(&mut one, c);
            let esc = escape_like_pattern(one.as_str());
            let p = cat(&cat(&"%".to_string(), esc.as_str()), "%");
            let ghost pv = string_views(b.where_params@);
            b.where_params.push(p);
            proof {
                assert(one@ =~= seq![c]);
                assert(string_views(b.where_params@) =~= pv.push(p@));
                assert(all@.take(i as int + 1).map_values(|c: char| char_param_spec(c)) =~= all@.take(i as int).map_values(|c: char| char_param_spec(c)).push(char_param_spec(c)));
                assert(params0 + all@.take(i as int + 1).map_values(|c: char| char_param_spec(c)) =~= (params0 + all@.take(i as int).map_values(|c: char| char_param_spec(c))).push(char_param_spec(c)));
            }
            i = i + 1;
        }
        cond.append(")");
        let ghost wheres0 = string_views(b.where_clauses@);
        b.where_clauses.push(cond);
        proof {
            assert(string_views(b.where_clauses@) =~= wheres0.push(cond@));
        }
        b
    }

    /// The query text and its parameters: those of the joins, then those of
    /// the predicates, as their placeholders occur in the text.
    pub fn build(self) -> (r: (String, Vec<String>))
        ensures
            r.0@ == render_spec(self@),
            string_views(r.1@) == self@.join_params + self@.where_params,
    {
        let mut query = "SELECT DISTINCT f.path FROM fonts f".to_string();
        if self.join_clauses.len() > 0 {
            query.append(" ");
            let j = join_strs(&self.join_clauses, " ");
            query.append(j.as_str());
        }
        if self.where_clauses.len() > 0 {
            query.append(" WHERE ");
            let w = join_strs(&self.where_clauses, " AND ");
            query.append(w.as_str());
        }
        if self.having_clauses.len() > 0 {
            query.append(" GROUP BY f.id HAVING ");
            let h = join_strs(&self.having_clauses, " AND ");
            query.append(h.as_str());
        }
        let mut params = self.join_params;
        let mut rest = self.where_params;
        let ghost jp = string_views(params@);
        let ghost wp = string_views(rest@);
        params.append(&mut rest);
        proof {
            assert(string_views(params@) =~= jp + wp);
        }
        (query, params)
    }
}

fn name_predicate(p: &String) -> (r: String)
    ensures
        r@ == name_predicate_spec(p@),
{
    let cs = chars_of(p.as_str());
    let len = cs.len();
    let body = if len >= 2 && cs[0] == '^' && cs[len - 1] == '$' {
        let inner = crate::text::string_of(&crate::query::sub_chars(&cs, 1, len - 1));
        quote_text(&escape_like_pattern(inner.as_str()))
    } else if len >= 1 && cs[0] == '^' {
        let inner = crate::text::string_of(&crate::query::sub_chars(&cs, 1, len));
        proof {
            assert(inner@ =~= p@.skip(1));
        }
        cat(&quote_text(&escape_like_pattern(inner.as_str())), "%")
    } else if len >= 1 && cs[len - 1] == '$' {
        let inner = crate::text::string_of(&crate::query::sub_chars(&cs, 0, len - 1));
        proof {
            assert(inner@ =~= p@.take(len - 1));
        }
        let q = quote_text(&escape_like_pattern(inner.as_str()));
        cat(&"%".to_string(), q.as_str())
    } else {
        let q = quote_text(&escape_like_pattern(p.as_str()));
        cat(&cat(&"%".to_string(), q.as_str()), "%")
    };
    cat(&cat(&"nf.name LIKE '".to_string(), body.as_str()), "' ESCAPE '\\'")
}

fn decimal_string_usize(n: usize) -> (r: String)
    ensures
        r@ == digits_of(n as nat, 10),
{
    if n <= u32::MAX as usize {
        decimal_string(n as u32)
    } else {
        let v = decimal_vec_usize(n);
        crate::text::string_of(&v)
    }
}

fn decimal_vec_usize(n: usize) -> (r: Vec<char>)
    ensures
        r@ == digits_of(n as nat, 10),
    decreases n,
{
    let d = (n % 10) as u32;
    let c = if d == 0 { '0' } else if d == 1 { '1' } else if d == 2 { '2' } else if d == 3 { '3' }
        else if d == 4 { '4' } else if d == 5 { '5' } else if d == 6 { '6' } else if d == 7 { '7' }
        else if d == 8 { '8' } else { '9' };
    if n < 10 {
        let mut v: Vec<char> = Vec::new();
        v.push(c);
        v
    } else {
        let mut v = decimal_vec_usize(n / 10);
        v.push(c);
        v
    }
}

/// The query and parameters that select the stored fonts satisfying the
/// criteria: the variable flag, one join per tag kind, the name patterns
/// and the charset, each only when active.
pub fn build_query(criteria: &QueryCriteria) -> (r: (String, Vec<String>))
    ensures
        r.0@ == render_spec(criteria_builder_spec(criteria@)),
        string_views(r.1@) == criteria_builder_spec(criteria@).join_params + criteria_builder_spec(
            criteria@,
        ).where_params,
{
    let mut builder = QueryBuilder::new();
    let ghost b0 = BuilderView {
        wheres: Seq::empty(),
        joins: Seq::empty(),
        havings: Seq::empty(),
        join_params: Seq::empty(),
        where_params: Seq::empty(),
        counter: 0,
    };
    proof {
        assert(builder@.wheres =~= b0.wheres);
        assert(builder@.joins =~= b0.joins);
        assert(builder@.havings =~= b0.havings);
        assert(builder@.join_params =~= b0.join_params);
        assert(builder@.where_params =~= b0.where_params);
        assert(builder@ == b0);
    }
    if criteria.variable {
        builder = builder.with_variable();
        proof {
            assert(builder@ == add_variable_spec(b0));
        }
    }
    let ghost b1 = builder@;
    builder = builder.with_property("axis", criteria.axes.as_slice());
    proof {
        assert(builder@ == add_property_spec(b1, "axis"@, dedup_spec(criteria@.axes)));
    }
    let ghost b2 = builder@;
    builder = builder.with_property("feature", criteria.features.as_slice());
    proof {
        assert(builder@ == add_property_spec(b2, "feature"@, dedup_spec(criteria@.features)));
    }
    let ghost b3 = builder@;
    builder = builder.with_property("script", criteria.scripts.as_slice());
    proof {
        assert(builder@ == add_property_spec(b3, "script"@, dedup_spec(criteria@.scripts)));
    }
    let ghost b4 = builder@;
    builder = builder.with_property("table", criteria.tables.as_slice());
    proof {
        assert(builder@ == add_property_spec(b4, "table"@, dedup_spec(criteria@.tables)));
    }
    let ghost b5 = builder@;
    builder = builder.with_name_patterns(criteria.name_patterns.as_slice());
    proof {
        assert(builder@ == add_names_spec(b5, criteria@.name_patterns));
    }
    let ghost b6 = builder@;
    builder = builder.with_charset(criteria.charset.as_str());
    proof {
        assert(builder@ == add_charset_spec(b6, criteria@.charset));
        assert(builder@ == criteria_builder_spec(criteria@));
    }
    builder.build()
}

} // verus!
