//! Codepoints: which ones a charset keeps, and how they are written on input.
use vstd::prelude::*;
use crate::text::{
    char_from_u32, chars_of, decimal_string, digits_of, hex4_string, is_scalar, split_chars,
    split_spec, string_of, views_of, zero_padded,
};
use crate::FontgrepError;

verus! {

/// Codepoints that a charset never holds: C0 and C1 controls, DEL,
/// surrogates, the noncharacters U+FDD0..U+FDEF, and the last two
/// codepoints of every plane.
pub open spec fn invalid_codepoint(cp: u32) -> bool {
    cp <= 0x1F || cp == 0x7F || (0x80 <= cp && cp <= 0x9F) || (0xD800 <= cp && cp <= 0xDFFF)
        || (0xFDD0 <= cp && cp <= 0xFDEF) || (cp % 0x10000 >= 0xFFFE && cp <= 0x10FFFF)
}

/// Whether a codepoint is left out of a charset.
pub fn is_invalid_unicode(codepoint: u32) -> (r: bool)
    ensures
        r == invalid_codepoint(codepoint),
{
    codepoint <= 0x1F || codepoint == 0x7F || (0x80 <= codepoint && codepoint <= 0x9F) || (0xD800
        <= codepoint && codepoint <= 0xDFFF) || (0xFDD0 <= codepoint && codepoint <= 0xFDEF) || (
    codepoint % 0x10000 >= 0xFFFE && codepoint <= 0x10FFFF)
}

/// Why a text is not a number, in the terms of std's integer parsing.
#[derive(Debug, Clone, Copy, PartialEq, Eq)]
pub enum IntErrorKind {
    Empty,
    InvalidDigit,
    PosOverflow,
}

impl IntErrorKind {
    /// The message std gives for this kind of failure.
    pub open spec fn spec_text(&self) -> Seq<char> {
        match self {
            IntErrorKind::Empty => "cannot parse integer from empty string"@,
            IntErrorKind::InvalidDigit => "invalid digit found in string"@,
            IntErrorKind::PosOverflow => "number too large to fit in target type"@,
        }
    }

    /// The message std gives for this kind of failure.
    pub fn text(&self) -> (r: String)
        ensures
            r@ == self.spec_text(),
    {
        match self {
            IntErrorKind::Empty => "cannot parse integer from empty string".to_string(),
            IntErrorKind::InvalidDigit => "invalid digit found in string".to_string(),
            IntErrorKind::PosOverflow => "number too large to fit in target type".to_string(),
        }
    }
}

/// The value of a hexadecimal digit, or -1 for any other character.
pub open spec fn hex_digit_value(c: char) -> int {
    if '0' <= c && c <= '9' {
        c as int - '0' as int
    } else if 'a' <= c && c <= 'f' {
        c as int - 'a' as int + 10
    } else if 'A' <= c && c <= 'F' {
        c as int - 'A' as int + 10
    } else {
        -1
    }
}

/// Reads hexadecimal digits left to right after `acc`, failing at the first
/// character that is no digit or at the first digit that overflows `u32`.
pub open spec fn hex_scan(acc: nat, s: Seq<char>) -> Result<u32, IntErrorKind>
    decreases s.len(),
{
    if s.len() == 0 {
        Ok(acc as u32)
    } else if hex_digit_value(s[0]) < 0 {
        Err(IntErrorKind::InvalidDigit)
    } else if acc * 16 + hex_digit_value(s[0]) > u32::MAX {
        Err(IntErrorKind::PosOverflow)
    } else {
        hex_scan((acc * 16 + hex_digit_value(s[0])) as nat, s.drop_first())
    }
}

/// A `u32` written in base 16, with an optional leading `+`.
pub open spec fn parse_hex_spec(s: Seq<char>) -> Result<u32, IntErrorKind> {
    if s.len() == 0 {
        Err(IntErrorKind::Empty)
    } else if s.len() == 1 && (s[0] == '+' || s[0] == '-') {
        Err(IntErrorKind::InvalidDigit)
    } else if s[0] == '+' {
        hex_scan(0, s.drop_first())
    } else {
        hex_scan(0, s)
    }
}

fn hex_digit(c: char) -> (r: i64)
    ensures
        r == hex_digit_value(c),
{
    if '0' <= c && c <= '9' {
        (c as u32 - '0' as u32) as i64
    } else if 'a' <= c && c <= 'f' {
        (c as u32 - 'a' as u32 + 10) as i64
    } else if 'A' <= c && c <= 'F' {
        (c as u32 - 'A' as u32 + 10) as i64
    } else {
        -1
    }
}

/// Parses a `u32` written in base 16.
pub fn parse_hex(s: &Vec<char>) -> (r: core::result::Result<u32, IntErrorKind>)
    ensures
        r == parse_hex_spec(s@),
{
    if s.len() == 0 {
        return Err(IntErrorKind::Empty);
    }
    if s.len() == 1 && (s[0] == '+' || s[0] == '-') {
        return Err(IntErrorKind::InvalidDigit);
    }
    let mut i: usize = if s[0] == '+' { 1 } else { 0 };
    let ghost digits = if s@[0] == '+' { s@.drop_first() } else { s@ };
    proof {
        assert(digits =~= s@.skip(i as int));
    }
    let mut acc: u32 = 0;
    while i < s.len()
        invariant
            i <= s.len(),
            parse_hex_spec(s@) == hex_scan(0, digits),
            hex_scan(0, digits) == hex_scan(acc as nat, s@.skip(i as int)),
        decreases s.len() - i,
    {
        let d = hex_digit(s[i]);
        proof {
            assert(s@.skip(i as int)[0] == s@[i as int]);
            assert(s@.skip(i as int).drop_first() =~= s@.skip(i as int + 1));
        }
        if d < 0 {
            return Err(IntErrorKind::InvalidDigit);
        }
        if acc as u64 * 16 + d as u64 > u32::MAX as u64 {
            return Err(IntErrorKind::PosOverflow);
        }
        acc = (acc as u64 * 16 + d as u64) as u32;
        i = i + 1;
    }
    proof {
        assert(s@.skip(i as int).len() == 0);
    }
    Ok(acc)
}

/// `s` with every leading repetition of the two characters `a`, `b` removed,
/// as `str::trim_start_matches` removes them.
pub open spec fn strip_pairs(s: Seq<char>, a: char, b: char) -> Seq<char>
    decreases s.len(),
{
    if s.len() >= 2 && s[0] == a && s[1] == b {
        strip_pairs(s.skip(2), a, b)
    } else {
        s
    }
}

/// The characters of `s` from position `i` on.
pub fn tail_from(s: &Vec<char>, i: usize) -> (r: Vec<char>)
    requires
        i <= s.len(),
    ensures
        r@ == s@.skip(i as int),
{
    let mut out: Vec<char> = Vec::new();
    let mut j: usize = i;
    while j < s.len()
        invariant
            i <= j <= s.len(),
            out@ == s@.subrange(i as int, j as int),
        decreases s.len() - j,
    {
        out.push(s[j]);
        proof {
            assert(out@ =~= s@.subrange(i as int, j as int + 1));
        }
        j = j + 1;
    }
    proof {
        assert(out@ =~= s@.skip(i as int));
    }
    out
}

fn strip_pair_prefix(s: &Vec<char>, a: char, b: char) -> (r: Vec<char>)
    ensures
        r@ == strip_pairs(s@, a, b),
{
    let mut i: usize = 0;
    proof {
        assert(s@.skip(0) =~= s@);
    }
    while s.len() - i >= 2 && s[i] == a && s[i + 1] == b
        invariant
            i <= s.len(),
            strip_pairs(s@, a, b) == strip_pairs(s@.skip(i as int), a, b),
        decreases s.len() - i,
    {
        proof {
            assert(s@.skip(i as int).skip(2) =~= s@.skip(i as int + 2));
        }
        i = i + 2;
    }
    proof {
        let t = s@.skip(i as int);
        if t.len() >= 2 {
            assert(t[0] == s@[i as int] && t[1] == s@[i as int + 1]);
        }
    }
    tail_from(s, i)
}

/// What a single codepoint argument denotes: a lone ASCII character stands
/// for itself; otherwise, after leading `U+` and then `u+` markers, the
/// hexadecimal value of a Unicode scalar. An error carries its message.
pub open spec fn parse_codepoint_spec(s: Seq<char>) -> Result<u32, Seq<char>> {
    if s.len() == 1 && (s[0] as u32) < 0x80 {
        Ok(s[0] as u32)
    } else {
        let t = strip_pairs(strip_pairs(s, 'U', '+'), 'u', '+');
        match parse_hex_spec(t) {
            Err(_) => Err("Invalid codepoint: "@ + t),
            Ok(cp) => if is_scalar(cp) {
                Ok(cp)
            } else {
                Err("Invalid Unicode codepoint: U+"@ + zero_padded(digits_of(cp as nat, 16), 4))
            },
        }
    }
}

/// Whether `r` is the parse error with message `m`.
pub open spec fn is_parse_error<T>(r: crate::Result<T>, m: Seq<char>) -> bool {
    r matches Err(FontgrepError::Parse(e)) && e@ == m
}

fn parse_error<T>(prefix: &str, detail: &String) -> (r: crate::Result<T>)
    ensures
        is_parse_error(r, prefix@ + detail@),
{
    let mut m = prefix.to_string();
    m.append(detail.as_str());
    Err(FontgrepError::Parse(m))
}

fn parse_codepoint_chars(cs: &Vec<char>) -> (r: crate::Result<char>)
    ensures
        r matches Ok(c) ==> parse_codepoint_spec(cs@) == Ok::<u32, Seq<char>>(c as u32),
        r is Err ==> parse_codepoint_spec(cs@) is Err && is_parse_error(
            r,
            parse_codepoint_spec(cs@)->Err_0,
        ),
{
    if cs.len() == 1 && (cs[0] as u32) < 0x80 {
        return Ok(cs[0]);
    }
    let s1 = strip_pair_prefix(cs, 'U', '+');
    let t = strip_pair_prefix(&s1, 'u', '+');
    match parse_hex(&t) {
        Err(_) => {
            let ts = string_of(&t);
            parse_error("Invalid codepoint: ", &ts)
        },
        Ok(cp) => match char_from_u32(cp) {
            Some(c) => Ok(c),
            None => {
                let h = hex4_string(cp);
                parse_error("Invalid Unicode codepoint: U+", &h)
            },
        },
    }
}

/// Parses one codepoint argument.
pub fn parse_codepoint(input: &str) -> (r: crate::Result<char>)
    ensures
        r matches Ok(c) ==> parse_codepoint_spec(input@) == Ok::<u32, Seq<char>>(c as u32),
        r is Err ==> parse_codepoint_spec(input@) is Err && is_parse_error(
            r,
            parse_codepoint_spec(input@)->Err_0,
        ),
{
    let cs = chars_of(input);
    parse_codepoint_chars(&cs)
}

/// The Unicode scalar values from `lo` to `hi`, both included, in order.
pub open spec fn scalar_range(lo: int, hi: int) -> Seq<u32>
    decreases hi - lo + 1,
{
    if hi < lo {
        Seq::empty()
    } else if is_scalar(hi as u32) && 0 <= hi <= u32::MAX {
        scalar_range(lo, hi - 1).push(hi as u32)
    } else {
        scalar_range(lo, hi - 1)
    }
}

/// What one item of a codepoint list denotes: a single codepoint, or a range
/// `a-b` of them with `a <= b`, of which the scalar values are kept.
pub open spec fn codepoint_item_spec(item: Seq<char>) -> Result<Seq<u32>, Seq<char>> {
    if item.contains('-') {
        let parts = split_spec(item, '-');
        if parts.len() != 2 {
            Err("Invalid codepoint range: "@ + item)
        } else {
            match parse_codepoint_spec(parts[0]) {
                Err(e) => Err(e),
                Ok(a) => match parse_codepoint_spec(parts[1]) {
                    Err(e) => Err(e),
                    Ok(b) => if a > b {
                        Err(
                            "Invalid codepoint range: "@ + digits_of(a as nat, 10) + " > "@
                                + digits_of(b as nat, 10),
                        )
                    } else {
                        Ok(scalar_range(a as int, b as int))
                    },
                },
            }
        }
    } else {
        match parse_codepoint_spec(item) {
            Err(e) => Err(e),
            Ok(a) => Ok(seq![a]),
        }
    }
}

/// What a list of codepoint items denotes: their codepoints in order, or the
/// first item's error.
pub open spec fn codepoints_spec(items: Seq<Seq<char>>) -> Result<Seq<u32>, Seq<char>>
    decreases items.len(),
{
    if items.len() == 0 {
        Ok(Seq::empty())
    } else {
        match codepoints_spec(items.drop_last()) {
            Err(e) => Err(e),
            Ok(prev) => match codepoint_item_spec(items.last()) {
                Err(e) => Err(e),
                Ok(x) => Ok(prev + x),
            },
        }
    }
}

/// The codepoints of a sequence of characters.
pub open spec fn code_values(cs: Seq<char>) -> Seq<u32> {
    cs.map_values(|c: char| c as u32)
}

fn contains_char(s: &Vec<char>, c: char) -> (r: bool)
    ensures
        r == s@.contains(c),
{
    let mut i: usize = 0;
    while i < s.len()
        invariant
            i <= s.len(),
            forall|j: int| 0 <= j < i ==> s@[j] != c,
        decreases s.len() - i,
    {
        if s[i] == c {
            return true;
        }
        i = i + 1;
    }
    false
}

fn push_scalar_range(out: &mut Vec<char>, lo: u32, hi: u32)
    requires
        lo <= hi,
        hi < 0x110000,
    ensures
        code_values(final(out)@) == code_values(old(out)@) + scalar_range(lo as int, hi as int),
{
    let mut cp: u32 = lo;
    proof {
        assert(scalar_range(lo as int, lo as int - 1) =~= Seq::<u32>::empty());
        assert(code_values(out@) =~= code_values(old(out)@) + Seq::<u32>::empty());
    }
    while cp <= hi
        invariant
            lo <= cp <= hi + 1,
            hi < 0x110000,
            code_values(out@) == code_values(old(out)@) + scalar_range(lo as int, cp as int - 1),
        decreases hi + 1 - cp,
    {
        let ghost before = out@;
        match char_from_u32(cp) {
            Some(c) => {
                out.push(c);
                proof {
                    assert(code_values(out@) =~= code_values(before).push(cp));
                }
            },
            None => {},
        }
        proof {
            assert(scalar_range(lo as int, cp as int) == if is_scalar(cp) {
                scalar_range(lo as int, cp as int - 1).push(cp)
            } else {
                scalar_range(lo as int, cp as int - 1)
            });
            assert(code_values(out@) =~= code_values(old(out)@) + scalar_range(lo as int, cp as int));
        }
        cp = cp + 1;
    }
}

fn parse_codepoint_item(item: &Vec<char>, out: &mut Vec<char>) -> (r: crate::Result<()>)
    ensures
        r is Ok ==> (codepoint_item_spec(item@) matches Ok(x) && code_values(final(out)@)
            == code_values(old(out)@) + x),
        r is Err ==> codepoint_item_spec(item@) is Err && is_parse_error(
            r,
            codepoint_item_spec(item@)->Err_0,
        ),
{
    if contains_char(item, '-') {
        let parts = split_chars(item, '-');
        if parts.len() != 2 {
            let s = string_of(item);
            return parse_error("Invalid codepoint range: ", &s);
        }
        proof {
            assert(views_of(parts@)[0] == parts@[0]@);
            assert(views_of(parts@)[1] == parts@[1]@);
        }
        let start = match parse_codepoint_chars(&parts[0]) {
            Ok(c) => c,
            Err(e) => {
                return Err(e);
            },
        };
        let end = match parse_codepoint_chars(&parts[1]) {
            Ok(c) => c,
            Err(e) => {
                return Err(e);
            },
        };
        let start_u32 = start as u32;
        let end_u32 = end as u32;
        if start_u32 > end_u32 {
            let mut m = "Invalid codepoint range: ".to_string();
            let a = decimal_string(start_u32);
            m.append(a.as_str());
            m.append(" > ");
            let b = decimal_string(end_u32);
            m.append(b.as_str());
            return Err(FontgrepError::Parse(m));
        }
        proof {
            assert(is_scalar(end_u32));
        }
        push_scalar_range(out, start_u32, end_u32);
        Ok(())
    } else {
        match parse_codepoint_chars(item) {
            Ok(c) => {
                let ghost before = out@;
                out.push(c);
                proof {
                    assert(code_values(out@) =~= code_values(before) + seq![c as u32]);
                }
                Ok(())
            },
            Err(e) => Err(e),
        }
    }
}

/// The views of a slice of strings.
pub open spec fn string_views(v: Seq<String>) -> Seq<Seq<char>> {
    v.map_values(|s: String| s@)
}

/// Parses codepoint arguments: single codepoints and `a-b` ranges.
pub fn parse_codepoints(input: &[String]) -> (r: crate::Result<Vec<char>>)
    ensures
        r matches Ok(v) ==> codepoints_spec(string_views(input@)) == Ok::<Seq<u32>, Seq<char>>(
            code_values(v@),
        ),
        r is Err ==> codepoints_spec(string_views(input@)) is Err && is_parse_error(
            r,
            codepoints_spec(string_views(input@))->Err_0,
        ),
{
    let mut result: Vec<char> = Vec::new();
    let mut i: usize = 0;
    proof {
        assert(string_views(input@.take(0)) =~= Seq::<Seq<char>>::empty());
        assert(code_values(result@) =~= Seq::<u32>::empty());
    }
    while i < input.len()
        invariant
            i <= input@.len(),
            codepoints_spec(string_views(input@.take(i as int))) == Ok::<Seq<u32>, Seq<char>>(
                code_values(result@),
            ),
        decreases input.len() - i,
    {
        let item = chars_of(input[i].as_str());
        let ghost items = string_views(input@.take(i as int + 1));
        proof {
            assert(items.drop_last() =~= string_views(input@.take(i as int)));
            assert(items.last() == input@[i as int]@);
        }
        match parse_codepoint_item(&item, &mut result) {
            Ok(()) => {},
            Err(e) => {
                proof {
                    lemma_codepoints_prefix_error(string_views(input@), i as int + 1);
                    assert(string_views(input@).take(i as int + 1) =~= items);
                }
                return Err(e);
            },
        }
        i = i + 1;
    }
    proof {
        assert(input@.take(input@.len() as int) =~= input@);
    }
    Ok(result)
}

/// Once a prefix of the items fails, the whole list fails with that error.
pub proof fn lemma_codepoints_prefix_error(items: Seq<Seq<char>>, k: int)
    requires
        0 <= k <= items.len(),
        codepoints_spec(items.take(k)) is Err,
    ensures
        codepoints_spec(items) == codepoints_spec(items.take(k)),
    decreases items.len() - k,
{
    if k < items.len() {
        assert(items.take(k + 1).drop_last() =~= items.take(k));
        lemma_codepoints_prefix_error(items, k + 1);
    } else {
        assert(items.take(k) =~= items);
    }
}

/// ASCII upper case of a character; other characters are kept.
pub open spec fn ascii_upper(c: char) -> char {
    if 'a' <= c && c <= 'z' {
        ((c as u32 - 32) as u8) as char
    } else {
        c
    }
}

/// ASCII upper case of a text.
pub open spec fn upper_ascii(s: Seq<char>) -> Seq<char> {
    s.map_values(|c: char| ascii_upper(c))
}

fn to_ascii_upper(s: &Vec<char>) -> (r: Vec<char>)
    ensures
        r@ == upper_ascii(s@),
{
    let mut out: Vec<char> = Vec::new();
    let mut i: usize = 0;
    while i < s.len()
        invariant
            i <= s.len(),
            out@ == upper_ascii(s@.take(i as int)),
        decreases s.len() - i,
    {
        let c = s[i];
        let u = if 'a' <= c && c <= 'z' {
            ((c as u32 - 32) as u8) as char
        } else {
            c
        };
        out.push(u);
        proof {
            assert(upper_ascii(s@.take(i as int + 1)) =~= upper_ascii(s@.take(i as int)).push(u));
        }
        i = i + 1;
    }
    proof {
        assert(s@.take(s@.len() as int) =~= s@);
    }
    out
}

/// A range bound without its `U+` or `0x` marker.
pub open spec fn strip_marker(p: Seq<char>) -> Seq<char> {
    if p.len() >= 2 && ((p[0] == 'U' && p[1] == '+') || (p[0] == '0' && p[1] == 'x')) {
        p.skip(2)
    } else {
        p
    }
}

fn strip_marker_vec(p: &Vec<char>) -> (r: Vec<char>)
    ensures
        r@ == strip_marker(p@),
{
    if p.len() >= 2 && ((p[0] == 'U' && p[1] == '+') || (p[0] == '0' && p[1] == 'x')) {
        tail_from(p, 2)
    } else {
        proof {
            assert(p@.skip(0) =~= p@);
        }
        tail_from(p, 0)
    }
}

/// The integers from `lo` to `hi`, both included; empty when `lo > hi`.
pub open spec fn u32_range(lo: int, hi: int) -> Seq<u32>
    decreases hi - lo + 1,
{
    if hi < lo {
        Seq::empty()
    } else {
        u32_range(lo, hi - 1).push(hi as u32)
    }
}

/// What one comma-separated piece of a range list denotes: a hexadecimal
/// value, or an inclusive range `a-b` of them.
pub open spec fn unicode_range_spec(r: Seq<char>) -> Result<Seq<u32>, Seq<char>> {
    let parts = split_spec(r, '-');
    if parts.len() == 1 {
        match parse_hex_spec(strip_marker(parts[0])) {
            Ok(v) => Ok(seq![v]),
            Err(k) => Err(k.spec_text()),
        }
    } else if parts.len() == 2 {
        match parse_hex_spec(strip_marker(parts[0])) {
            Err(k) => Err(k.spec_text()),
            Ok(a) => match parse_hex_spec(strip_marker(parts[1])) {
                Err(k) => Err(k.spec_text()),
                Ok(b) => Ok(u32_range(a as int, b as int)),
            },
        }
    } else {
        Err("Bad range: "@ + r)
    }
}

/// What a sequence of range pieces denotes: their values in order, or the
/// first piece's error.
pub open spec fn ranges_spec(pieces: Seq<Seq<char>>) -> Result<Seq<u32>, Seq<char>>
    decreases pieces.len(),
{
    if pieces.len() == 0 {
        Ok(Seq::empty())
    } else {
        match ranges_spec(pieces.drop_last()) {
            Err(e) => Err(e),
            Ok(prev) => match unicode_range_spec(pieces.last()) {
                Err(e) => Err(e),
                Ok(x) => Ok(prev + x),
            },
        }
    }
}

/// What a range-list argument denotes: it is upper-cased (ASCII), split at
/// commas, and each piece read as by `unicode_range_spec`.
pub open spec fn unicode_ranges_spec(arg: Seq<char>) -> Result<Seq<u32>, Seq<char>> {
    ranges_spec(split_spec(upper_ascii(arg), ','))
}

proof fn lemma_ranges_prefix_error(pieces: Seq<Seq<char>>, k: int)
    requires
        0 <= k <= pieces.len(),
        ranges_spec(pieces.take(k)) is Err,
    ensures
        ranges_spec(pieces) == ranges_spec(pieces.take(k)),
    decreases pieces.len() - k,
{
    if k < pieces.len() {
        assert(pieces.take(k + 1).drop_last() =~= pieces.take(k));
        lemma_ranges_prefix_error(pieces, k + 1);
    } else {
        assert(pieces.take(k) =~= pieces);
    }
}

fn push_u32_range(out: &mut Vec<u32>, lo: u32, hi: u32)
    ensures
        final(out)@ == old(out)@ + u32_range(lo as int, hi as int),
{
    let mut cp: u64 = lo as u64;
    proof {
        assert(u32_range(lo as int, lo as int - 1) =~= Seq::<u32>::empty());
        assert(out@ =~= old(out)@ + Seq::<u32>::empty());
    }
    if lo > hi {
        return;
    }
    while cp <= hi as u64
        invariant
            lo <= cp <= hi as u64 + 1,
            out@ == old(out)@ + u32_range(lo as int, cp as int - 1),
        decreases hi as u64 + 1 - cp,
    {
        out.push(cp as u32);
        proof {
            assert(out@ =~= old(out)@ + u32_range(lo as int, cp as int));
        }
        cp = cp + 1;
    }
}

fn parse_range_piece(piece: &Vec<char>, out: &mut Vec<u32>) -> (r: core::result::Result<(), String>)
    ensures
        r is Ok ==> (unicode_range_spec(piece@) matches Ok(x) && final(out)@ == old(out)@ + x),
        r matches Err(m) ==> unicode_range_spec(piece@) == Err::<Seq<u32>, Seq<char>>(m@),
{
    let parts = split_chars(piece, '-');
    proof {
        if parts@.len() >= 1 {
            assert(views_of(parts@)[0] == parts@[0]@);
        }
        if parts@.len() >= 2 {
            assert(views_of(parts@)[1] == parts@[1]@);
        }
    }
    if parts.len() == 1 {
        let p = strip_marker_vec(&parts[0]);
        match parse_hex(&p) {
            Ok(v) => {
                out.push(v);
                proof {
                    assert(out@ =~= old(out)@ + seq![v]);
                }
                Ok(())
            },
            Err(k) => Err(k.text()),
        }
    } else if parts.len() == 2 {
        let p0 = strip_marker_vec(&parts[0]);
        let start = match parse_hex(&p0) {
            Ok(v) => v,
            Err(k) => {
                return Err(k.text());
            },
        };
        let p1 = strip_marker_vec(&parts[1]);
        let end = match parse_hex(&p1) {
            Ok(v) => v,
            Err(k) => {
                return Err(k.text());
            },
        };
        push_u32_range(out, start, end);
        Ok(())
    } else {
        let mut m = "Bad range: ".to_string();
        let ps = string_of(piece);
        m.append(ps.as_str());
        Err(m)
    }
}

/// Parses a comma-separated list of hexadecimal codepoints and inclusive
/// ranges, each bound optionally marked `U+`.
pub fn parse_unicode_ranges(arg: &str) -> (r: core::result::Result<Vec<u32>, String>)
    ensures
        r matches Ok(v) ==> unicode_ranges_spec(arg@) == Ok::<Seq<u32>, Seq<char>>(v@),
        r matches Err(m) ==> unicode_ranges_spec(arg@) == Err::<Seq<u32>, Seq<char>>(m@),
{
    let cs = chars_of(arg);
    let up = to_ascii_upper(&cs);
    let pieces = split_chars(&up, ',');
    let ghost all = views_of(pieces@);
    let mut codepoints: Vec<u32> = Vec::new();
    let mut i: usize = 0;
    proof {
        assert(all.take(0) =~= Seq::<Seq<char>>::empty());
    }
    while i < pieces.len()
        invariant
            i <= pieces.len(),
            all == views_of(pieces@),
            all == split_spec(upper_ascii(arg@), ','),
            ranges_spec(all.take(i as int)) == Ok::<Seq<u32>, Seq<char>>(codepoints@),
        decreases pieces.len() - i,
    {
        proof {
            assert(all.take(i as int + 1).drop_last() =~= all.take(i as int));
            assert(all.take(i as int + 1).last() == pieces@[i as int]@);
        }
        match parse_range_piece(&pieces[i], &mut codepoints) {
            Ok(()) => {},
            Err(m) => {
                proof {
                    lemma_ranges_prefix_error(all, i as int + 1);
                }
                return Err(m);
            },
        }
        i = i + 1;
    }
    proof {
        assert(all.take(all.len() as int) =~= all);
    }
    Ok(codepoints)
}

} // verus!
