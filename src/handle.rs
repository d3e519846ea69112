//! The font parser: skrifa reads the binary font, and what it reports is
//! assembled into Extracted Info.
use vstd::prelude::*;
use skrifa::raw::{ReadError, TableProvider};
use skrifa::{FontRef, MetadataProvider};
use crate::codepoints::{code_values, string_views};
use crate::font::{dedup_spec, join_spec, kept_codepoint, strictly_increasing, FontInfo, InfoView};
use crate::text::is_scalar;
use crate::FontgrepError;

verus! {

/// skrifa's parse error, held opaque.
#[verifier::external_type_specification]
#[verifier::external_body]
pub struct ExReadError(ReadError);

/// Whether the bytes begin a single font that skrifa reads: at least the
/// twelve bytes of a table directory, opening with one of the sfnt versions
/// 0x00010000, `true` or `OTTO`.
pub open spec fn parses_as_font(data: Seq<u8>) -> bool {
    data.len() >= 12 && ((data[0] == 0x00 && data[1] == 0x01 && data[2] == 0x00 && data[3] == 0x00)
        || (data[0] == 0x74 && data[1] == 0x72 && data[2] == 0x75 && data[3] == 0x65) || (data[0]
        == 0x4F && data[1] == 0x54 && data[2] == 0x54 && data[3] == 0x4F))
}

/// The decodable name strings of the font in the bytes, in record order.
pub uninterp spec fn font_name_strings(data: Seq<u8>) -> Seq<Seq<char>>;

/// The variation axis tags of the font in the bytes.
pub uninterp spec fn font_axis_tags(data: Seq<u8>) -> Seq<Seq<char>>;

/// The feature tags of the `GSUB` table of the font in the bytes.
pub uninterp spec fn font_gsub_feature_tags(data: Seq<u8>) -> Seq<Seq<char>>;

/// The feature tags of the `GPOS` table of the font in the bytes.
pub uninterp spec fn font_gpos_feature_tags(data: Seq<u8>) -> Seq<Seq<char>>;

/// The script tags of the `GSUB` table of the font in the bytes.
pub uninterp spec fn font_gsub_script_tags(data: Seq<u8>) -> Seq<Seq<char>>;

/// The script tags of the `GPOS` table of the font in the bytes.
pub uninterp spec fn font_gpos_script_tags(data: Seq<u8>) -> Seq<Seq<char>>;

/// The table tags of the font in the bytes.
pub uninterp spec fn font_table_tags(data: Seq<u8>) -> Seq<Seq<char>>;

/// The codepoints of the character map of the font in the bytes.
pub uninterp spec fn font_mapped_codepoints(data: Seq<u8>) -> Seq<u32>;

/// Relies on skrifa's `FontRef::new`: it reads the twelve-byte table
/// directory header and accepts the three sfnt versions (read-fonts'
/// `FontRef::with_table_directory`).
#[verifier::external_body]
fn check_font(data: &[u8]) -> (r: Result<(), ReadError>)
    ensures
        r is Ok <==> parses_as_font(data@),
{
    FontRef::new(data).map(|_| ())
}

/// Relies on `Display` for skrifa's `ReadError`: the error's description.
#[verifier::external_body]
fn read_error_text(e: &ReadError) -> (r: String) {
    e.to_string()
}

/// Relies on the `name` table of skrifa's `TableProvider`: every name
/// record's string that decodes, in record order; none when the bytes are
/// no font or the table is absent.
#[verifier::external_body]
fn name_strings(data: &[u8]) -> (r: Vec<String>)
    ensures
        string_views(r@) == font_name_strings(data@),
{
    match FontRef::new(data).and_then(|font| font.name()) {
        Ok(name) => name
            .name_record()
            .iter()
            .filter_map(|rec| rec.string(name.string_data()).ok())
            .map(|s| s.to_string())
            .collect(),
        Err(_) => Vec::new(),
    }
}

/// Relies on skrifa's `MetadataProvider::axes`: the tag of each variation
/// axis; none when the bytes are no font.
#[verifier::external_body]
fn axis_tags(data: &[u8]) -> (r: Vec<String>)
    ensures
        string_views(r@) == font_axis_tags(data@),
{
    match FontRef::new(data) {
        Ok(font) => font.axes().iter().map(|axis| axis.tag().to_string()).collect(),
        Err(_) => Vec::new(),
    }
}

/// Relies on the `GSUB` feature list of skrifa's `TableProvider`: the tag
/// of each feature record; none when the bytes are no font or the table or
/// list is absent.
#[verifier::external_body]
fn gsub_feature_tags(data: &[u8]) -> (r: Vec<String>)
    ensures
        string_views(r@) == font_gsub_feature_tags(data@),
{
    match FontRef::new(data).and_then(|font| font.gsub()).and_then(|t| t.feature_list()) {
        Ok(list) => list.feature_records().iter().map(|f| f.feature_tag().to_string()).collect(),
        Err(_) => Vec::new(),
    }
}

/// Relies on the `GPOS` feature list of skrifa's `TableProvider`: the tag
/// of each feature record; none when the bytes are no font or the table or
/// list is absent.
#[verifier::external_body]
fn gpos_feature_tags(data: &[u8]) -> (r: Vec<String>)
    ensures
        string_views(r@) == font_gpos_feature_tags(data@),
{
    match FontRef::new(data).and_then(|font| font.gpos()).and_then(|t| t.feature_list()) {
        Ok(list) => list.feature_records().iter().map(|f| f.feature_tag().to_string()).collect(),
        Err(_) => Vec::new(),
    }
}

/// Relies on the `GSUB` script list of skrifa's `TableProvider`: the tag of
/// each script record; none when the bytes are no font or the table or list
/// is absent.
#[verifier::external_body]
fn gsub_script_tags(data: &[u8]) -> (r: Vec<String>)
    ensures
        string_views(r@) == font_gsub_script_tags(data@),
{
    match FontRef::new(data).and_then(|font| font.gsub()).and_then(|t| t.script_list()) {
        Ok(list) => list.script_records().iter().map(|s| s.script_tag().to_string()).collect(),
        Err(_) => Vec::new(),
    }
}

/// Relies on the `GPOS` script list of skrifa's `TableProvider`: the tag of
/// each script record; none when the bytes are no font or the table or list
/// is absent.
#[verifier::external_body]
fn gpos_script_tags(data: &[u8]) -> (r: Vec<String>)
    ensures
        string_views(r@) == font_gpos_script_tags(data@),
{
    match FontRef::new(data).and_then(|font| font.gpos()).and_then(|t| t.script_list()) {
        Ok(list) => list.script_records().iter().map(|s| s.script_tag().to_string()).collect(),
        Err(_) => Vec::new(),
    }
}

/// Relies on the table directory of skrifa's `FontRef`: the tag of each
/// table record; none when the bytes are no font.
#[verifier::external_body]
fn table_tags(data: &[u8]) -> (r: Vec<String>)
    ensures
        string_views(r@) == font_table_tags(data@),
{
    match FontRef::new(data) {
        Ok(font) => font.table_directory.table_records().iter().map(|rec| rec.tag().to_string()).collect(),
        Err(_) => Vec::new(),
    }
}

/// Relies on skrifa's `Charmap::mappings`: the codepoint of each mapping of
/// the character map; none when the bytes are no font or it has no usable
/// map.
#[verifier::external_body]
fn mapped_codepoints(data: &[u8]) -> (r: Vec<u32>)
    ensures
        r@ == font_mapped_codepoints(data@),
{
    match FontRef::new(data) {
        Ok(font) => font.charmap().mappings().map(|(cp, _)| cp).collect(),
        Err(_) => Vec::new(),
    }
}

/// The attributes `FontInfo::from_extracted` assembles from what the parser
/// reports on the bytes: names deduplicated (and joined by spaces), axes,
/// the features and scripts of `GSUB` then `GPOS` deduplicated, tables, and
/// the mapped codepoints that a charset keeps, in increasing order.
pub open spec fn info_of_font(r: InfoView, data: Seq<u8>) -> bool {
    &&& r.name == join_spec(dedup_spec(font_name_strings(data)), ' ')
    &&& r.names == dedup_spec(font_name_strings(data))
    &&& r.is_variable == (font_axis_tags(data).len() > 0)
    &&& r.axes == font_axis_tags(data)
    &&& r.features == dedup_spec(font_gsub_feature_tags(data) + font_gpos_feature_tags(data))
    &&& r.scripts == dedup_spec(font_gsub_script_tags(data) + font_gpos_script_tags(data))
    &&& r.tables == font_table_tags(data)
    &&& strictly_increasing(code_values(r.charset))
    &&& forall|cp: u32|
        #[trigger] code_values(r.charset).contains(cp) <==> (font_mapped_codepoints(data).contains(
            cp,
        ) && kept_codepoint(cp) && is_scalar(cp))
}

impl FontInfo {
    /// Extracts the attributes of the font in `data`: its name strings,
    /// variation axes, the features and scripts of both layout tables, its
    /// tables, and its character map (see `from_extracted`).
    pub fn from_font(data: &[u8]) -> (r: FontInfo)
        ensures
            info_of_font(r@, data@),
    {
        let names = name_strings(data);
        let axes = axis_tags(data);
        let mut features = gsub_feature_tags(data);
        let mut more_features = gpos_feature_tags(data);
        let ghost f0 = string_views(features@);
        let ghost f1 = string_views(more_features@);
        features.append(&mut more_features);
        let mut scripts = gsub_script_tags(data);
        let mut more_scripts = gpos_script_tags(data);
        let ghost s0 = string_views(scripts@);
        let ghost s1 = string_views(more_scripts@);
        scripts.append(&mut more_scripts);
        proof {
            assert(string_views(features@) =~= f0 + f1);
            assert(string_views(scripts@) =~= s0 + s1);
        }
        let tables = table_tags(data);
        let mapped = mapped_codepoints(data);
        let r = FontInfo::from_extracted(&names, &axes, &features, &scripts, &tables, &mapped);
        proof {
            assert forall|cp: u32|
                #[trigger] code_values(r@.charset).contains(cp) <==> (font_mapped_codepoints(
                    data@,
                ).contains(cp) && kept_codepoint(cp) && is_scalar(cp)) by {
                assert(code_values(r@.charset).contains(cp) <==> (mapped@.contains(cp)
                    && kept_codepoint(cp) && is_scalar(cp)));
            }
        }
        r
    }

    /// Parses a single font held in `data` and extracts its attributes; data
    /// that is no font is a font error carrying the parser's description.
    pub fn from_bytes(data: &[u8]) -> (r: crate::Result<FontInfo>)
        ensures
            r is Ok <==> parses_as_font(data@),
            r matches Ok(info) ==> info_of_font(info@, data@),
            r is Err ==> r matches Err(FontgrepError::Font(_)),
    {
        match check_font(data) {
            Ok(()) => Ok(FontInfo::from_font(data)),
            Err(e) => Err(FontgrepError::Font(read_error_text(&e))),
        }
    }
}

} // verus!
