//! The text of a document, from the bytes of its file, for the formats whose
//! text can be taken from memory: word-processor archives, web pages,
//! Markdown and plain text.

use vstd::prelude::*;
use vstd::utf8::{decode_utf8, valid_utf8};
use crate::sizer::units_view;
use crate::text::{join_all, joined};
use std::io::Read;

verus! {

/// The kind of a document, as its file name tells.
#[derive(Clone, Copy, Debug, PartialEq, Eq, Structural)]
pub enum DocumentKind {
    Pdf,
    Epub,
    Docx,
    Html,
    Markdown,
    Odt,
    PlainText,
}

/// Why no text came out of a document.
#[derive(Clone, Copy, Debug, PartialEq, Eq, Structural)]
pub enum ExtractError {
    /// The archive could not be read.
    Archive,
    /// The text is not valid UTF-8.
    Encoding,
    /// The format is read from its file, not from memory.
    NeedsFile,
}

/// `s` ends with `suffix`.
pub open spec fn ends_with(s: Seq<char>, suffix: Seq<char>) -> bool {
    suffix.len() <= s.len() && s.subrange(s.len() - suffix.len(), s.len() as int) == suffix
}

/// Relies on str::ends_with with a string pattern.
#[verifier::external_body]
fn text_ends_with(s: &str, suffix: &str) -> (r: bool)
    ensures
        r == ends_with(s@, suffix@),
{
    s.ends_with(suffix)
}

/// The kind of a document by the ending of its path; anything else is read
/// as plain text.
pub open spec fn kind_of_path(p: Seq<char>) -> DocumentKind {
    if ends_with(p, ".pdf"@) {
        DocumentKind::Pdf
    } else if ends_with(p, ".epub"@) {
        DocumentKind::Epub
    } else if ends_with(p, ".docx"@) {
        DocumentKind::Docx
    } else if ends_with(p, ".html"@) || ends_with(p, ".htm"@) {
        DocumentKind::Html
    } else if ends_with(p, ".md"@) {
        DocumentKind::Markdown
    } else if ends_with(p, ".odt"@) {
        DocumentKind::Odt
    } else {
        DocumentKind::PlainText
    }
}

/// The kind of the document at `path`.
pub fn document_kind(path: &str) -> (r: DocumentKind)
    ensures
        r == kind_of_path(path@),
{
    if text_ends_with(path, ".pdf") {
        DocumentKind::Pdf
    } else if text_ends_with(path, ".epub") {
        DocumentKind::Epub
    } else if text_ends_with(path, ".docx") {
        DocumentKind::Docx
    } else if text_ends_with(path, ".html") || text_ends_with(path, ".htm") {
        DocumentKind::Html
    } else if text_ends_with(path, ".md") {
        DocumentKind::Markdown
    } else if text_ends_with(path, ".odt") {
        DocumentKind::Odt
    } else {
        DocumentKind::PlainText
    }
}

/// Relies on str::from_utf8: the bytes are read as text exactly when they
/// are valid UTF-8.
#[verifier::external_body]
fn utf8_text(bytes: &[u8]) -> (r: Option<String>)
    ensures
        r is Some <==> valid_utf8(bytes@),
        r is Some ==> r->0@ == decode_utf8(bytes@),
{
    std::str::from_utf8(bytes).ok().map(String::from)
}

/// Space as a separator.
pub open spec fn space() -> Seq<char> {
    seq![' ']
}

/// For each `body` element of a web page, the texts of the nodes under it,
/// in document order.
pub uninterp spec fn html_body_texts_of(html: Seq<char>) -> Seq<Seq<Seq<char>>>;

pub open spec fn nested_view(v: Seq<Vec<String>>) -> Seq<Seq<Seq<char>>> {
    v.map_values(|inner: Vec<String>| units_view(inner@))
}

/// Relies on scraper: Html::parse_document, the `body` selector, and the
/// text nodes of each element it selects.
#[verifier::external_body]
fn html_body_texts(html: &str) -> (r: Vec<Vec<String>>)
    ensures
        nested_view(r@) == html_body_texts_of(html@),
{
    let document = scraper::Html::parse_document(html);
    let selector = scraper::Selector::parse("body").unwrap();
    document.select(&selector).map(|e| e.text().map(String::from).collect()).collect()
}

/// The text of a web page: each body element's texts joined by spaces, the
/// elements joined by spaces.
pub open spec fn html_text_of(html: Seq<char>) -> Seq<char> {
    joined(html_body_texts_of(html).map_values(|t: Seq<Seq<char>>| joined(t, space())), space())
}

/// The text of a web page.
pub fn html_text(html: &str) -> (r: String)
    ensures
        r@ == html_text_of(html@),
{
    let groups = html_body_texts(html);
    let ghost g = html_body_texts_of(html@);
    let mut pieces: Vec<String> = Vec::new();
    let mut i: usize = 0;
    proof {
        reveal_strlit(" ");
        assert(" "@ =~= space());
    }
    while i < groups.len()
        invariant
            " "@ == space(),
            nested_view(groups@) == g,
            i <= groups@.len(),
            pieces@.len() == i,
            forall|j: int| 0 <= j < i ==> #[trigger] pieces@[j]@ == joined(g[j], space()),
        decreases groups@.len() - i,
    {
        let piece = join_all(groups[i].as_slice(), " ");
        assert(g[i as int] == units_view(groups@[i as int]@));
        pieces.push(piece);
        i = i + 1;
    }
    assert(units_view(pieces@) =~= g.map_values(|t: Seq<Seq<char>>| joined(t, space())));
    join_all(pieces.as_slice(), " ")
}

pub open spec fn options_view(v: Seq<Option<String>>) -> Seq<Option<Seq<char>>> {
    v.map_values(
        |o: Option<String>|
            match o {
                Some(s) => Some(s@),
                None => None,
            },
    )
}

/// The texts that are present, in order.
pub open spec fn present(v: Seq<Option<Seq<char>>>) -> Seq<Seq<char>>
    decreases v.len(),
{
    if v.len() == 0 {
        Seq::empty()
    } else {
        match v.last() {
            Some(t) => present(v.drop_last()).push(t),
            None => present(v.drop_last()),
        }
    }
}

fn present_texts(v: &Vec<Option<String>>) -> (r: Vec<String>)
    ensures
        units_view(r@) == present(options_view(v@)),
{
    let ghost o = options_view(v@);
    let mut r: Vec<String> = Vec::new();
    let mut i: usize = 0;
    while i < v.len()
        invariant
            o == options_view(v@),
            i <= v@.len(),
            units_view(r@) == present(o.take(i as int)),
        decreases v@.len() - i,
    {
        assert(o.take(i + 1).drop_last() =~= o.take(i as int));
        assert(o.take(i + 1).last() == o[i as int]);
        let ghost before = units_view(r@);
        match &v[i] {
            Some(t) => {
                r.push(t.clone());
                assert(units_view(r@) =~= before.push(t@));
            },
            None => {},
        }
        i = i + 1;
    }
    assert(o.take(v@.len() as int) =~= o);
    r
}

/// For each event of a Markdown parse with every extension on, its text
/// when it is a text event.
pub uninterp spec fn markdown_texts_of(md: Seq<char>) -> Seq<Option<Seq<char>>>;

/// Relies on pulldown_cmark's Parser::new_ext with Options::all: one item per
/// event, holding the text of each Text event.
#[verifier::external_body]
fn markdown_texts(md: &str) -> (r: Vec<Option<String>>)
    ensures
        options_view(r@) == markdown_texts_of(md@),
{
    pulldown_cmark::Parser::new_ext(md, pulldown_cmark::Options::all()).map(|event| match event {
        pulldown_cmark::Event::Text(t) => Some(t.to_string()),
        _ => None,
    }).collect()
}

/// The text of a Markdown document: its text events joined by spaces.
pub open spec fn markdown_text_of(md: Seq<char>) -> Seq<char> {
    joined(present(markdown_texts_of(md)), space())
}

/// The text of a Markdown document.
pub fn markdown_text(md: &str) -> (r: String)
    ensures
        r@ == markdown_text_of(md@),
{
    let texts = present_texts(&markdown_texts(md));
    proof {
        reveal_strlit(" ");
        assert(" "@ =~= space());
    }
    join_all(texts.as_slice(), " ")
}

/// For each event of reading an XML document, its characters when it is a
/// character event.
pub uninterp spec fn xml_texts_of(xml: Seq<char>) -> Seq<Option<Seq<char>>>;

/// Relies on xml-rs's EventReader::from_str: one item per event, holding
/// the characters of each Characters event; the events end at the first
/// error.
#[verifier::external_body]
fn xml_texts(xml: &str) -> (r: Vec<Option<String>>)
    ensures
        options_view(r@) == xml_texts_of(xml@),
{
    xml::reader::EventReader::from_str(xml).into_iter().map(|event| match event {
        Ok(xml::reader::XmlEvent::Characters(chars)) => Some(chars),
        _ => None,
    }).collect()
}

/// Each part followed by a space.
pub open spec fn spaced(parts: Seq<Seq<char>>) -> Seq<char>
    decreases parts.len(),
{
    if parts.len() == 0 {
        Seq::empty()
    } else {
        spaced(parts.drop_last()) + parts.last() + space()
    }
}

/// The text of an OpenDocument content file: its character runs, each
/// followed by a space.
pub open spec fn odt_text_of(xml: Seq<char>) -> Seq<char> {
    spaced(present(xml_texts_of(xml)))
}

/// The text of an OpenDocument content file.
pub fn odt_text(xml: &str) -> (r: String)
    ensures
        r@ == odt_text_of(xml@),
{
    let parts = present_texts(&xml_texts(xml));
    let ghost p = units_view(parts@);
    let mut r = String::new();
    let mut i: usize = 0;
    proof {
        reveal_strlit(" ");
        assert(" "@ =~= space());
    }
    while i < parts.len()
        invariant
            " "@ == space(),
            p == units_view(parts@),
            i <= parts@.len(),
            r@ == spaced(p.take(i as int)),
        decreases parts@.len() - i,
    {
        assert(p.take(i + 1).drop_last() =~= p.take(i as int));
        assert(p.take(i + 1).last() == parts@[i as int]@);
        r.append(parts[i].as_str());
        r.append(" ");
        i = i + 1;
    }
    assert(p.take(parts@.len() as int) =~= p);
    r
}

/// `s` with every occurrence of `pat`, from left to right and without
/// overlap, replaced by `rep`.
pub open spec fn replaced(s: Seq<char>, pat: Seq<char>, rep: Seq<char>) -> Seq<char>
    decreases s.len(),
{
    if s.len() == 0 {
        s
    } else if pat.len() > 0 && pat.len() <= s.len() && s.subrange(0, pat.len() as int) == pat {
        rep + replaced(s.subrange(pat.len() as int, s.len() as int), pat, rep)
    } else {
        seq![s[0]] + replaced(s.subrange(1, s.len() as int), pat, rep)
    }
}

/// Relies on str::replace with a string pattern: matches found from left to
/// right, without overlap, each replaced.
#[verifier::external_body]
fn replace_text(s: &str, from: &str, to: &str) -> (r: String)
    requires
        from@.len() > 0,
    ensures
        r@ == replaced(s@, from@, to@),
{
    s.replace(from, to)
}

/// The text of a word-processing document's main part: text runs end in a
/// space, paragraphs begin and end on a new line, the run tags dropped.
pub open spec fn docx_text_of(xml: Seq<char>) -> Seq<char> {
    replaced(
        replaced(replaced(replaced(xml, "<w:t>"@, ""@), "</w:t>"@, " "@), "<w:p>"@, "\n"@),
        "</w:p>"@,
        "\n"@,
    )
}

/// The text of a word-processing document's main part.
pub fn docx_text(xml: &str) -> (r: String)
    ensures
        r@ == docx_text_of(xml@),
{
    proof {
        reveal_strlit("<w:t>");
        reveal_strlit("</w:t>");
        reveal_strlit("<w:p>");
        reveal_strlit("</w:p>");
    }
    let a = replace_text(xml, "<w:t>", "");
    let b = replace_text(a.as_str(), "</w:t>", " ");
    let c = replace_text(b.as_str(), "<w:p>", "\n");
    replace_text(c.as_str(), "</w:p>", "\n")
}

#[verifier::external_type_specification]
#[verifier::external_body]
pub struct ExZipError(zip::result::ZipError);

/// The names of the entries of a zip archive, in the archive's order; none
/// when the bytes are not a readable archive.
pub uninterp spec fn zip_names_of(bytes: Seq<u8>) -> Option<Seq<Seq<char>>>;

/// The text of the entry at `index` of a zip archive; none when it cannot be
/// read as UTF-8 text.
pub uninterp spec fn zip_entry_text_of(bytes: Seq<u8>, index: int) -> Option<Seq<char>>;

/// Relies on zip's ZipArchive::new and file_names: the names of the entries,
/// in index order.
#[verifier::external_body]
fn zip_names(bytes: &[u8]) -> (r: Result<Vec<String>, zip::result::ZipError>)
    ensures
        match r {
            Ok(v) => zip_names_of(bytes@) == Some(units_view(v@)),
            Err(_) => zip_names_of(bytes@) is None,
        },
{
    let archive = zip::ZipArchive::new(std::io::Cursor::new(bytes))?;
    Ok(archive.file_names().map(String::from).collect())
}

/// Relies on zip's ZipArchive::new and by_index, and Read::read_to_string:
/// the entry's contents as text.
#[verifier::external_body]
fn zip_entry_text(bytes: &[u8], index: usize) -> (r: Result<String, zip::result::ZipError>)
    ensures
        match r {
            Ok(t) => zip_entry_text_of(bytes@, index as int) == Some(t@),
            Err(_) => zip_entry_text_of(bytes@, index as int) is None,
        },
{
    let mut archive = zip::ZipArchive::new(std::io::Cursor::new(bytes))?;
    let mut entry = archive.by_index(index)?;
    let mut text = String::new();
    entry.read_to_string(&mut text)?;
    Ok(text)
}

/// The first index at which `names` holds `wanted`.
pub open spec fn first_index(names: Seq<Seq<char>>, wanted: Seq<char>) -> Option<int> {
    if exists|i: int| 0 <= i < names.len() && names[i] == wanted {
        Some(
            choose|i: int|
                0 <= i < names.len() && names[i] == wanted && forall|j: int| 0 <= j < i ==> names[j] != wanted,
        )
    } else {
        None
    }
}

/// The text of the first entry named `wanted` of an archive: an error when
/// the archive or that entry cannot be read, nothing when there is no such
/// entry.
pub open spec fn archive_entry_of(bytes: Seq<u8>, wanted: Seq<char>) -> Result<Option<Seq<char>>, ExtractError> {
    match zip_names_of(bytes) {
        None => Err(ExtractError::Archive),
        Some(names) => match first_index(names, wanted) {
            None => Ok(None),
            Some(i) => match zip_entry_text_of(bytes, i) {
                None => Err(ExtractError::Archive),
                Some(t) => Ok(Some(t)),
            },
        },
    }
}

pub open spec fn entry_view(r: Result<Option<String>, ExtractError>) -> Result<Option<Seq<char>>, ExtractError> {
    match r {
        Ok(Some(s)) => Ok(Some(s@)),
        Ok(None) => Ok(None),
        Err(e) => Err(e),
    }
}

/// The text of the first entry named `wanted` of a zip archive.
pub fn archive_entry(bytes: &[u8], wanted: &str) -> (r: Result<Option<String>, ExtractError>)
    ensures
        entry_view(r) == archive_entry_of(bytes@, wanted@),
{
    let names = match zip_names(bytes) {
        Ok(v) => v,
        Err(_) => return Err(ExtractError::Archive),
    };
    let ghost n = units_view(names@);
    let target = String::from_str(wanted);
    let mut i: usize = 0;
    while i < names.len()
        invariant
            n == units_view(names@),
            zip_names_of(bytes@) == Some(n),
            target@ == wanted@,
            i <= names@.len(),
            forall|j: int| 0 <= j < i ==> n[j] != wanted@,
        decreases names@.len() - i,
    {
        if names[i] == target {
            assert(n[i as int] == wanted@);
            assert(exists|x: int| 0 <= x < n.len() && n[x] == wanted@);
            let ghost k = choose|k: int|
                0 <= k < n.len() && n[k] == wanted@ && forall|j: int| 0 <= j < k ==> n[j] != wanted@;
            assert(k == i) by {
                if k < i {
                    assert(n[k] != wanted@);
                } else if k > i {
                    assert(n[i as int] != wanted@);
                }
            }
            assert(first_index(n, wanted@) == Some(i as int));
            return match zip_entry_text(bytes, i) {
                Ok(t) => Ok(Some(t)),
                Err(_) => Err(ExtractError::Archive),
            };
        }
        i = i + 1;
    }
    Ok(None)
}

/// The archive entry that holds a word-processing document's text.
pub const DOCX_MAIN_PART: &'static str = "word/document.xml";

/// The archive entry that holds an OpenDocument text's content.
pub const ODT_CONTENT_PART: &'static str = "content.xml";

/// The text of a document of kind `kind` whose file holds `bytes`: the
/// archive part rendered as text for the archive formats (empty when the
/// part is missing), the rendered text of a web page or Markdown file, the
/// file itself for plain text.
pub open spec fn extracted_of(kind: DocumentKind, bytes: Seq<u8>) -> Result<Seq<char>, ExtractError> {
    match kind {
        DocumentKind::Pdf | DocumentKind::Epub => Err(ExtractError::NeedsFile),
        DocumentKind::Docx => match archive_entry_of(bytes, DOCX_MAIN_PART@) {
            Err(e) => Err(e),
            Ok(None) => Ok(Seq::empty()),
            Ok(Some(x)) => Ok(docx_text_of(x)),
        },
        DocumentKind::Odt => match archive_entry_of(bytes, ODT_CONTENT_PART@) {
            Err(e) => Err(e),
            Ok(None) => Ok(Seq::empty()),
            Ok(Some(x)) => Ok(odt_text_of(x)),
        },
        _ => if !valid_utf8(bytes) {
            Err(ExtractError::Encoding)
        } else {
            let t = decode_utf8(bytes);
            match kind {
                DocumentKind::Html => Ok(html_text_of(t)),
                DocumentKind::Markdown => Ok(markdown_text_of(t)),
                _ => Ok(t),
            }
        },
    }
}

pub open spec fn text_view(r: Result<String, ExtractError>) -> Result<Seq<char>, ExtractError> {
    match r {
        Ok(s) => Ok(s@),
        Err(e) => Err(e),
    }
}

/// The text of a document of kind `kind` whose file holds `bytes`.
pub fn extract_text(kind: DocumentKind, bytes: &[u8]) -> (r: Result<String, ExtractError>)
    ensures
        text_view(r) == extracted_of(kind, bytes@),
{
    match kind {
        DocumentKind::Pdf | DocumentKind::Epub => Err(ExtractError::NeedsFile),
        DocumentKind::Docx => match archive_entry(bytes, DOCX_MAIN_PART) {
            Err(e) => Err(e),
            Ok(None) => Ok(String::new()),
            Ok(Some(x)) => Ok(docx_text(x.as_str())),
        },
        DocumentKind::Odt => match archive_entry(bytes, ODT_CONTENT_PART) {
            Err(e) => Err(e),
            Ok(None) => Ok(String::new()),
            Ok(Some(x)) => Ok(odt_text(x.as_str())),
        },
        _ => match utf8_text(bytes) {
            None => Err(ExtractError::Encoding),
            Some(t) => match kind {
                DocumentKind::Html => Ok(html_text(t.as_str())),
                DocumentKind::Markdown => Ok(markdown_text(t.as_str())),
                _ => Ok(t),
            },
        },
    }
}

} // verus!
