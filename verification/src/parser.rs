//! Finding the URLs that an HTML page links to, and reading its title, text
//! and description.
use vstd::prelude::*;
use vstd::std_specs::cmp::PartialEqSpecImpl;
use crate::errors::TorDownloaderError;
use crate::text::{chars_of, owned, push_str, str_eq, string_from_range, trim, trim_string};
use crate::urls::{call_url_join, opt_view, url_join, url_parse, UrlParts, UrlView};

verus! {

/// What kind of resource a URL names.
#[derive(Clone, Copy, Debug, PartialEq, Eq, Structural)]
pub enum UrlType {
    /// HTML pages
    Page,
    /// Images, CSS, JS, etc.
    Asset,
    /// PDFs, docs, etc.
    Document,
    /// ZIP, TAR, etc.
    Archive,
    /// Unknown type
    Other,
}

/// A URL found on a page, with its kind and its depth in the crawl.
#[derive(Clone, Debug)]
pub struct ParsedUrl {
    pub url: String,
    pub url_type: UrlType,
    pub depth: usize,
}

/// The mathematical value of a [`ParsedUrl`].
pub struct ParsedUrlView {
    pub url: Seq<char>,
    pub url_type: UrlType,
    pub depth: nat,
}

impl View for ParsedUrl {
    type V = ParsedUrlView;

    open spec fn view(&self) -> ParsedUrlView {
        ParsedUrlView { url: self.url@, url_type: self.url_type, depth: self.depth as nat }
    }
}

/// Two found URLs are the same when their URL strings are.
impl PartialEq for ParsedUrl {
    fn eq(&self, other: &Self) -> (r: bool) {
        self.url == other.url
    }
}

impl PartialEqSpecImpl for ParsedUrl {
    open spec fn obeys_eq_spec() -> bool {
        true
    }

    open spec fn eq_spec(&self, other: &ParsedUrl) -> bool {
        self.url@ == other.url@
    }
}

impl Eq for ParsedUrl {

}

pub open spec fn views(v: Seq<ParsedUrl>) -> Seq<ParsedUrlView> {
    v.map_values(|p: ParsedUrl| p@)
}

/// `s` lower-cased as `str::to_lowercase` does it (Unicode lower case).
pub uninterp spec fn lowercase(s: Seq<char>) -> Seq<char>;

/// Calls `str::to_lowercase`. Claimed: the result is `lowercase` of the input.
#[verifier::external_body]
pub(crate) fn call_lowercase(s: &str) -> (r: String)
    ensures
        r@ == lowercase(s@),
{
    s.to_lowercase()
}

/// The part of `s` after the last `c`, or all of `s` when it has no `c`.
pub open spec fn after_last(s: Seq<char>, c: char) -> Seq<char>
    decreases s.len(),
{
    if s.len() == 0 {
        s
    } else if s.last() == c {
        seq![]
    } else {
        after_last(s.drop_last(), c).push(s.last())
    }
}

pub(crate) fn after_last_exec(s: &str, c: char) -> (r: String)
    ensures
        r@ == after_last(s@, c),
{
    let v = chars_of(s);
    let mut i: usize = v.len();
    assert(v@.take(i as int) =~= s@);
    assert(v@.subrange(i as int, i as int) =~= Seq::<char>::empty());
    while i > 0 && v[i - 1] != c
        invariant
            v@ == s@,
            i <= v.len(),
            after_last(s@, c) == after_last(v@.take(i as int), c) + v@.subrange(
                i as int,
                v.len() as int,
            ),
        decreases i,
    {
        assert(v@.take(i as int).drop_last() =~= v@.take(i - 1));
        assert(v@.subrange(i - 1, v.len() as int) =~= seq![v@[i - 1]] + v@.subrange(
            i as int,
            v.len() as int,
        ));
        assert(after_last(v@.take(i as int), c) =~= after_last(v@.take(i - 1), c).push(
            v@[i - 1],
        ));
        i = i - 1;
    }
    assert(v@.take(v.len() as int) =~= v@);
    if i > 0 {
        assert(v@.take(i as int).last() == c);
    }
    assert(after_last(v@.take(i as int), c) + v@.subrange(i as int, v.len() as int)
        =~= v@.subrange(i as int, v.len() as int));
    string_from_range(&v, i, v.len())
}

pub open spec fn is_image_or_script_ext(e: Seq<char>) -> bool {
    ||| e == "jpg"@
    ||| e == "jpeg"@
    ||| e == "png"@
    ||| e == "gif"@
    ||| e == "bmp"@
    ||| e == "webp"@
    ||| e == "svg"@
    ||| e == "ico"@
    ||| e == "tiff"@
    ||| e == "tif"@
    ||| e == "css"@
    ||| e == "js"@
    ||| e == "json"@
    ||| e == "xml"@
    ||| e == "xsl"@
    ||| e == "xslt"@
}

pub open spec fn is_document_ext(e: Seq<char>) -> bool {
    ||| e == "pdf"@
    ||| e == "doc"@
    ||| e == "docx"@
    ||| e == "xls"@
    ||| e == "xlsx"@
    ||| e == "ppt"@
    ||| e == "pptx"@
    ||| e == "txt"@
    ||| e == "rtf"@
    ||| e == "odt"@
    ||| e == "ods"@
    ||| e == "odp"@
}

pub open spec fn is_archive_ext(e: Seq<char>) -> bool {
    ||| e == "zip"@
    ||| e == "rar"@
    ||| e == "7z"@
    ||| e == "tar"@
    ||| e == "gz"@
    ||| e == "bz2"@
    ||| e == "xz"@
    ||| e == "z"@
}

pub open spec fn is_page_ext(e: Seq<char>) -> bool {
    ||| e == "html"@
    ||| e == "htm"@
    ||| e == "php"@
    ||| e == "asp"@
    ||| e == "aspx"@
    ||| e == "jsp"@
    ||| e == "cfm"@
    ||| e == "cgi"@
}

pub open spec fn is_media_ext(e: Seq<char>) -> bool {
    ||| e == "mp3"@
    ||| e == "mp4"@
    ||| e == "avi"@
    ||| e == "mov"@
    ||| e == "wmv"@
    ||| e == "flv"@
    ||| e == "webm"@
    ||| e == "ogg"@
    ||| e == "wav"@
    ||| e == "m4a"@
}

/// The kind of resource that a file extension names.
pub open spec fn extension_type(e: Seq<char>) -> UrlType {
    if is_image_or_script_ext(e) {
        UrlType::Asset
    } else if is_document_ext(e) {
        UrlType::Document
    } else if is_archive_ext(e) {
        UrlType::Archive
    } else if is_page_ext(e) {
        UrlType::Page
    } else if is_media_ext(e) {
        UrlType::Asset
    } else {
        UrlType::Other
    }
}

/// The kind of resource that a URL path names: by the text after the last `.`
/// of the lower-cased path; a path without `.` names a page.
pub open spec fn url_type_of(path: Seq<char>) -> UrlType {
    let p = lowercase(path);
    if p.contains('.') {
        extension_type(after_last(p, '.'))
    } else {
        UrlType::Page
    }
}

fn is_image_or_script_exec(e: &str) -> (b: bool)
    ensures
        b == is_image_or_script_ext(e@),
{
    str_eq(e, "jpg") || str_eq(e, "jpeg") || str_eq(e, "png") || str_eq(e, "gif") || str_eq(
        e,
        "bmp",
    ) || str_eq(e, "webp") || str_eq(e, "svg") || str_eq(e, "ico") || str_eq(e, "tiff")
        || str_eq(e, "tif") || str_eq(e, "css") || str_eq(e, "js") || str_eq(e, "json")
        || str_eq(e, "xml") || str_eq(e, "xsl") || str_eq(e, "xslt")
}

fn is_document_exec(e: &str) -> (b: bool)
    ensures
        b == is_document_ext(e@),
{
    str_eq(e, "pdf") || str_eq(e, "doc") || str_eq(e, "docx") || str_eq(e, "xls") || str_eq(
        e,
        "xlsx",
    ) || str_eq(e, "ppt") || str_eq(e, "pptx") || str_eq(e, "txt") || str_eq(e, "rtf")
        || str_eq(e, "odt") || str_eq(e, "ods") || str_eq(e, "odp")
}

fn is_archive_exec(e: &str) -> (b: bool)
    ensures
        b == is_archive_ext(e@),
{
    str_eq(e, "zip") || str_eq(e, "rar") || str_eq(e, "7z") || str_eq(e, "tar") || str_eq(
        e,
        "gz",
    ) || str_eq(e, "bz2") || str_eq(e, "xz") || str_eq(e, "z")
}

fn is_page_exec(e: &str) -> (b: bool)
    ensures
        b == is_page_ext(e@),
{
    str_eq(e, "html") || str_eq(e, "htm") || str_eq(e, "php") || str_eq(e, "asp") || str_eq(
        e,
        "aspx",
    ) || str_eq(e, "jsp") || str_eq(e, "cfm") || str_eq(e, "cgi")
}

fn is_media_exec(e: &str) -> (b: bool)
    ensures
        b == is_media_ext(e@),
{
    str_eq(e, "mp3") || str_eq(e, "mp4") || str_eq(e, "avi") || str_eq(e, "mov") || str_eq(
        e,
        "wmv",
    ) || str_eq(e, "flv") || str_eq(e, "webm") || str_eq(e, "ogg") || str_eq(e, "wav")
        || str_eq(e, "m4a")
}

/// The kind of resource that a file extension names.
pub fn extension_type_of(e: &str) -> (t: UrlType)
    ensures
        t == extension_type(e@),
{
    if is_image_or_script_exec(e) {
        UrlType::Asset
    } else if is_document_exec(e) {
        UrlType::Document
    } else if is_archive_exec(e) {
        UrlType::Archive
    } else if is_page_exec(e) {
        UrlType::Page
    } else if is_media_exec(e) {
        UrlType::Asset
    } else {
        UrlType::Other
    }
}

/// The part after the last `c` of a text that ends with `c` followed by a
/// text without `c` is that text.
pub proof fn lemma_after_last_suffix(s: Seq<char>, t: Seq<char>, c: char)
    requires
        !t.contains(c),
    ensures
        after_last(s.push(c) + t, c) == t,
    decreases t.len(),
{
    if t.len() == 0 {
        assert(s.push(c) + t =~= s.push(c));
    } else {
        lemma_after_last_suffix(s, t.drop_last(), c);
        assert((s.push(c) + t).drop_last() =~= s.push(c) + t.drop_last());
        assert(t.last() == t[t.len() - 1]);
        assert(t.drop_last().push(t.last()) =~= t);
    }
}

/// A URL whose lower-cased path ends with `.` and one of jpg, jpeg, png, gif, bmp, webp, svg, ico, tiff, tif, css, js, json, xml, xsl, xslt
/// names asset (asset (images, stylesheets, scripts)).
pub proof fn lemma_asset_extensions(path: Seq<char>, stem: Seq<char>, ext: Seq<char>)
    requires
        ext == "jpg"@ || ext == "jpeg"@ || ext == "png"@ || ext == "gif"@ || ext == "bmp"@ || ext == "webp"@ || ext == "svg"@ || ext == "ico"@ || ext == "tiff"@ || ext == "tif"@ || ext == "css"@ || ext == "js"@ || ext == "json"@ || ext == "xml"@ || ext == "xsl"@ || ext == "xslt"@,
        lowercase(path) == stem.push('.') + ext,
    ensures
        url_type_of(path) == UrlType::Asset,
{
    reveal_strlit("jpg");
    reveal_strlit("jpeg");
    reveal_strlit("png");
    reveal_strlit("gif");
    reveal_strlit("bmp");
    reveal_strlit("webp");
    reveal_strlit("svg");
    reveal_strlit("ico");
    reveal_strlit("tiff");
    reveal_strlit("tif");
    reveal_strlit("css");
    reveal_strlit("js");
    reveal_strlit("json");
    reveal_strlit("xml");
    reveal_strlit("xsl");
    reveal_strlit("xslt");
    reveal_strlit("pdf");
    reveal_strlit("doc");
    reveal_strlit("docx");
    reveal_strlit("xls");
    reveal_strlit("xlsx");
    reveal_strlit("ppt");
    reveal_strlit("pptx");
    reveal_strlit("txt");
    reveal_strlit("rtf");
    reveal_strlit("odt");
    reveal_strlit("ods");
    reveal_strlit("odp");
    reveal_strlit("zip");
    reveal_strlit("rar");
    reveal_strlit("7z");
    reveal_strlit("tar");
    reveal_strlit("gz");
    reveal_strlit("bz2");
    reveal_strlit("xz");
    reveal_strlit("z");
    reveal_strlit("html");
    reveal_strlit("htm");
    reveal_strlit("php");
    reveal_strlit("asp");
    reveal_strlit("aspx");
    reveal_strlit("jsp");
    reveal_strlit("cfm");
    reveal_strlit("cgi");
    reveal_strlit("mp3");
    reveal_strlit("mp4");
    reveal_strlit("avi");
    reveal_strlit("mov");
    reveal_strlit("wmv");
    reveal_strlit("flv");
    reveal_strlit("webm");
    reveal_strlit("ogg");
    reveal_strlit("wav");
    reveal_strlit("m4a");
    assert(!ext.contains('.'));
    lemma_after_last_suffix(stem, ext, '.');
    assert(lowercase(path)[stem.len() as int] == '.');
}

/// A URL whose lower-cased path ends with `.` and one of pdf, doc, docx, xls, xlsx, ppt, pptx, txt, rtf, odt, ods, odp
/// names document (document).
pub proof fn lemma_document_extensions(path: Seq<char>, stem: Seq<char>, ext: Seq<char>)
    requires
        ext == "pdf"@ || ext == "doc"@ || ext == "docx"@ || ext == "xls"@ || ext == "xlsx"@ || ext == "ppt"@ || ext == "pptx"@ || ext == "txt"@ || ext == "rtf"@ || ext == "odt"@ || ext == "ods"@ || ext == "odp"@,
        lowercase(path) == stem.push('.') + ext,
    ensures
        url_type_of(path) == UrlType::Document,
{
    reveal_strlit("jpg");
    reveal_strlit("jpeg");
    reveal_strlit("png");
    reveal_strlit("gif");
    reveal_strlit("bmp");
    reveal_strlit("webp");
    reveal_strlit("svg");
    reveal_strlit("ico");
    reveal_strlit("tiff");
    reveal_strlit("tif");
    reveal_strlit("css");
    reveal_strlit("js");
    reveal_strlit("json");
    reveal_strlit("xml");
    reveal_strlit("xsl");
    reveal_strlit("xslt");
    reveal_strlit("pdf");
    reveal_strlit("doc");
    reveal_strlit("docx");
    reveal_strlit("xls");
    reveal_strlit("xlsx");
    reveal_strlit("ppt");
    reveal_strlit("pptx");
    reveal_strlit("txt");
    reveal_strlit("rtf");
    reveal_strlit("odt");
    reveal_strlit("ods");
    reveal_strlit("odp");
    reveal_strlit("zip");
    reveal_strlit("rar");
    reveal_strlit("7z");
    reveal_strlit("tar");
    reveal_strlit("gz");
    reveal_strlit("bz2");
    reveal_strlit("xz");
    reveal_strlit("z");
    reveal_strlit("html");
    reveal_strlit("htm");
    reveal_strlit("php");
    reveal_strlit("asp");
    reveal_strlit("aspx");
    reveal_strlit("jsp");
    reveal_strlit("cfm");
    reveal_strlit("cgi");
    reveal_strlit("mp3");
    reveal_strlit("mp4");
    reveal_strlit("avi");
    reveal_strlit("mov");
    reveal_strlit("wmv");
    reveal_strlit("flv");
    reveal_strlit("webm");
    reveal_strlit("ogg");
    reveal_strlit("wav");
    reveal_strlit("m4a");
    if ext == "pdf"@ {
        assert(ext.len() == 3 && ext[0] == 'p' && ext[1] == 'd' && ext[2] == 'f');
    }
    if ext == "doc"@ {
        assert(ext.len() == 3 && ext[0] == 'd' && ext[1] == 'o' && ext[2] == 'c');
    }
    if ext == "docx"@ {
        assert(ext.len() == 4 && ext[0] == 'd' && ext[1] == 'o' && ext[2] == 'c' && ext[3] == 'x');
    }
    if ext == "xls"@ {
        assert(ext.len() == 3 && ext[0] == 'x' && ext[1] == 'l' && ext[2] == 's');
    }
    if ext == "xlsx"@ {
        assert(ext.len() == 4 && ext[0] == 'x' && ext[1] == 'l' && ext[2] == 's' && ext[3] == 'x');
    }
    if ext == "ppt"@ {
        assert(ext.len() == 3 && ext[0] == 'p' && ext[1] == 'p' && ext[2] == 't');
    }
    if ext == "pptx"@ {
        assert(ext.len() == 4 && ext[0] == 'p' && ext[1] == 'p' && ext[2] == 't' && ext[3] == 'x');
    }
    if ext == "txt"@ {
        assert(ext.len() == 3 && ext[0] == 't' && ext[1] == 'x' && ext[2] == 't');
    }
    if ext == "rtf"@ {
        assert(ext.len() == 3 && ext[0] == 'r' && ext[1] == 't' && ext[2] == 'f');
    }
    if ext == "odt"@ {
        assert(ext.len() == 3 && ext[0] == 'o' && ext[1] == 'd' && ext[2] == 't');
    }
    if ext == "ods"@ {
        assert(ext.len() == 3 && ext[0] == 'o' && ext[1] == 'd' && ext[2] == 's');
    }
    if ext == "odp"@ {
        assert(ext.len() == 3 && ext[0] == 'o' && ext[1] == 'd' && ext[2] == 'p');
    }
    assert(!ext.contains('.'));
    lemma_after_last_suffix(stem, ext, '.');
    assert(lowercase(path)[stem.len() as int] == '.');
}

/// A URL whose lower-cased path ends with `.` and one of zip, rar, 7z, tar, gz, bz2, xz, z
/// names archive (archive).
pub proof fn lemma_archive_extensions(path: Seq<char>, stem: Seq<char>, ext: Seq<char>)
    requires
        ext == "zip"@ || ext == "rar"@ || ext == "7z"@ || ext == "tar"@ || ext == "gz"@ || ext == "bz2"@ || ext == "xz"@ || ext == "z"@,
        lowercase(path) == stem.push('.') + ext,
    ensures
        url_type_of(path) == UrlType::Archive,
{
    reveal_strlit("jpg");
    reveal_strlit("jpeg");
    reveal_strlit("png");
    reveal_strlit("gif");
    reveal_strlit("bmp");
    reveal_strlit("webp");
    reveal_strlit("svg");
    reveal_strlit("ico");
    reveal_strlit("tiff");
    reveal_strlit("tif");
    reveal_strlit("css");
    reveal_strlit("js");
    reveal_strlit("json");
    reveal_strlit("xml");
    reveal_strlit("xsl");
    reveal_strlit("xslt");
    reveal_strlit("pdf");
    reveal_strlit("doc");
    reveal_strlit("docx");
    reveal_strlit("xls");
    reveal_strlit("xlsx");
    reveal_strlit("ppt");
    reveal_strlit("pptx");
    reveal_strlit("txt");
    reveal_strlit("rtf");
    reveal_strlit("odt");
    reveal_strlit("ods");
    reveal_strlit("odp");
    reveal_strlit("zip");
    reveal_strlit("rar");
    reveal_strlit("7z");
    reveal_strlit("tar");
    reveal_strlit("gz");
    reveal_strlit("bz2");
    reveal_strlit("xz");
    reveal_strlit("z");
    reveal_strlit("html");
    reveal_strlit("htm");
    reveal_strlit("php");
    reveal_strlit("asp");
    reveal_strlit("aspx");
    reveal_strlit("jsp");
    reveal_strlit("cfm");
    reveal_strlit("cgi");
    reveal_strlit("mp3");
    reveal_strlit("mp4");
    reveal_strlit("avi");
    reveal_strlit("mov");
    reveal_strlit("wmv");
    reveal_strlit("flv");
    reveal_strlit("webm");
    reveal_strlit("ogg");
    reveal_strlit("wav");
    reveal_strlit("m4a");
    if ext == "zip"@ {
        assert(ext.len() == 3 && ext[0] == 'z' && ext[1] == 'i' && ext[2] == 'p');
    }
    if ext == "rar"@ {
        assert(ext.len() == 3 && ext[0] == 'r' && ext[1] == 'a' && ext[2] == 'r');
    }
    if ext == "7z"@ {
        assert(ext.len() == 2 && ext[0] == '7' && ext[1] == 'z');
    }
    if ext == "tar"@ {
        assert(ext.len() == 3 && ext[0] == 't' && ext[1] == 'a' && ext[2] == 'r');
    }
    if ext == "gz"@ {
        assert(ext.len() == 2 && ext[0] == 'g' && ext[1] == 'z');
    }
    if ext == "bz2"@ {
        assert(ext.len() == 3 && ext[0] == 'b' && ext[1] == 'z' && ext[2] == '2');
    }
    if ext == "xz"@ {
        assert(ext.len() == 2 && ext[0] == 'x' && ext[1] == 'z');
    }
    if ext == "z"@ {
        assert(ext.len() == 1 && ext[0] == 'z');
    }
    assert(!ext.contains('.'));
    lemma_after_last_suffix(stem, ext, '.');
    assert(lowercase(path)[stem.len() as int] == '.');
}

/// A URL whose lower-cased path ends with `.` and one of html, htm, php, asp, aspx, jsp, cfm, cgi
/// names page (page).
pub proof fn lemma_page_extensions(path: Seq<char>, stem: Seq<char>, ext: Seq<char>)
    requires
        ext == "html"@ || ext == "htm"@ || ext == "php"@ || ext == "asp"@ || ext == "aspx"@ || ext == "jsp"@ || ext == "cfm"@ || ext == "cgi"@,
        lowercase(path) == stem.push('.') + ext,
    ensures
        url_type_of(path) == UrlType::Page,
{
    reveal_strlit("jpg");
    reveal_strlit("jpeg");
    reveal_strlit("png");
    reveal_strlit("gif");
    reveal_strlit("bmp");
    reveal_strlit("webp");
    reveal_strlit("svg");
    reveal_strlit("ico");
    reveal_strlit("tiff");
    reveal_strlit("tif");
    reveal_strlit("css");
    reveal_strlit("js");
    reveal_strlit("json");
    reveal_strlit("xml");
    reveal_strlit("xsl");
    reveal_strlit("xslt");
    reveal_strlit("pdf");
    reveal_strlit("doc");
    reveal_strlit("docx");
    reveal_strlit("xls");
    reveal_strlit("xlsx");
    reveal_strlit("ppt");
    reveal_strlit("pptx");
    reveal_strlit("txt");
    reveal_strlit("rtf");
    reveal_strlit("odt");
    reveal_strlit("ods");
    reveal_strlit("odp");
    reveal_strlit("zip");
    reveal_strlit("rar");
    reveal_strlit("7z");
    reveal_strlit("tar");
    reveal_strlit("gz");
    reveal_strlit("bz2");
    reveal_strlit("xz");
    reveal_strlit("z");
    reveal_strlit("html");
    reveal_strlit("htm");
    reveal_strlit("php");
    reveal_strlit("asp");
    reveal_strlit("aspx");
    reveal_strlit("jsp");
    reveal_strlit("cfm");
    reveal_strlit("cgi");
    reveal_strlit("mp3");
    reveal_strlit("mp4");
    reveal_strlit("avi");
    reveal_strlit("mov");
    reveal_strlit("wmv");
    reveal_strlit("flv");
    reveal_strlit("webm");
    reveal_strlit("ogg");
    reveal_strlit("wav");
    reveal_strlit("m4a");
    if ext == "html"@ {
        assert(ext.len() == 4 && ext[0] == 'h' && ext[1] == 't' && ext[2] == 'm' && ext[3] == 'l');
    }
    if ext == "htm"@ {
        assert(ext.len() == 3 && ext[0] == 'h' && ext[1] == 't' && ext[2] == 'm');
    }
    if ext == "php"@ {
        assert(ext.len() == 3 && ext[0] == 'p' && ext[1] == 'h' && ext[2] == 'p');
    }
    if ext == "asp"@ {
        assert(ext.len() == 3 && ext[0] == 'a' && ext[1] == 's' && ext[2] == 'p');
    }
    if ext == "aspx"@ {
        assert(ext.len() == 4 && ext[0] == 'a' && ext[1] == 's' && ext[2] == 'p' && ext[3] == 'x');
    }
    if ext == "jsp"@ {
        assert(ext.len() == 3 && ext[0] == 'j' && ext[1] == 's' && ext[2] == 'p');
    }
    if ext == "cfm"@ {
        assert(ext.len() == 3 && ext[0] == 'c' && ext[1] == 'f' && ext[2] == 'm');
    }
    if ext == "cgi"@ {
        assert(ext.len() == 3 && ext[0] == 'c' && ext[1] == 'g' && ext[2] == 'i');
    }
    assert(!ext.contains('.'));
    lemma_after_last_suffix(stem, ext, '.');
    assert(lowercase(path)[stem.len() as int] == '.');
}

/// A URL whose lower-cased path ends with `.` and one of mp3, mp4, avi, mov, wmv, flv, webm, ogg, wav, m4a
/// names asset (asset (media)).
pub proof fn lemma_media_extensions(path: Seq<char>, stem: Seq<char>, ext: Seq<char>)
    requires
        ext == "mp3"@ || ext == "mp4"@ || ext == "avi"@ || ext == "mov"@ || ext == "wmv"@ || ext == "flv"@ || ext == "webm"@ || ext == "ogg"@ || ext == "wav"@ || ext == "m4a"@,
        lowercase(path) == stem.push('.') + ext,
    ensures
        url_type_of(path) == UrlType::Asset,
{
    reveal_strlit("jpg");
    reveal_strlit("jpeg");
    reveal_strlit("png");
    reveal_strlit("gif");
    reveal_strlit("bmp");
    reveal_strlit("webp");
    reveal_strlit("svg");
    reveal_strlit("ico");
    reveal_strlit("tiff");
    reveal_strlit("tif");
    reveal_strlit("css");
    reveal_strlit("js");
    reveal_strlit("json");
    reveal_strlit("xml");
    reveal_strlit("xsl");
    reveal_strlit("xslt");
    reveal_strlit("pdf");
    reveal_strlit("doc");
    reveal_strlit("docx");
    reveal_strlit("xls");
    reveal_strlit("xlsx");
    reveal_strlit("ppt");
    reveal_strlit("pptx");
    reveal_strlit("txt");
    reveal_strlit("rtf");
    reveal_strlit("odt");
    reveal_strlit("ods");
    reveal_strlit("odp");
    reveal_strlit("zip");
    reveal_strlit("rar");
    reveal_strlit("7z");
    reveal_strlit("tar");
    reveal_strlit("gz");
    reveal_strlit("bz2");
    reveal_strlit("xz");
    reveal_strlit("z");
    reveal_strlit("html");
    reveal_strlit("htm");
    reveal_strlit("php");
    reveal_strlit("asp");
    reveal_strlit("aspx");
    reveal_strlit("jsp");
    reveal_strlit("cfm");
    reveal_strlit("cgi");
    reveal_strlit("mp3");
    reveal_strlit("mp4");
    reveal_strlit("avi");
    reveal_strlit("mov");
    reveal_strlit("wmv");
    reveal_strlit("flv");
    reveal_strlit("webm");
    reveal_strlit("ogg");
    reveal_strlit("wav");
    reveal_strlit("m4a");
    if ext == "mp3"@ {
        assert(ext.len() == 3 && ext[0] == 'm' && ext[1] == 'p' && ext[2] == '3');
    }
    if ext == "mp4"@ {
        assert(ext.len() == 3 && ext[0] == 'm' && ext[1] == 'p' && ext[2] == '4');
    }
    if ext == "avi"@ {
        assert(ext.len() == 3 && ext[0] == 'a' && ext[1] == 'v' && ext[2] == 'i');
    }
    if ext == "mov"@ {
        assert(ext.len() == 3 && ext[0] == 'm' && ext[1] == 'o' && ext[2] == 'v');
    }
    if ext == "wmv"@ {
        assert(ext.len() == 3 && ext[0] == 'w' && ext[1] == 'm' && ext[2] == 'v');
    }
    if ext == "flv"@ {
        assert(ext.len() == 3 && ext[0] == 'f' && ext[1] == 'l' && ext[2] == 'v');
    }
    if ext == "webm"@ {
        assert(ext.len() == 4 && ext[0] == 'w' && ext[1] == 'e' && ext[2] == 'b' && ext[3] == 'm');
    }
    if ext == "ogg"@ {
        assert(ext.len() == 3 && ext[0] == 'o' && ext[1] == 'g' && ext[2] == 'g');
    }
    if ext == "wav"@ {
        assert(ext.len() == 3 && ext[0] == 'w' && ext[1] == 'a' && ext[2] == 'v');
    }
    if ext == "m4a"@ {
        assert(ext.len() == 3 && ext[0] == 'm' && ext[1] == '4' && ext[2] == 'a');
    }
    assert(!ext.contains('.'));
    lemma_after_last_suffix(stem, ext, '.');
    assert(lowercase(path)[stem.len() as int] == '.');
}

/// Whether `u` is a link that the crawl follows from a site whose URL is `base`:
/// same scheme, same host, no fragment, and not a `javascript:` or `mailto:` URL.
pub open spec fn is_valid_link(base: UrlView, u: UrlView) -> bool {
    &&& u.scheme == base.scheme
    &&& base.host is Some
    &&& u.host is Some
    &&& base.host == u.host
    &&& u.fragment is None
    &&& u.scheme != "javascript"@
    &&& u.scheme != "mailto"@
}

/// A link is followed exactly when it has the base URL's scheme and host (the
/// base URL having one), no fragment, and is not a `javascript:` or
/// `mailto:` URL.
pub proof fn lemma_valid_link_iff(base: UrlView, u: UrlView)
    ensures
        is_valid_link(base, u) <==> (u.scheme == base.scheme && base.host is Some && u.host
            == base.host && u.fragment is None && u.scheme != "javascript"@ && u.scheme
            != "mailto"@),
{
}

/// How the kind of a found URL is decided.
#[derive(Clone, Copy, Debug, PartialEq, Eq, Structural)]
pub enum LinkKind {
    /// By the extension of its path (`<a>`, `<area>`).
    ByExtension,
    /// Always an asset (`<img>`, `<link>`, `<script>`, `<source>`, `<video>`, `<audio>`).
    Asset,
    /// Always a page (`<form>`).
    Page,
}

pub open spec fn link_type(kind: LinkKind, u: UrlView) -> UrlType {
    match kind {
        LinkKind::ByExtension => url_type_of(u.path),
        LinkKind::Asset => UrlType::Asset,
        LinkKind::Page => UrlType::Page,
    }
}

/// The number of element queries that `parse_html` makes.
pub open spec fn query_count() -> nat {
    9
}

/// The CSS selector of query `i`.
pub open spec fn query_selector(i: nat) -> Seq<char> {
    if i == 0 {
        "a[href]"@
    } else if i == 1 {
        "area[href]"@
    } else if i == 2 {
        "img[src]"@
    } else if i == 3 {
        "link[href]"@
    } else if i == 4 {
        "script[src]"@
    } else if i == 5 {
        "source[src]"@
    } else if i == 6 {
        "video[src]"@
    } else if i == 7 {
        "audio[src]"@
    } else {
        "form[action]"@
    }
}

/// The attribute that query `i` reads.
pub open spec fn query_attr(i: nat) -> Seq<char> {
    if i == 0 || i == 1 || i == 3 {
        "href"@
    } else if i == 8 {
        "action"@
    } else {
        "src"@
    }
}

pub open spec fn query_kind(i: nat) -> LinkKind {
    if i <= 1 {
        LinkKind::ByExtension
    } else if i == 8 {
        LinkKind::Page
    } else {
        LinkKind::Asset
    }
}

/// The start of the error message when query `i`'s selector does not parse.
pub open spec fn query_error_prefix(i: nat) -> Seq<char> {
    if i == 0 || i == 3 {
        "Failed to create link selector: "@
    } else if i == 1 {
        "Failed to create area selector: "@
    } else if i == 2 {
        "Failed to create img selector: "@
    } else if i == 4 {
        "Failed to create script selector: "@
    } else if i == 5 {
        "Failed to create source selector: "@
    } else if i == 6 {
        "Failed to create video selector: "@
    } else if i == 7 {
        "Failed to create audio selector: "@
    } else {
        "Failed to create form selector: "@
    }
}

fn query(i: usize) -> (r: (&'static str, &'static str, LinkKind, &'static str))
    requires
        i < 9,
    ensures
        r.0@ == query_selector(i as nat),
        r.1@ == query_attr(i as nat),
        r.2 == query_kind(i as nat),
        r.3@ == query_error_prefix(i as nat),
{
    if i == 0 {
        ("a[href]", "href", LinkKind::ByExtension, "Failed to create link selector: ")
    } else if i == 1 {
        ("area[href]", "href", LinkKind::ByExtension, "Failed to create area selector: ")
    } else if i == 2 {
        ("img[src]", "src", LinkKind::Asset, "Failed to create img selector: ")
    } else if i == 3 {
        ("link[href]", "href", LinkKind::Asset, "Failed to create link selector: ")
    } else if i == 4 {
        ("script[src]", "src", LinkKind::Asset, "Failed to create script selector: ")
    } else if i == 5 {
        ("source[src]", "src", LinkKind::Asset, "Failed to create source selector: ")
    } else if i == 6 {
        ("video[src]", "src", LinkKind::Asset, "Failed to create video selector: ")
    } else if i == 7 {
        ("audio[src]", "src", LinkKind::Asset, "Failed to create audio selector: ")
    } else {
        ("form[action]", "action", LinkKind::Page, "Failed to create form selector: ")
    }
}

/// For each element that `selector` selects in the document `html`, in
/// document order, the value of its attribute `attr` if it has one; or, when
/// the selector does not parse, the `Debug` text of the selector error.
pub uninterp spec fn html_select_attr(html: Seq<char>, selector: Seq<char>, attr: Seq<char>) -> Result<
    Seq<Option<Seq<char>>>,
    Seq<char>,
>;

/// For each element that `selector` selects in the document `html`, in
/// document order, all its text; or the `Debug` text of the selector error.
pub uninterp spec fn html_select_text(html: Seq<char>, selector: Seq<char>) -> Result<
    Seq<Seq<char>>,
    Seq<char>,
>;

pub open spec fn attr_values_view(r: Result<Vec<Option<String>>, String>) -> Result<
    Seq<Option<Seq<char>>>,
    Seq<char>,
> {
    match r {
        Ok(v) => Ok(v@.map_values(|o: Option<String>| opt_view(o))),
        Err(e) => Err(e@),
    }
}

pub open spec fn texts_view(r: Result<Vec<String>, String>) -> Result<Seq<Seq<char>>, Seq<char>> {
    match r {
        Ok(v) => Ok(v@.map_values(|s: String| s@)),
        Err(e) => Err(e@),
    }
}

/// Parses the document with `scraper::Html::parse_document` and the selector
/// with `scraper::Selector::parse`, then reads the attribute of each selected
/// element (`Html::select`, `Element::attr`). Claimed: the result is
/// `html_select_attr` of the three inputs.
#[verifier::external_body]
fn call_select_attr(html: &str, selector: &str, attr: &str) -> (r: Result<
    Vec<Option<String>>,
    String,
>)
    ensures
        attr_values_view(r) == html_select_attr(html@, selector@, attr@),
{
    let document = scraper::Html::parse_document(html);
    match scraper::Selector::parse(selector) {
        Ok(sel) => Ok(document.select(&sel).map(|e| e.value().attr(attr).map(String::from)).collect()),
        Err(e) => Err(format!("{:?}", e)),
    }
}

/// Parses the document and the selector as `call_select_attr` does, then
/// collects all the text of each selected element (`ElementRef::text`).
/// Claimed: the result is `html_select_text` of the two inputs.
#[verifier::external_body]
fn call_select_text(html: &str, selector: &str) -> (r: Result<Vec<String>, String>)
    ensures
        texts_view(r) == html_select_text(html@, selector@),
{
    let document = scraper::Html::parse_document(html);
    match scraper::Selector::parse(selector) {
        Ok(sel) => Ok(document.select(&sel).map(|e| e.text().collect::<String>()).collect()),
        Err(e) => Err(format!("{:?}", e)),
    }
}

/// The URLs that the attribute values `values` lead to, resolved against
/// `current`, kept when they are valid links from `base`, in order.
pub open spec fn candidates(
    base: UrlView,
    current: Seq<char>,
    depth: nat,
    kind: LinkKind,
    values: Seq<Option<Seq<char>>>,
) -> Seq<ParsedUrlView>
    decreases values.len(),
{
    if values.len() == 0 {
        seq![]
    } else {
        let prev = candidates(base, current, depth, kind, values.drop_last());
        match values.last() {
            Some(v) => match url_join(current, v) {
                Ok(u) => if is_valid_link(base, u) {
                    prev.push(
                        ParsedUrlView {
                            url: u.serialization,
                            url_type: link_type(kind, u),
                            depth: depth + 1,
                        },
                    )
                } else {
                    prev
                },
                Err(_) => prev,
            },
            None => prev,
        }
    }
}

/// The URLs found by the first `n` queries, in order, or the error of the
/// first query whose selector does not parse.
pub open spec fn gather(base: UrlView, html: Seq<char>, current: Seq<char>, depth: nat, n: nat) -> Result<
    Seq<ParsedUrlView>,
    Seq<char>,
>
    decreases n,
{
    if n == 0 {
        Ok(seq![])
    } else {
        match gather(base, html, current, depth, (n - 1) as nat) {
            Err(m) => Err(m),
            Ok(prev) => match html_select_attr(
                html,
                query_selector((n - 1) as nat),
                query_attr((n - 1) as nat),
            ) {
                Err(t) => Err(query_error_prefix((n - 1) as nat) + t),
                Ok(values) => Ok(
                    prev + candidates(base, current, depth, query_kind((n - 1) as nat), values),
                ),
            },
        }
    }
}

pub open spec fn has_url(s: Seq<ParsedUrlView>, url: Seq<char>) -> bool {
    exists|i: int| 0 <= i < s.len() && (#[trigger] s[i]).url == url
}

/// `s` with every element whose URL occurred earlier removed.
pub open spec fn dedup_by_url(s: Seq<ParsedUrlView>) -> Seq<ParsedUrlView>
    decreases s.len(),
{
    if s.len() == 0 {
        seq![]
    } else {
        let d = dedup_by_url(s.drop_last());
        if has_url(d, s.last().url) {
            d
        } else {
            d.push(s.last())
        }
    }
}

/// What `parse_html` finds: the URLs of all queries, each URL once (first
/// occurrence), or the error of the first query that fails.
pub open spec fn parse_html_spec(base: UrlView, html: Seq<char>, current: Seq<char>, depth: nat) -> Result<
    Seq<ParsedUrlView>,
    Seq<char>,
> {
    match gather(base, html, current, depth, query_count()) {
        Ok(all) => Ok(dedup_by_url(all)),
        Err(m) => Err(m),
    }
}

/// No URL occurs twice.
pub open spec fn distinct_urls(s: Seq<ParsedUrlView>) -> bool {
    forall|i: int, j: int| 0 <= i < j < s.len() ==> (#[trigger] s[i]).url != (#[trigger] s[j]).url
}

/// The first text of the list that is not empty once trimmed, trimmed.
pub open spec fn first_nonblank(texts: Seq<Seq<char>>) -> Option<Seq<char>>
    decreases texts.len(),
{
    if texts.len() == 0 {
        None
    } else if trim(texts[0]).len() > 0 {
        Some(trim(texts[0]))
    } else {
        first_nonblank(texts.drop_first())
    }
}

/// The present values of the list, in order.
pub open spec fn present(values: Seq<Option<Seq<char>>>) -> Seq<Seq<char>>
    decreases values.len(),
{
    if values.len() == 0 {
        seq![]
    } else {
        let rest = present(values.drop_first());
        match values[0] {
            Some(v) => seq![v] + rest,
            None => rest,
        }
    }
}

/// All the texts, one after the other.
pub open spec fn concat_all(texts: Seq<Seq<char>>) -> Seq<char>
    decreases texts.len(),
{
    if texts.len() == 0 {
        seq![]
    } else {
        concat_all(texts.drop_last()) + texts.last()
    }
}

/// Parses the HTML of a page for the links it holds.
pub struct HtmlParser {
    base_url: UrlParts,
}

impl HtmlParser {
    /// The URL of the site being crawled.
    pub closed spec fn base(&self) -> UrlView {
        self.base_url@
    }

    /// A parser for the site at `base_url`.
    pub fn new(base_url: &str) -> (r: Result<Self, TorDownloaderError>)
        ensures
            match url_parse(base_url@) {
                Ok(u) => r matches Ok(p) && p.base() == u,
                Err(m) => r matches Err(e) && e matches TorDownloaderError::Parse(x) && x@
                    == "Invalid base URL: "@ + m,
            },
    {
        match UrlParts::parse(base_url) {
            Ok(u) => Ok(HtmlParser { base_url: u }),
            Err(e) => {
                let mut msg = owned("Invalid base URL: ");
                push_str(&mut msg, e.text.as_str());
                Err(TorDownloaderError::Parse(msg))
            },
        }
    }

    /// Whether a resolved URL is one that the crawl follows.
    pub fn is_valid_url(&self, url: &UrlParts) -> (b: bool)
        ensures
            b == is_valid_link(self.base(), url@),
    {
        if !str_eq(url.scheme.as_str(), self.base_url.scheme.as_str()) {
            return false;
        }
        match (&self.base_url.host, &url.host) {
            (Some(base_host), Some(url_host)) => {
                if !str_eq(base_host.as_str(), url_host.as_str()) {
                    return false;
                }
            },
            _ => {
                return false;
            },
        }
        if url.fragment.is_some() {
            return false;
        }
        if str_eq(url.scheme.as_str(), "javascript") || str_eq(url.scheme.as_str(), "mailto") {
            return false;
        }
        true
    }

    /// The kind of resource a URL names, by the extension of its path.
    pub fn determine_url_type(&self, url: &UrlParts) -> (t: UrlType)
        ensures
            t == url_type_of(url.path@),
    {
        let path = call_lowercase(url.path.as_str());
        if crate::text::has_char(path.as_str(), '.') {
            let ext = after_last_exec(path.as_str(), '.');
            extension_type_of(ext.as_str())
        } else {
            UrlType::Page
        }
    }

    /// Adds the URLs that attribute values lead to, skipping URLs already found.
    fn add_candidates(
        &self,
        found: &mut Vec<ParsedUrl>,
        values: &Vec<Option<String>>,
        current_url: &str,
        depth: usize,
        kind: LinkKind,
        Ghost(all): Ghost<Seq<ParsedUrlView>>,
    )
        requires
            depth < usize::MAX,
            views(old(found)@) == dedup_by_url(all),
        ensures
            views(final(found)@) == dedup_by_url(
                all + candidates(
                    self.base(),
                    current_url@,
                    depth as nat,
                    kind,
                    values@.map_values(|o: Option<String>| opt_view(o)),
                ),
            ),
    {
        let ghost vals = values@.map_values(|o: Option<String>| opt_view(o));
        let mut i: usize = 0;
        while i < values.len()
            invariant
                depth < usize::MAX,
                i <= values.len(),
                vals == values@.map_values(|o: Option<String>| opt_view(o)),
                views(found@) == dedup_by_url(
                    all + candidates(
                        self.base(),
                        current_url@,
                        depth as nat,
                        kind,
                        vals.take(i as int),
                    ),
                ),
            decreases values.len() - i,
        {
            let ghost prev = all + candidates(
                self.base(),
                current_url@,
                depth as nat,
                kind,
                vals.take(i as int),
            );
            assert(vals.take(i + 1).drop_last() =~= vals.take(i as int));
            assert(vals.take(i + 1).last() == opt_view(values@[i as int]));
            match &values[i] {
                Some(href) => {
                    match call_url_join(current_url, href.as_str()) {
                        Ok(u) => {
                            if self.is_valid_url(&u) {
                                let url_type = match kind {
                                    LinkKind::ByExtension => self.determine_url_type(&u),
                                    LinkKind::Asset => UrlType::Asset,
                                    LinkKind::Page => UrlType::Page,
                                };
                                let p = ParsedUrl {
                                    url: u.serialization,
                                    url_type,
                                    depth: depth + 1,
                                };
                                let ghost next = prev.push(p@);
                                assert(next.drop_last() =~= prev);
                                let seen = contains_url(found, &p.url);
                                if !seen {
                                    let ghost before = views(found@);
                                    let ghost pv = p@;
                                    found.push(p);
                                    assert(views(found@) =~= before.push(pv));
                                }
                                assert(all + candidates(
                                    self.base(),
                                    current_url@,
                                    depth as nat,
                                    kind,
                                    vals.take(i + 1),
                                ) =~= next);
                            } else {
                                assert(all + candidates(
                                    self.base(),
                                    current_url@,
                                    depth as nat,
                                    kind,
                                    vals.take(i + 1),
                                ) =~= prev);
                            }
                        },
                        Err(_) => {
                            assert(all + candidates(
                                self.base(),
                                current_url@,
                                depth as nat,
                                kind,
                                vals.take(i + 1),
                            ) =~= prev);
                        },
                    }
                },
                None => {
                    assert(all + candidates(
                        self.base(),
                        current_url@,
                        depth as nat,
                        kind,
                        vals.take(i + 1),
                    ) =~= prev);
                },
            }
            i = i + 1;
        }
        assert(vals.take(values.len() as int) =~= vals);
    }

    /// Parses a page's HTML for links (`<a>`, `<area>`), assets (`<img>`,
    /// `<link>`, `<script>`, `<source>`, `<video>`, `<audio>`) and form actions;
    /// each found URL has depth `depth + 1` and occurs once.
    pub fn parse_html(&self, html_content: &str, current_url: &str, depth: usize) -> (r: Result<
        Vec<ParsedUrl>,
        TorDownloaderError,
    >)
        requires
            depth < usize::MAX,
        ensures
            match parse_html_spec(self.base(), html_content@, current_url@, depth as nat) {
                Ok(s) => r matches Ok(v) && views(v@) == s,
                Err(m) => r matches Err(e) && e matches TorDownloaderError::Parse(x) && x@ == m,
            },
    {
        let mut found: Vec<ParsedUrl> = Vec::new();
        let mut i: usize = 0;
        while i < 9
            invariant
                depth < usize::MAX,
                i <= 9,
                gather(self.base(), html_content@, current_url@, depth as nat, i as nat) matches Ok(
                    all,
                ) && views(found@) == dedup_by_url(all),
            decreases 9 - i,
        {
            let ghost all = gather(self.base(), html_content@, current_url@, depth as nat, i as nat)->Ok_0;
            let (selector, attr, kind, prefix) = query(i);
            match call_select_attr(html_content, selector, attr) {
                Ok(values) => {
                    self.add_candidates(
                        &mut found,
                        &values,
                        current_url,
                        depth,
                        kind,
                        Ghost(all),
                    );
                },
                Err(t) => {
                    let mut msg = owned(prefix);
                    push_str(&mut msg, t.as_str());
                    proof {
                        lemma_gather_err_sticks(
                            self.base(),
                            html_content@,
                            current_url@,
                            depth as nat,
                            (i + 1) as nat,
                            9,
                        );
                    }
                    return Err(TorDownloaderError::Parse(msg));
                },
            }
            i = i + 1;
        }
        Ok(found)
    }

    /// All the text of the page's `<body>`.
    pub fn extract_text_content(&self, html_content: &str) -> (r: Result<String, TorDownloaderError>)
        ensures
            match html_select_text(html_content@, "body"@) {
                Ok(texts) => r matches Ok(s) && s@ == concat_all(texts),
                Err(m) => r matches Err(e) && e matches TorDownloaderError::Parse(x) && x@
                    == "Failed to create body selector: "@ + m,
            },
    {
        match call_select_text(html_content, "body") {
            Ok(texts) => {
                let ghost tv = texts@.map_values(|s: String| s@);
                let mut out = String::new();
                let mut i: usize = 0;
                while i < texts.len()
                    invariant
                        i <= texts.len(),
                        tv == texts@.map_values(|s: String| s@),
                        out@ == concat_all(tv.take(i as int)),
                    decreases texts.len() - i,
                {
                    assert(tv.take(i + 1).drop_last() =~= tv.take(i as int));
                    push_str(&mut out, texts[i].as_str());
                    i = i + 1;
                }
                assert(tv.take(texts.len() as int) =~= tv);
                Ok(out)
            },
            Err(t) => {
                let mut msg = owned("Failed to create body selector: ");
                push_str(&mut msg, t.as_str());
                Err(TorDownloaderError::Parse(msg))
            },
        }
    }

    /// The trimmed text of the first `<title>` whose trimmed text is not empty.
    pub fn extract_title(&self, html_content: &str) -> (r: Result<Option<String>, TorDownloaderError>)
        ensures
            match html_select_text(html_content@, "title"@) {
                Ok(texts) => r matches Ok(t) && opt_view(t) == first_nonblank(texts),
                Err(m) => r matches Err(e) && e matches TorDownloaderError::Parse(x) && x@
                    == "Failed to create title selector: "@ + m,
            },
    {
        match call_select_text(html_content, "title") {
            Ok(texts) => {
                let ghost tv = texts@.map_values(|s: String| s@);
                let mut i: usize = 0;
                assert(tv.skip(0) =~= tv);
                while i < texts.len()
                    invariant
                        i <= texts.len(),
                        tv == texts@.map_values(|s: String| s@),
                        first_nonblank(tv) == first_nonblank(tv.skip(i as int)),
                        html_select_text(html_content@, "title"@) == Ok::<Seq<Seq<char>>, Seq<char>>(tv),
                    decreases texts.len() - i,
                {
                    assert(tv.skip(i as int).drop_first() =~= tv.skip(i + 1));
                    assert(tv.skip(i as int)[0] == texts@[i as int]@);
                    let title = trim_string(texts[i].as_str());
                    if !title.as_str().is_empty() {
                        assert(tv.skip(i as int).len() > 0);
                        assert(first_nonblank(tv.skip(i as int)) == Some(title@));
                        return Ok(Some(title));
                    }
                    i = i + 1;
                }
                Ok(None)
            },
            Err(t) => {
                let mut msg = owned("Failed to create title selector: ");
                push_str(&mut msg, t.as_str());
                Err(TorDownloaderError::Parse(msg))
            },
        }
    }

    /// The trimmed `content` of the first `<meta name='description'>` whose
    /// trimmed content is not empty.
    pub fn extract_meta_description(&self, html_content: &str) -> (r: Result<
        Option<String>,
        TorDownloaderError,
    >)
        ensures
            match html_select_attr(html_content@, "meta[name='description']"@, "content"@) {
                Ok(values) => r matches Ok(t) && opt_view(t) == first_nonblank(present(values)),
                Err(m) => r matches Err(e) && e matches TorDownloaderError::Parse(x) && x@
                    == "Failed to create meta selector: "@ + m,
            },
    {
        match call_select_attr(html_content, "meta[name='description']", "content") {
            Ok(values) => {
                let ghost vv = values@.map_values(|o: Option<String>| opt_view(o));
                let mut i: usize = 0;
                assert(vv.skip(0) =~= vv);
                while i < values.len()
                    invariant
                        i <= values.len(),
                        vv == values@.map_values(|o: Option<String>| opt_view(o)),
                        first_nonblank(present(vv)) == first_nonblank(present(vv.skip(i as int))),
                        html_select_attr(html_content@, "meta[name='description']"@, "content"@)
                            == Ok::<Seq<Option<Seq<char>>>, Seq<char>>(vv),
                    decreases values.len() - i,
                {
                    assert(vv.skip(i as int).drop_first() =~= vv.skip(i + 1));
                    assert(vv.skip(i as int)[0] == opt_view(values@[i as int]));
                    match &values[i] {
                        Some(content) => {
                            assert(present(vv.skip(i as int)) =~= seq![content@] + present(
                                vv.skip(i + 1),
                            ));
                            assert(present(vv.skip(i as int))[0] == content@);
                            let description = trim_string(content.as_str());
                            if !description.as_str().is_empty() {
                                assert(present(vv.skip(i as int)).len() > 0);
                                assert(first_nonblank(present(vv.skip(i as int))) == Some(
                                    description@,
                                ));
                                return Ok(Some(description));
                            }
                            assert(present(vv.skip(i as int)).drop_first() =~= present(
                                vv.skip(i + 1),
                            ));
                        },
                        None => {},
                    }
                    i = i + 1;
                }
                Ok(None)
            },
            Err(t) => {
                let mut msg = owned("Failed to create meta selector: ");
                push_str(&mut msg, t.as_str());
                Err(TorDownloaderError::Parse(msg))
            },
        }
    }
}

/// Whether some found URL has the URL string `url`.
fn contains_url(found: &Vec<ParsedUrl>, url: &String) -> (b: bool)
    ensures
        b == has_url(views(found@), url@),
{
    let mut i: usize = 0;
    while i < found.len()
        invariant
            i <= found.len(),
            forall|k: int| 0 <= k < i ==> found@[k].url@ != url@,
        decreases found.len() - i,
    {
        if found[i].url == *url {
            assert(views(found@)[i as int].url == url@);
            return true;
        }
        i = i + 1;
    }
    assert forall|k: int| 0 <= k < views(found@).len() implies (#[trigger] views(found@)[k]).url
        != url@ by {
        assert(views(found@)[k] == found@[k]@);
    }
    false
}

/// Once a query fails, the later ones are not made and the error stays.
proof fn lemma_gather_err_sticks(
    base: UrlView,
    html: Seq<char>,
    current: Seq<char>,
    depth: nat,
    n: nat,
    m: nat,
)
    requires
        1 <= n <= m,
        gather(base, html, current, depth, n) is Err,
    ensures
        gather(base, html, current, depth, m) == gather(base, html, current, depth, n),
    decreases m - n,
{
    if n < m {
        lemma_gather_err_sticks(base, html, current, depth, n, (m - 1) as nat);
    }
}

/// The deduplicated list holds no URL twice.
pub proof fn lemma_dedup_distinct(s: Seq<ParsedUrlView>)
    ensures
        distinct_urls(dedup_by_url(s)),
    decreases s.len(),
{
    if s.len() > 0 {
        lemma_dedup_distinct(s.drop_last());
    }
}

/// A URL found one level below a page at depth `depth` whose URL is `current`:
/// some attribute value resolved against `current` gives a valid link from
/// `base` whose serialization it is.
pub open spec fn found_link(base: UrlView, current: Seq<char>, depth: nat, p: ParsedUrlView) -> bool {
    &&& p.depth == depth + 1
    &&& exists|v: Seq<char>|
        #[trigger] url_join(current, v) matches Ok(u) && is_valid_link(base, u) && u.serialization
            == p.url
}

proof fn lemma_candidates_found(
    base: UrlView,
    current: Seq<char>,
    depth: nat,
    kind: LinkKind,
    values: Seq<Option<Seq<char>>>,
)
    ensures
        forall|i: int|
            0 <= i < candidates(base, current, depth, kind, values).len() ==> found_link(
                base,
                current,
                depth,
                #[trigger] candidates(base, current, depth, kind, values)[i],
            ),
    decreases values.len(),
{
    if values.len() > 0 {
        let prev = candidates(base, current, depth, kind, values.drop_last());
        lemma_candidates_found(base, current, depth, kind, values.drop_last());
        let c = candidates(base, current, depth, kind, values);
        assert forall|i: int| 0 <= i < c.len() implies found_link(base, current, depth, #[trigger] c[i]) by {
            if i < prev.len() {
                assert(c[i] == prev[i]);
            } else {
                let v = values.last()->Some_0;
                assert(url_join(current, v) matches Ok(u) && is_valid_link(base, u)
                    && u.serialization == c[i].url);
            }
        }
    }
}

proof fn lemma_gather_found(base: UrlView, html: Seq<char>, current: Seq<char>, depth: nat, n: nat)
    ensures
        gather(base, html, current, depth, n) matches Ok(s) ==> forall|i: int|
            0 <= i < s.len() ==> found_link(base, current, depth, #[trigger] s[i]),
    decreases n,
{
    if n > 0 {
        lemma_gather_found(base, html, current, depth, (n - 1) as nat);
        match html_select_attr(html, query_selector((n - 1) as nat), query_attr((n - 1) as nat)) {
            Ok(values) => {
                let kind = query_kind((n - 1) as nat);
                lemma_candidates_found(base, current, depth, kind, values);
                match gather(base, html, current, depth, (n - 1) as nat) {
                    Ok(prev) => {
                        let c = candidates(base, current, depth, kind, values);
                        let all = prev + c;
                        assert forall|i: int| 0 <= i < all.len() implies found_link(
                            base,
                            current,
                            depth,
                            #[trigger] all[i],
                        ) by {
                            if i < prev.len() {
                                assert(all[i] == prev[i]);
                            } else {
                                assert(all[i] == c[i - prev.len()]);
                            }
                        }
                    },
                    Err(_) => {},
                }
            },
            Err(_) => {},
        }
    }
}

proof fn lemma_dedup_members(s: Seq<ParsedUrlView>)
    ensures
        forall|i: int|
            0 <= i < dedup_by_url(s).len() ==> exists|j: int|
                0 <= j < s.len() && s[j] == #[trigger] dedup_by_url(s)[i],
    decreases s.len(),
{
    if s.len() > 0 {
        lemma_dedup_members(s.drop_last());
        let d = dedup_by_url(s.drop_last());
        assert forall|i: int| 0 <= i < dedup_by_url(s).len() implies exists|j: int|
            0 <= j < s.len() && s[j] == #[trigger] dedup_by_url(s)[i] by {
            if i < d.len() {
                let j = choose|j: int| 0 <= j < s.drop_last().len() && s.drop_last()[j] == d[i];
                assert(s[j] == d[i]);
            } else {
                assert(s[s.len() - 1] == dedup_by_url(s)[i]);
            }
        }
    }
}

proof fn lemma_candidates_complete(
    base: UrlView,
    current: Seq<char>,
    depth: nat,
    kind: LinkKind,
    values: Seq<Option<Seq<char>>>,
)
    ensures
        forall|j: int|
            0 <= j < values.len() && (#[trigger] values[j] matches Some(v) && url_join(current, v) matches Ok(
                u,
            ) && is_valid_link(base, u)) ==> has_url(
                candidates(base, current, depth, kind, values),
                url_join(current, values[j]->Some_0)->Ok_0.serialization,
            ),
    decreases values.len(),
{
    if values.len() > 0 {
        let prev = values.drop_last();
        lemma_candidates_complete(base, current, depth, kind, prev);
        let pc = candidates(base, current, depth, kind, prev);
        let c = candidates(base, current, depth, kind, values);
        assert forall|j: int|
            0 <= j < values.len() && (#[trigger] values[j] matches Some(v) && url_join(current, v) matches Ok(
                u,
            ) && is_valid_link(base, u)) implies has_url(
            c,
            url_join(current, values[j]->Some_0)->Ok_0.serialization,
        ) by {
            let url = url_join(current, values[j]->Some_0)->Ok_0.serialization;
            if j < prev.len() {
                assert(prev[j] == values[j]);
                let k = choose|k: int| 0 <= k < pc.len() && (#[trigger] pc[k]).url == url;
                assert(c[k] == pc[k]);
            } else {
                assert(c[c.len() - 1].url == url);
            }
        }
    }
}

proof fn lemma_gather_complete(base: UrlView, html: Seq<char>, current: Seq<char>, depth: nat, n: nat, q: nat)
    requires
        q < n,
    ensures
        gather(base, html, current, depth, n) matches Ok(all) ==> (html_select_attr(
            html,
            query_selector(q),
            query_attr(q),
        ) matches Ok(values) ==> forall|j: int|
            0 <= j < values.len() && (#[trigger] values[j] matches Some(v) && url_join(current, v) matches Ok(
                u,
            ) && is_valid_link(base, u)) ==> has_url(
                all,
                url_join(current, values[j]->Some_0)->Ok_0.serialization,
            )),
    decreases n,
{
    match gather(base, html, current, depth, (n - 1) as nat) {
        Ok(prev) => {
            match html_select_attr(html, query_selector((n - 1) as nat), query_attr((n - 1) as nat)) {
                Ok(vals) => {
                    let c = candidates(base, current, depth, query_kind((n - 1) as nat), vals);
                    let all = prev + c;
                    if q < n - 1 {
                        lemma_gather_complete(base, html, current, depth, (n - 1) as nat, q);
                        match html_select_attr(html, query_selector(q), query_attr(q)) {
                            Ok(values) => {
                                assert forall|j: int|
                                    0 <= j < values.len() && (#[trigger] values[j] matches Some(v)
                                        && url_join(current, v) matches Ok(u) && is_valid_link(base, u))
                                    implies has_url(
                                    all,
                                    url_join(current, values[j]->Some_0)->Ok_0.serialization,
                                ) by {
                                    let url = url_join(current, values[j]->Some_0)->Ok_0.serialization;
                                    let k = choose|k: int| 0 <= k < prev.len() && (#[trigger] prev[k]).url == url;
                                    assert(all[k] == prev[k]);
                                }
                            },
                            Err(_) => {},
                        }
                    } else {
                        lemma_candidates_complete(base, current, depth, query_kind(q), vals);
                        assert forall|j: int|
                            0 <= j < vals.len() && (#[trigger] vals[j] matches Some(v) && url_join(current, v) matches Ok(
                                u,
                            ) && is_valid_link(base, u)) implies has_url(
                            all,
                            url_join(current, vals[j]->Some_0)->Ok_0.serialization,
                        ) by {
                            let url = url_join(current, vals[j]->Some_0)->Ok_0.serialization;
                            let k = choose|k: int| 0 <= k < c.len() && (#[trigger] c[k]).url == url;
                            assert(all[prev.len() + k] == c[k]);
                        }
                    }
                },
                Err(_) => {},
            }
        },
        Err(_) => {},
    }
}

proof fn lemma_dedup_keeps(s: Seq<ParsedUrlView>, url: Seq<char>)
    requires
        has_url(s, url),
    ensures
        has_url(dedup_by_url(s), url),
    decreases s.len(),
{
    let d = dedup_by_url(s.drop_last());
    if s.last().url == url {
        if !has_url(d, url) {
            assert(dedup_by_url(s)[d.len() as int].url == url);
        } else {
            let k = choose|k: int| 0 <= k < d.len() && (#[trigger] d[k]).url == url;
            assert(dedup_by_url(s)[k] == d[k]);
        }
    } else {
        let i = choose|i: int| 0 <= i < s.len() && (#[trigger] s[i]).url == url;
        assert(s.drop_last()[i] == s[i]);
        lemma_dedup_keeps(s.drop_last(), url);
        let k = choose|k: int| 0 <= k < d.len() && (#[trigger] d[k]).url == url;
        assert(dedup_by_url(s)[k] == d[k]);
    }
}

/// The query that reads attribute `attr` of the elements that `selector` selects.
proof fn query_of(selector: Seq<char>, attr: Seq<char>) -> (q: nat)
    requires
        (selector == "a[href]"@ && attr == "href"@) || (selector == "area[href]"@ && attr == "href"@) || (selector == "img[src]"@ && attr == "src"@) || (selector == "link[href]"@ && attr == "href"@) || (selector == "script[src]"@ && attr == "src"@) || (selector == "source[src]"@ && attr == "src"@) || (selector == "video[src]"@ && attr == "src"@) || (selector == "audio[src]"@ && attr == "src"@) || (selector == "form[action]"@ && attr == "action"@),
    ensures
        q < query_count(),
        query_selector(q) == selector,
        query_attr(q) == attr,
{
    if selector == "a[href]"@ && attr == "href"@ {
        0
    } else if selector == "area[href]"@ && attr == "href"@ {
        1
    } else if selector == "img[src]"@ && attr == "src"@ {
        2
    } else if selector == "link[href]"@ && attr == "href"@ {
        3
    } else if selector == "script[src]"@ && attr == "src"@ {
        4
    } else if selector == "source[src]"@ && attr == "src"@ {
        5
    } else if selector == "video[src]"@ && attr == "src"@ {
        6
    } else if selector == "audio[src]"@ && attr == "src"@ {
        7
    } else {
        8
    }
}

/// The title (or description) chosen is the first text that is not blank,
/// trimmed: every text before it trims to nothing, and there is none at all
/// when every text trims to nothing.
pub proof fn lemma_first_nonblank(texts: Seq<Seq<char>>)
    ensures
        first_nonblank(texts) is None <==> forall|i: int| 0 <= i < texts.len() ==> trim(#[trigger] texts[i]).len() == 0,
        first_nonblank(texts) matches Some(t) ==> exists|i: int|
            0 <= i < texts.len() && t == trim(#[trigger] texts[i]) && t.len() > 0 && forall|j: int|
                0 <= j < i ==> trim(#[trigger] texts[j]).len() == 0,
    decreases texts.len(),
{
    if texts.len() > 0 {
        let rest = texts.drop_first();
        lemma_first_nonblank(rest);
        if trim(texts[0]).len() == 0 {
            assert forall|i: int| 1 <= i < texts.len() implies #[trigger] texts[i] == rest[i - 1] by {}
            if first_nonblank(rest) is None {
                assert forall|i: int| 0 <= i < texts.len() implies trim(#[trigger] texts[i]).len() == 0 by {
                    if i > 0 {
                        assert(texts[i] == rest[i - 1]);
                    }
                }
            } else {
                let t = first_nonblank(rest)->Some_0;
                let i = choose|i: int|
                    0 <= i < rest.len() && t == trim(#[trigger] rest[i]) && t.len() > 0 && forall|j: int|
                        0 <= j < i ==> trim(#[trigger] rest[j]).len() == 0;
                assert(texts[i + 1] == rest[i]);
                assert forall|j: int| 0 <= j < i + 1 implies trim(#[trigger] texts[j]).len() == 0 by {
                    if j > 0 {
                        assert(texts[j] == rest[j - 1]);
                    }
                }
                if forall|i2: int| 0 <= i2 < texts.len() ==> trim(#[trigger] texts[i2]).len() == 0 {
                    assert(trim(texts[i + 1]).len() == 0);
                }
            }
        }
    }
}

/// A URL whose lower-cased path has no `.` names a page.
pub proof fn lemma_no_extension_page(path: Seq<char>)
    requires
        !lowercase(path).contains('.'),
    ensures
        url_type_of(path) == UrlType::Page,
{
}

/// Of the URLs found several times, the first finding is kept: each element
/// of the deduplicated list is the first element of the list with its URL.
pub proof fn lemma_dedup_first(s: Seq<ParsedUrlView>)
    ensures
        forall|k: int|
            0 <= k < dedup_by_url(s).len() ==> exists|j: int|
                0 <= j < s.len() && s[j] == #[trigger] dedup_by_url(s)[k] && forall|i: int|
                    0 <= i < j ==> s[i].url != s[j].url,
    decreases s.len(),
{
    if s.len() > 0 {
        let prev = s.drop_last();
        lemma_dedup_first(prev);
        let d = dedup_by_url(prev);
        let e = dedup_by_url(s);
        assert forall|k: int| 0 <= k < e.len() implies exists|j: int|
            0 <= j < s.len() && s[j] == #[trigger] e[k] && forall|i: int| 0 <= i < j ==> s[i].url != s[j].url by {
            if k < d.len() {
                assert(e[k] == d[k]);
                let j = choose|j: int|
                    0 <= j < prev.len() && prev[j] == d[k] && forall|i: int| 0 <= i < j ==> prev[i].url != prev[j].url;
                assert(s[j] == prev[j]);
                assert forall|i: int| 0 <= i < j implies s[i].url != s[j].url by {
                    assert(s[i] == prev[i]);
                }
            } else {
                let j = s.len() - 1;
                assert(e[k] == s[j]);
                assert forall|i: int| 0 <= i < j implies s[i].url != s[j].url by {
                    assert(s[i] == prev[i]);
                    if s[i].url == s[j].url {
                        lemma_dedup_keeps(prev, s[j].url);
                    }
                }
            }
        }
    }
}

/// Nothing is missed: for each of the element queries `a[href]`,
/// `area[href]`, `img[src]`, `link[href]`, `script[src]`, `source[src]`,
/// `video[src]`, `audio[src]` and `form[action]`, every attribute value that
/// resolves against the page's URL to a link of the same site is among the
/// URLs that `parse_html` finds.
pub proof fn lemma_parse_html_complete(
    base: UrlView,
    html: Seq<char>,
    current: Seq<char>,
    depth: nat,
    selector: Seq<char>,
    attr: Seq<char>,
    v: Seq<char>,
)
    requires
        (selector == "a[href]"@ && attr == "href"@) || (selector == "area[href]"@ && attr == "href"@) || (selector == "img[src]"@ && attr == "src"@) || (selector == "link[href]"@ && attr == "href"@) || (selector == "script[src]"@ && attr == "src"@) || (selector == "source[src]"@ && attr == "src"@) || (selector == "video[src]"@ && attr == "src"@) || (selector == "audio[src]"@ && attr == "src"@) || (selector == "form[action]"@ && attr == "action"@),
        html_select_attr(html, selector, attr) matches Ok(values) && values.contains(Some(v)),
        url_join(current, v) matches Ok(u) && u.scheme == base.scheme && base.host is Some
            && u.host == base.host && u.fragment is None && u.scheme != "javascript"@ && u.scheme
            != "mailto"@,
    ensures
        parse_html_spec(base, html, current, depth) matches Ok(s) ==> exists|k: int|
            0 <= k < s.len() && (#[trigger] s[k]).url == url_join(current, v)->Ok_0.serialization,
{
    let q = query_of(selector, attr);
    lemma_gather_complete(base, html, current, depth, query_count(), q);
    match gather(base, html, current, depth, query_count()) {
        Ok(all) => {
            let values = html_select_attr(html, selector, attr)->Ok_0;
            let j = choose|j: int| 0 <= j < values.len() && values[j] == Some(v);
            assert(values[j] matches Some(v2) && url_join(current, v2) matches Ok(u) && is_valid_link(base, u));
            let url = url_join(current, v)->Ok_0.serialization;
            assert(has_url(all, url));
            lemma_dedup_keeps(all, url);
            let d = dedup_by_url(all);
            let k = choose|k: int| 0 <= k < d.len() && (#[trigger] d[k]).url == url;
            assert(parse_html_spec(base, html, current, depth) == Ok::<Seq<ParsedUrlView>, Seq<char>>(d));
            assert(d[k].url == url);
            assert(exists|k2: int| 0 <= k2 < d.len() && (#[trigger] d[k2]).url == url);
            assert(url == url_join(current, v)->Ok_0.serialization);
            assert(parse_html_spec(base, html, current, depth) matches Ok(s2) && exists|k2: int|
                0 <= k2 < s2.len() && (#[trigger] s2[k2]).url == url);
        },
        Err(_) => {
            assert(parse_html_spec(base, html, current, depth) is Err);
        },
    }
}

/// What `parse_html` finds holds each URL once; each is one level deeper than
/// the page and is a link of the same site (same scheme and host as the base
/// URL, no fragment) that an attribute value of the page resolves to.
pub proof fn lemma_parse_html_results(base: UrlView, html: Seq<char>, current: Seq<char>, depth: nat)
    ensures
        parse_html_spec(base, html, current, depth) matches Ok(s) ==> {
            &&& distinct_urls(s)
            &&& forall|i: int| 0 <= i < s.len() ==> found_link(base, current, depth, #[trigger] s[i])
        },
{
    lemma_gather_found(base, html, current, depth, query_count());
    match gather(base, html, current, depth, query_count()) {
        Ok(all) => {
            lemma_dedup_distinct(all);
            lemma_dedup_members(all);
            let s = dedup_by_url(all);
            assert forall|i: int| 0 <= i < s.len() implies found_link(base, current, depth, #[trigger] s[i]) by {
                let j = choose|j: int| 0 <= j < all.len() && all[j] == s[i];
                assert(found_link(base, current, depth, all[j]));
            }
        },
        Err(_) => {},
    }
}

} // verus!
