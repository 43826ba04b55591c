use tor_downloader_rs::parser::{HtmlParser, UrlType};
use tor_downloader_rs::urls::UrlParts;
use tor_downloader_rs::TorDownloaderError;

#[test]
fn test_parse_simple_html() {
    let html = r#"
        <html>
        <body>
            <a href="/page1">Page 1</a>
            <a href="/page2">Page 2</a>
            <img src="/image.jpg">
        </body>
        </html>
        "#;

    let parser = HtmlParser::new("http://example.onion").unwrap();
    let urls = parser.parse_html(html, "http://example.onion/", 0).unwrap();

    assert_eq!(urls.len(), 3);
}

#[test]
fn test_url_type_detection() {
    let parser = HtmlParser::new("http://example.onion").unwrap();

    let pdf_url = UrlParts::parse("http://example.onion/doc.pdf").unwrap();
    assert_eq!(parser.determine_url_type(&pdf_url), UrlType::Document);

    let image_url = UrlParts::parse("http://example.onion/image.jpg").unwrap();
    assert_eq!(parser.determine_url_type(&image_url), UrlType::Asset);

    let page_url = UrlParts::parse("http://example.onion/page").unwrap();
    assert_eq!(parser.determine_url_type(&page_url), UrlType::Page);
}

#[test]
fn parse_html_kinds_depth_and_dedup() {
    let html = r#"
        <html><head>
            <link rel="stylesheet" href="/style.css">
            <script src="app.js"></script>
        </head>
        <body>
            <a href="/docs/report.PDF">report</a>
            <a href="/docs/report.PDF">again</a>
            <a href="/files/data.tar.gz">data</a>
            <a href="/page#top">anchor</a>
            <a href="http://other.onion/x">other host</a>
            <a href="https://example.onion/secure">other scheme</a>
            <a href="mailto:someone@example.onion">mail</a>
            <area href="/map.html">
            <form action="/search"></form>
            <video src="/clip.mp4"></video>
        </body></html>
        "#;
    let parser = HtmlParser::new("http://example.onion").unwrap();
    let urls = parser.parse_html(html, "http://example.onion/dir/index.html", 4).unwrap();

    for u in urls.iter() {
        assert_eq!(u.depth, 5);
    }
    let find = |s: &str| urls.iter().find(|u| u.url == s).map(|u| u.url_type);
    assert_eq!(find("http://example.onion/style.css"), Some(UrlType::Asset));
    assert_eq!(find("http://example.onion/dir/app.js"), Some(UrlType::Asset));
    assert_eq!(find("http://example.onion/docs/report.PDF"), Some(UrlType::Document));
    assert_eq!(find("http://example.onion/files/data.tar.gz"), Some(UrlType::Archive));
    assert_eq!(find("http://example.onion/map.html"), Some(UrlType::Page));
    assert_eq!(find("http://example.onion/search"), Some(UrlType::Page));
    assert_eq!(find("http://example.onion/clip.mp4"), Some(UrlType::Asset));
    assert_eq!(urls.len(), 7);
    let reports = urls.iter().filter(|u| u.url == "http://example.onion/docs/report.PDF").count();
    assert_eq!(reports, 1);
}

#[test]
fn parse_html_skips_unparsable_current_url() {
    let html = r#"<a href="/page1">x</a>"#;
    let parser = HtmlParser::new("http://example.onion").unwrap();
    let urls = parser.parse_html(html, "not a url", 0).unwrap();
    assert!(urls.is_empty());
}

#[test]
fn new_rejects_invalid_base() {
    match HtmlParser::new("invalid-url") {
        Err(TorDownloaderError::Parse(m)) => assert!(m.starts_with("Invalid base URL: ")),
        _ => panic!("expected a parse error"),
    }
}

#[test]
fn url_type_extension_table() {
    let parser = HtmlParser::new("http://example.onion").unwrap();
    let cases = [
        ("http://example.onion/a.PNG", UrlType::Asset),
        ("http://example.onion/a.css", UrlType::Asset),
        ("http://example.onion/a.docx", UrlType::Document),
        ("http://example.onion/a.7z", UrlType::Archive),
        ("http://example.onion/a.php", UrlType::Page),
        ("http://example.onion/a.wav", UrlType::Asset),
        ("http://example.onion/a.unknown", UrlType::Other),
        ("http://example.onion/dir.d/file", UrlType::Other),
        ("http://example.onion/", UrlType::Page),
    ];
    for (u, t) in cases.iter() {
        let p = UrlParts::parse(u).unwrap();
        assert_eq!(parser.determine_url_type(&p), *t, "{}", u);
    }
}

#[test]
fn valid_url_checks() {
    let parser = HtmlParser::new("http://example.onion").unwrap();
    let same = UrlParts::parse("http://example.onion/x").unwrap();
    let frag = UrlParts::parse("http://example.onion/x#y").unwrap();
    let other = UrlParts::parse("http://example.com/x").unwrap();
    let https = UrlParts::parse("https://example.onion/x").unwrap();
    assert!(parser.is_valid_url(&same));
    assert!(!parser.is_valid_url(&frag));
    assert!(!parser.is_valid_url(&other));
    assert!(!parser.is_valid_url(&https));
}

#[test]
fn title_text_and_description() {
    let html = r#"<html><head><title>  </title><title>  My Site  </title>
        <meta name="description" content="   ">
        <meta name="description" content="  About it ">
        </head><body><p>Hello</p> <p>world</p></body></html>"#;
    let parser = HtmlParser::new("http://example.onion").unwrap();
    assert_eq!(parser.extract_title(html).unwrap(), Some("My Site".to_string()));
    assert_eq!(parser.extract_meta_description(html).unwrap(), Some("About it".to_string()));
    assert_eq!(parser.extract_text_content(html).unwrap(), "Hello world");
    let bare = "<html><body></body></html>";
    assert_eq!(parser.extract_title(bare).unwrap(), None);
    assert_eq!(parser.extract_meta_description(bare).unwrap(), None);
}
