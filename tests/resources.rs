use web_archive::page_archive::PageArchive;
use web_archive::parsing::{
    is_success, parse_resource_urls, ImageResource, Resource, ResourceMap, ResourceUrl, ResponseBody,
};
use web_archive::sniff::mimetype_from_response;
use web_archive::{ArchiveOptions, Url};

const PNG_SIGNATURE: [u8; 8] = [0x89, 0x50, 0x4E, 0x47, 0x0D, 0x0A, 0x1A, 0x0A];

fn png_bytes() -> Vec<u8> {
    let mut data = PNG_SIGNATURE.to_vec();
    data.extend_from_slice(&[0x00, 0x00, 0x00, 0x0D, 0x49, 0x48, 0x44, 0x52]);
    data
}

#[test]
fn test_image_resouce_base_64() {
    let img = ImageResource {
        data: vec![
            0x89, 0x50, 0x4E, 0x47, 0x0D, 0x0A, 0x1A, 0x0A, 0x00, 0x00, 0x00, 0x0D, 0x49, 0x48,
            0x44, 0x52, 0x00, 0x00, 0x04, 0x00, 0x00, 0x81, 0xFB, 0x81, 0xC6, 0xED, 0xD0, 0x0F,
            0x01, 0x2C, 0xA0, 0x35, 0xF1, 0xE4, 0x9E, 0x4A, 0x09, 0x4F, 0xB6, 0xFC, 0x31, 0x76,
            0x24, 0x04, 0x00, 0xA0, 0x31, 0xD5, 0x00, 0x00, 0x10, 0xFE, 0x19, 0x28, 0x12, 0x70,
            0x07, 0xD7, 0x00, 0x00, 0x00, 0x00, 0x49, 0x45, 0x4E, 0x44, 0xAE, 0x42, 0x60, 0x82,
        ],
        mimetype: "image/png".to_string(),
    };

    let data_uri = img.to_data_uri();

    assert!(data_uri.starts_with("data:image/png;base64,iVBORw0KGgoAAAANSUhEUgAAB"));
    assert!(data_uri.ends_with("Q/hkoEnAH1wAAAABJRU5ErkJggg=="));
}

#[test]
fn test_mimetype_detection() {
    let data = png_bytes();
    let url = Url::parse("http://example.com/ferris.png").unwrap();
    let mimetype = mimetype_from_response(&data, &url);
    assert_eq!(mimetype, "image/png");

    let data: &[u8] = b"<?xml version=\"1.0\" encoding=\"UTF-8\"?>\n<svg xmlns=\"http://www.w3.org/2000/svg\"></svg>\n";
    let url = Url::parse("http://example.com/rust.svg").unwrap();
    let mimetype = mimetype_from_response(&data, &url);
    assert_eq!(mimetype, "image/svg+xml");
}

#[test]
fn png_signature_wins_over_the_extension() {
    let url = Url::parse("http://example.com/picture.svg").unwrap();
    assert_eq!(mimetype_from_response(&png_bytes(), &url), "image/png");
}

#[test]
fn svg_extension_is_case_insensitive_and_ignores_the_query() {
    let url = Url::parse("http://example.com/LOGO.SvG?v=2").unwrap();
    assert_eq!(mimetype_from_response(b"plain", &url), "image/svg+xml");
}

#[test]
fn unknown_bytes_give_an_empty_mimetype() {
    let url = Url::parse("http://example.com/file.bin").unwrap();
    assert_eq!(mimetype_from_response(b"plain", &url), "");
    assert_eq!(mimetype_from_response(b"", &url), "");
}

#[test]
fn signature_table_order_and_wildcards() {
    let url = Url::parse("http://example.com/x").unwrap();
    assert_eq!(mimetype_from_response(b"GIF89a....", &url), "image/gif");
    assert_eq!(mimetype_from_response(&[0xFF, 0xD8, 0xFF, 0xE0], &url), "image/jpeg");
    assert_eq!(mimetype_from_response(b"<svg width=\"1\">", &url), "image/svg+xml");
    assert_eq!(mimetype_from_response(b"RIFF\x24\x00\x00\x00WEBPVP8 data", &url), "image/webp");
    assert_eq!(mimetype_from_response(b"RIFF\x24\x00\x00\x00WAVEfmt data", &url), "audio/wav");
    assert_eq!(mimetype_from_response(b"\x00\x00\x00\x18ftypmp42", &url), "video/mp4");
    assert_eq!(mimetype_from_response(&[0xFF, 0x0F, 0x00], &url), "audio/mpeg");
    assert_eq!(mimetype_from_response(&[0x1A, 0x45, 0xDF, 0xA3], &url), "video/webm");
    assert_eq!(mimetype_from_response(b"GIF8", &url), "");
}

#[test]
fn data_uri_of_small_images() {
    let img = ImageResource { data: b"hello".to_vec(), mimetype: "text/plain".to_string() };
    assert_eq!(img.to_data_uri(), "data:text/plain;base64,aGVsbG8=");

    let img = ImageResource { data: vec![1, 2, 3], mimetype: String::new() };
    assert_eq!(img.to_data_uri(), "data:;base64,AQID");

    let img = ImageResource { data: Vec::new(), mimetype: "image/gif".to_string() };
    assert_eq!(img.to_data_uri(), "data:image/gif;base64,");
}

#[test]
fn resource_map_keeps_one_entry_per_url() {
    let mut map = ResourceMap::new();
    assert!(map.is_empty());
    let u = Url::parse("http://example.com/a.css").unwrap();
    map.insert(Url::parse("http://example.com/a.css").unwrap(), Resource::Css("a".to_string()));
    map.insert(Url::parse("http://example.com/a.css").unwrap(), Resource::Css("b".to_string()));
    map.insert(Url::parse("http://example.com/b.js").unwrap(), Resource::Javascript("c".to_string()));
    assert_eq!(map.len(), 2);
    assert_eq!(map.get(&u), Some(&Resource::Css("b".to_string())));
    assert_eq!(map.get(&Url::parse("http://example.com/c").unwrap()), None);

    let mut listed: Vec<(&str, &Resource)> =
        map.entries().iter().map(|(url, resource)| (url.as_str(), resource)).collect();
    listed.sort_by(|a, b| a.0.cmp(b.0));
    assert_eq!(
        listed,
        vec![
            ("http://example.com/a.css", &Resource::Css("b".to_string())),
            ("http://example.com/b.js", &Resource::Javascript("c".to_string())),
        ]
    );
}

#[test]
fn success_statuses_are_the_2xx_class() {
    assert!(!is_success(199));
    assert!(is_success(200));
    assert!(is_success(204));
    assert!(is_success(299));
    assert!(!is_success(300));
    assert!(!is_success(404));
    assert!(!is_success(500));
}

#[test]
fn recorded_responses() {
    let mut map = ResourceMap::new();
    let img = Url::parse("http://example.com/pic.svg").unwrap();
    map.record_response(
        ResourceUrl::Image(Url::parse("http://example.com/pic.svg").unwrap()),
        200,
        ResponseBody::Bytes(b"<?xml?>".to_vec()),
    );
    map.record_response(
        ResourceUrl::Css(Url::parse("http://example.com/s.css").unwrap()),
        500,
        ResponseBody::Text("lost".to_string()),
    );
    map.record_response(
        ResourceUrl::Javascript(Url::parse("http://example.com/j.js").unwrap()),
        200,
        ResponseBody::Bytes(vec![1]),
    );
    assert_eq!(map.len(), 1);
    assert_eq!(
        map.get(&img),
        Some(&Resource::Image(ImageResource {
            data: b"<?xml?>".to_vec(),
            mimetype: "image/svg+xml".to_string()
        }))
    );
    assert!(ResourceUrl::Image(img).reads_bytes());
    assert!(!ResourceUrl::Css(Url::parse("http://example.com/s.css").unwrap()).reads_bytes());
}

#[test]
fn archive_with_one_missing_resource() {
    let base = Url::parse("http://example.com/").unwrap();
    let content = r#"<html><head><link rel="stylesheet" href="style.css"><script src="app.js"></script></head><body><img src="ferris.png"><img src="notfound.jpg"></body></html>"#;
    let mut map = ResourceMap::new();
    for resource_url in parse_resource_urls(&base, content) {
        let (status, body) = match resource_url.url().path() {
            "/style.css" => (200, ResponseBody::Text("body {}".to_string())),
            "/app.js" => (200, ResponseBody::Text("run()".to_string())),
            "/ferris.png" => (200, ResponseBody::Bytes(png_bytes())),
            _ => (404, ResponseBody::Bytes(b"not found".to_vec())),
        };
        map.record_response(resource_url, status, body);
    }
    assert_eq!(map.len(), 3);

    let archive = PageArchive { url: base, content: content.to_string(), resource_map: map };
    let output = archive.embed_resources();
    assert!(output.contains("<style>body {}</style>"));
    assert!(output.contains("<script>run()</script>"));
    assert!(output.contains(r#"<img src="data:image/png;base64,iVBORw0KGgoAAAANSUhEUg==">"#));
    assert!(output.contains(r#"<img src="notfound.jpg">"#));
    assert_eq!(archive.embedding_edits().len(), 4);
}

#[test]
fn default_options_reject_invalid_certificates() {
    let options: ArchiveOptions = Default::default();
    assert!(!options.accept_invalid_certificates);
}
