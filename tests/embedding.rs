use web_archive::page_archive::PageArchive;
use web_archive::parsing::{ImageResource, Resource, ResourceMap};
use web_archive::Url;

/// A small PNG: signature, an image header, a data chunk and the end chunk.
fn rustacean_png() -> Vec<u8> {
    vec![
        0x89, 0x50, 0x4E, 0x47, 0x0D, 0x0A, 0x1A, 0x0A, 0x00, 0x00, 0x00, 0x0D, 0x49, 0x48, 0x44, 0x52, 0x00, 0x00, 0x04, 0x00, 0x00, 0x81, 0xFB, 0x81, 0xC6, 0xED, 0xD0, 0x0F, 0x01, 0x2C, 0xA0, 0x35, 0xF1, 0xE4, 0x9E, 0x4A, 0x09, 0x4F, 0xB6, 0xFC, 0x31, 0x76, 0x24, 0x04, 0x00, 0xA0, 0x31, 0xD5, 0x00, 0x00, 0x10, 0xFE, 0x19, 0x28, 0x12, 0x70, 0x07, 0xD7, 0x00, 0x00, 0x00, 0x00, 0x49, 0x45, 0x4E, 0x44, 0xAE, 0x42, 0x60, 0x82,
    ]
}

#[test]
fn test_single_css() {
    let content = r#"
		<html>
			<head>
				<link rel="stylesheet" href="style.css" />
			</head>
			<body></body>
		</html>
		"#
    .to_string();
    let url = Url::parse("http://example.com").unwrap();
    let mut resource_map = ResourceMap::new();
    resource_map.insert(
        url.join("style.css").unwrap(),
        Resource::Css(
            r#"
					body { background-color: blue; }
				"#
            .to_string(),
        ),
    );
    let archive = PageArchive {
        url,
        content,
        resource_map,
    };

    let output = archive.embed_resources();
    assert_eq!(
        output.replace("\t", "").replace("\n", ""),
        r#"
		<html>
			<head>
				<style>
					body { background-color: blue; }
				</style>
			</head>
			<body></body>
		</html>
		"#
        .to_string()
        .replace("\t", "")
        .replace("\n", "")
    );
}

#[test]
fn test_single_image() {
    let content = r#"
		<html>
			<head></head>
			<body>
				<img src="rustacean.png" />
			</body>
		</html>
		"#
    .to_string();
    let url = Url::parse("http://example.com").unwrap();
    let mut resource_map = ResourceMap::new();
    resource_map.insert(
        url.join("rustacean.png").unwrap(),
        Resource::Image(ImageResource {
            data: rustacean_png(),
            mimetype: "image/png".to_string(),
        }),
    );
    let archive = PageArchive {
        url,
        content,
        resource_map,
    };

    let output = archive.embed_resources();
    println!("{}", output);
    // base64 < dynamic_tests/resources/rustacean-flat-happy.png
    assert!(output.contains(
        r#"<img src="data:image/png;base64,iVBORw0KGgoAAAANSUhEUgAAB"#
    ));
    // chunk from middle of image
    assert!(output.contains("gfuBxu3QDwEsoDXx5J5KCU+2/DF2JAQAoDHV"))
}

#[test]
fn test_single_js() {
    let content = r#"
		<html>
			<head>
				<script src="script.js"></script>
			</head>
			<body></body>
		</html>
		"#
    .to_string();
    let url = Url::parse("http://example.com").unwrap();
    let mut resource_map = ResourceMap::new();
    resource_map.insert(
        url.join("script.js").unwrap(),
        Resource::Javascript(
            r#"
					function do_stuff() {
						console.log("Hello!");
					}
				"#
            .to_string(),
        ),
    );
    let archive = PageArchive {
        url,
        content,
        resource_map,
    };

    let output = archive.embed_resources();
    assert_eq!(
        output.replace("\t", "").replace("\n", ""),
        r#"
		<html><head>
				<script>
					function do_stuff() {
						console.log("Hello!");
					}
				</script>
			</head>
			<body></body>
		</html>
		"#
        .to_string()
        .replace("\t", "")
        .replace("\n", "")
    );
}

#[test]
fn absent_image_is_left_unchanged() {
    let content = r#"<html><head></head><body><img src="notfound.jpg"></body></html>"#.to_string();
    let archive = PageArchive {
        url: Url::parse("http://example.com").unwrap(),
        content,
        resource_map: ResourceMap::new(),
    };

    let output = archive.embed_resources();
    assert_eq!(
        output,
        r#"<html><head></head><body><img src="notfound.jpg"></body></html>"#
    );
    assert!(archive.embedding_edits().is_empty());
}

#[test]
fn script_source_is_removed_without_a_stored_script() {
    let content = r#"<html><head><script src="x.js" defer=""></script></head><body></body></html>"#.to_string();
    let archive = PageArchive {
        url: Url::parse("http://example.com").unwrap(),
        content,
        resource_map: ResourceMap::new(),
    };

    let output = archive.embed_resources();
    assert_eq!(
        output,
        r#"<html><head><script defer=""></script></head><body></body></html>"#
    );
}

#[test]
fn image_is_embedded_as_data_uri() {
    let url = Url::parse("http://example.com/dir/").unwrap();
    let mut resource_map = ResourceMap::new();
    resource_map.insert(
        url.join("pic.png").unwrap(),
        Resource::Image(ImageResource {
            data: b"hello".to_vec(),
            mimetype: "image/png".to_string(),
        }),
    );
    let archive = PageArchive {
        url,
        content: r#"<html><head></head><body><img src="pic.png" alt="x"></body></html>"#.to_string(),
        resource_map,
    };

    assert_eq!(
        archive.embed_resources(),
        r#"<html><head></head><body><img alt="x" src="data:image/png;base64,aGVsbG8="></body></html>"#
    );
}

#[test]
fn embedding_twice_changes_nothing_more_for_images_and_styles() {
    let url = Url::parse("http://example.com").unwrap();
    let mut resource_map = ResourceMap::new();
    resource_map.insert(
        url.join("a.png").unwrap(),
        Resource::Image(ImageResource { data: vec![1, 2, 3], mimetype: String::new() }),
    );
    resource_map.insert(url.join("s.css").unwrap(), Resource::Css("p {}".to_string()));
    let content = r#"<html><head><link rel="stylesheet" href="s.css"></head><body><img src="a.png"></body></html>"#;
    let first = PageArchive {
        url: Url::parse("http://example.com").unwrap(),
        content: content.to_string(),
        resource_map,
    }
    .embed_resources();
    assert!(first.contains(r#"<img src="data:;base64,AQID">"#));
    assert!(first.contains("<style>p {}</style>"));
    assert!(!first.contains("<link"));

    let mut again_map = ResourceMap::new();
    again_map.insert(
        Url::parse("http://example.com/a.png").unwrap(),
        Resource::Image(ImageResource { data: vec![9], mimetype: String::new() }),
    );
    let second = PageArchive { url, content: first.clone(), resource_map: again_map }.embed_resources();
    assert_eq!(second, first);
}
