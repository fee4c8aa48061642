use web_archive::parsing::{parse_resource_urls, ResourceKind, ResourceUrl};
use web_archive::Url;

fn u() -> Url {
    Url::parse("http://example.com").unwrap()
}

#[test]
fn test_image_tags() {
    let html = r#"
    <!DOCTYPE html>
    <html>
        <head></head>
        <body>
            <div id="content">
                <img src="/images/fun.png" />
            </div>
        </body>
    </html>
    "#;

    let resource_urls = parse_resource_urls(&u(), &html);

    assert_eq!(resource_urls.len(), 1);
    assert_eq!(
        resource_urls[0],
        ResourceUrl::Image(
            Url::parse("http://example.com/images/fun.png").unwrap()
        )
    );
}

#[test]
fn test_css_tags() {
    let html = r#"
    <!DOCTYPE html>
    <html>
        <head>
            <link rel="stylesheet" type="text/css" href="/style.css" />
            <link rel="something_else" href="NOT_ALLOWED" />
        </head>
        <body>
            <div id="content">
            </div>
        </body>
    </html>
    "#;

    let resource_urls = parse_resource_urls(&u(), &html);

    assert_eq!(resource_urls.len(), 1);
    assert_eq!(
        resource_urls[0],
        ResourceUrl::Css(
            Url::parse("http://example.com/style.css").unwrap()
        )
    );
}

#[test]
fn test_script_tags() {
    let html = r#"
    <!DOCTYPE html>
    <html>
        <head>
            <script language="javascript" src="/js.js"></script>
        </head>
        <body>
            <div id="content">
            </div>
        </body>
    </html>
    "#;

    let resource_urls = parse_resource_urls(&u(), &html);

    assert_eq!(resource_urls.len(), 1);
    assert_eq!(
        resource_urls[0],
        ResourceUrl::Javascript(
            Url::parse("http://example.com/js.js").unwrap()
        )
    );
}

#[test]
fn test_deep_nesting() {
    let html = r#"
    <!DOCTYPE html>
    <html>
        <head>
            <script language="javascript" src="/js.js"></script>
            <link rel="stylesheet" href="1.css" type="text/css" />
        </head>
        <body>
            <div id="content">
                <div><div><div>
                        <img src="1.png" />
                    </div></div>
                    <script src="2.js"></script>
                </div>
                <div><div>
                    <img src="2.tiff" />
                </div></div>
            </div>
        </body>
    </html>
    "#;

    let resource_urls = parse_resource_urls(&u(), &html);

    let mut test_urls = vec![
        ResourceUrl::Javascript(
            Url::parse("http://example.com/js.js").unwrap(),
        ),
        ResourceUrl::Css(Url::parse("http://example.com/1.css").unwrap()),
        ResourceUrl::Image(Url::parse("http://example.com/1.png").unwrap()),
        ResourceUrl::Javascript(
            Url::parse("http://example.com/2.js").unwrap(),
        ),
        ResourceUrl::Image(
            Url::parse("http://example.com/2.tiff").unwrap(),
        ),
    ];
    test_urls.sort_by(|a, b| a.url().as_str().cmp(b.url().as_str()));

    assert_eq!(resource_urls.len(), 5);
    assert_eq!(resource_urls, test_urls,);
}

#[test]
fn test_relative_paths() {
    let html = r#"
    <!DOCTYPE html>
    <html>
        <head></head>
        <body>
            <div id="content">
                <img src="../../images/fun.png" />
                <img src="/absolute_path.jpg" />
    <img src="https://www.rust-lang.org/static/images/rust-logo-blk.svg" />
            </div>
        </body>
    </html>
    "#;

    let u = Url::parse("http://example.com/one/two/three/four/").unwrap();
    let resource_urls = parse_resource_urls(&u, &html);
    let mut test_urls = vec![
        ResourceUrl::Image(
            Url::parse("http://example.com/one/two/images/fun.png")
                .unwrap(),
        ),
        ResourceUrl::Image(
            Url::parse("http://example.com/absolute_path.jpg").unwrap(),
        ),
        ResourceUrl::Image(
            Url::parse(
                "https://www.rust-lang.org/static/images/rust-logo-blk.svg",
            )
            .unwrap(),
        ),
    ];
    test_urls.sort_by(|a, b| a.url().as_str().cmp(b.url().as_str()));

    assert_eq!(resource_urls.len(), 3);
    assert_eq!(resource_urls, test_urls);
}

#[test]
fn test_upper_case_tags() {
    let html = r#"
    <HTML>
        <HEAD>
            <SCRIPT LANGUAGE="javascript" SRC="/js.js"></SCRIPT>
        </HEAD>
        <BODY>
            <DIV ID="content">
            </DIV>
        </BODY>
    </HTML>
    "#;

    let resource_urls = parse_resource_urls(&u(), &html);

    assert_eq!(resource_urls.len(), 1);
    assert_eq!(
        resource_urls[0],
        ResourceUrl::Javascript(
            Url::parse("http://example.com/js.js").unwrap()
        )
    );
}

#[test]
fn test_malformed_html() {
    let html = r#"
    <!DOCTYPE html>
    <html>
        <head>
            <script language="javascript" src="/js.js"></script>
        </head>
        <body>
            <div id="content">
                <p>Closing paragraphs is for losers
                <p><img src="a.jpg">
            </div>
        </body>
    </html>
    "#;

    let resource_urls = parse_resource_urls(&u(), &html);
    let mut test_urls = vec![
        ResourceUrl::Javascript(
            Url::parse("http://example.com/js.js").unwrap(),
        ),
        ResourceUrl::Image(Url::parse("http://example.com/a.jpg").unwrap()),
    ];
    test_urls.sort_by(|a, b| a.url().as_str().cmp(b.url().as_str()));

    assert_eq!(resource_urls.len(), 2);
    assert_eq!(resource_urls, test_urls);
}

#[test]
fn discovery_lists_a_url_once_whatever_the_references() {
    let html = r#"
        <html>
            <head>
                <script src="/shared"></script>
                <link rel="stylesheet" href="http://example.com/shared" />
            </head>
            <body>
                <img src="shared" />
                <img src="/shared" />
                <script src="/other.js"></script>
            </body>
        </html>
        "#;

    let resource_urls = parse_resource_urls(&u(), &html);

    assert_eq!(
        resource_urls,
        vec![
            ResourceUrl::Javascript(Url::parse("http://example.com/other.js").unwrap()),
            ResourceUrl::Image(Url::parse("http://example.com/shared").unwrap()),
        ]
    );
    assert_eq!(resource_urls[0].kind(), ResourceKind::Javascript);
    assert_eq!(resource_urls[1].kind(), ResourceKind::Image);
}

#[test]
fn resource_urls_are_equal_by_url_alone() {
    let image = ResourceUrl::Image(Url::parse("http://example.com/a").unwrap());
    let script = ResourceUrl::Javascript(Url::parse("http://example.com/a").unwrap());
    let other = ResourceUrl::Image(Url::parse("http://example.com/b").unwrap());
    assert_eq!(image, script);
    assert_ne!(image, other);
}

#[test]
fn deep_nesting_keeps_each_kind() {
    let html = r#"<html><head><script src="/js.js"></script><link rel="stylesheet" href="1.css"></head>
        <body><div><div><img src="1.png"></div><script src="2.js"></script></div></body></html>"#;
    let kinds: Vec<(String, ResourceKind)> = parse_resource_urls(&u(), html)
        .iter()
        .map(|r| (r.url().as_str().to_string(), r.kind()))
        .collect();
    assert_eq!(
        kinds,
        vec![
            ("http://example.com/1.css".to_string(), ResourceKind::Css),
            ("http://example.com/1.png".to_string(), ResourceKind::Image),
            ("http://example.com/2.js".to_string(), ResourceKind::Javascript),
            ("http://example.com/js.js".to_string(), ResourceKind::Javascript),
        ]
    );
}

#[test]
fn discovery_ignores_element_order() {
    let first = r#"<html><body>
        <img src="b.png" /><script src="a.js"></script><link rel="stylesheet" href="c.css" />
        </body></html>"#;
    let second = r#"<html><body>
        <link rel="stylesheet" href="c.css" /><script src="a.js"></script><img src="b.png" />
        </body></html>"#;

    let one = parse_resource_urls(&u(), first);
    let two = parse_resource_urls(&u(), second);

    assert_eq!(one, two);
    assert_eq!(
        one,
        vec![
            ResourceUrl::Javascript(Url::parse("http://example.com/a.js").unwrap()),
            ResourceUrl::Image(Url::parse("http://example.com/b.png").unwrap()),
            ResourceUrl::Css(Url::parse("http://example.com/c.css").unwrap()),
        ]
    );
}

#[test]
fn discovery_drops_references_that_do_not_resolve() {
    let html = r#"<html><body>
        <img src="http://[::1" />
        <img src="ok.png" />
        <img />
        <link href="x.css" />
        </body></html>"#;

    let resource_urls = parse_resource_urls(&u(), html);

    assert_eq!(
        resource_urls,
        vec![ResourceUrl::Image(Url::parse("http://example.com/ok.png").unwrap())]
    );
}

#[test]
fn discovery_of_an_empty_page_is_empty() {
    assert!(parse_resource_urls(&u(), "").is_empty());
}

#[test]
fn join_resolves_relative_references() {
    let base = Url::parse("http://example.com/one/two/three/four/").unwrap();
    assert_eq!(
        base.join("../../images/fun.png").unwrap().as_str(),
        "http://example.com/one/two/images/fun.png"
    );
    assert_eq!(
        base.join("https://other.example/x.svg").unwrap().as_str(),
        "https://other.example/x.svg"
    );
    assert_eq!(base.join("https://other.example/x.svg").unwrap().path(), "/x.svg");
}

#[test]
fn invalid_urls_are_parse_errors() {
    let res = Url::parse("this~is~not~a~url");
    assert!(matches!(res, Err(web_archive::Error::ParseError(_))));

    let base = Url::parse("http://example.com").unwrap();
    assert!(matches!(base.join("http://[::1"), Err(web_archive::Error::ParseError(_))));
}
