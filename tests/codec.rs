use webdav_client::decode::DecodeError;
use webdav_client::propfind::propfind_body;
use webdav_client::reader::{parse_multistatus, parse_prop_value};
use webdav_client::webdav_types::{PropEntry, PropValue, Status};
use webdav_client::{is_success_status, Auth, Depth, Error};

fn text(s: &str) -> PropValue {
    PropValue::Text(s.to_string())
}

#[test]
fn propfind_body_lists_namespaces_and_fields_in_order() {
    let fields = vec!["d:displayname".to_string(), "oc:size".to_string()];
    let spaces = vec![
        ("d".to_string(), "DAV:".to_string()),
        ("oc".to_string(), "http://owncloud.org/ns".to_string()),
    ];
    assert_eq!(
        propfind_body(&fields, &spaces),
        r#"<?xml version="1.0"?><d:propfind xmlns:d="DAV:" xmlns:oc="http://owncloud.org/ns"><d:prop><d:displayname/><oc:size/></d:prop></d:propfind>"#
    );
}

#[test]
fn propfind_body_keeps_duplicates_and_empty_lists() {
    assert_eq!(
        propfind_body(&[], &[]),
        r#"<?xml version="1.0"?><d:propfind><d:prop></d:prop></d:propfind>"#
    );
    let fields = vec!["a".to_string(), "a".to_string()];
    assert_eq!(
        propfind_body(&fields, &[]),
        r#"<?xml version="1.0"?><d:propfind><d:prop><a/><a/></d:prop></d:propfind>"#
    );
}

#[test]
fn depth_header_values() {
    assert_eq!(Depth::Finite(1).header_value(), b"1".to_vec());
    assert_eq!(Depth::Finite(0).header_value(), b"0".to_vec());
    assert_eq!(Depth::Finite(4096).header_value(), b"4096".to_vec());
    assert_eq!(Depth::Finite(u32::MAX).header_value(), b"4294967295".to_vec());
    assert_eq!(Depth::Infinite.header_value(), b"infinity".to_vec());
}

#[test]
fn basic_auth_without_password_keeps_the_colon() {
    let auth = Auth::Basic { username: "alice".to_string(), password: None };
    assert_eq!(auth.authorization(), Some(b"Basic YWxpY2U6".to_vec()));
}

#[test]
fn basic_auth_with_password() {
    let auth = Auth::Basic {
        username: "alice".to_string(),
        password: Some("secret".to_string()),
    };
    assert_eq!(auth.authorization(), Some(b"Basic YWxpY2U6c2VjcmV0".to_vec()));
}

#[test]
fn no_auth_sends_no_header() {
    assert_eq!(Auth::Anonymous.authorization(), None);
}

#[test]
fn status_line_success_is_loose() {
    assert!(Status("HTTP/1.1 200 OK".to_string()).is_successful());
    assert!(!Status("HTTP/1.1 404 Not Found".to_string()).is_successful());
    assert!(Status("HTTP/1.1 207 Multi-Status".to_string()).is_successful());
    assert!(!Status("".to_string()).is_successful());
    assert!(Status("HTTP/1.1 2".to_string()).is_successful());
    assert!(Status("HTTP/1.1 500 2xx".to_string()).is_successful());
}

#[test]
fn only_status_404_is_not_found() {
    let e: Error<String> = Error::ErrorStatus { status: 404, text: None };
    assert!(e.is_404());
    let e: Error<String> = Error::ErrorStatus { status: 403, text: Some("x".to_string()) };
    assert!(!e.is_404());
    let e: Error<String> = Error::web_request("404".to_string());
    assert!(!e.is_404());
    let e: Error<String> = Error::Parsing(DecodeError::Shape);
    assert!(!e.is_404());
}

#[test]
fn status_failure_keeps_readable_body() {
    let e: Error<String> = Error::status_failure(500, Ok("boom".to_string()));
    assert!(matches!(e, Error::ErrorStatus { status: 500, text: Some(ref t) } if t == "boom"));
    let e: Error<String> = Error::status_failure(404, Err(Error::web_request("io".to_string())));
    assert!(matches!(e, Error::ErrorStatus { status: 404, text: None }));
    assert!(e.is_404());
}

#[test]
fn success_status_range() {
    assert!(!is_success_status(199));
    assert!(is_success_status(200));
    assert!(is_success_status(299));
    assert!(!is_success_status(300));
    assert!(!is_success_status(404));
}

#[test]
fn empty_element_is_empty() {
    assert_eq!(parse_prop_value("<a/>").unwrap(), PropValue::Empty);
    assert_eq!(parse_prop_value("<a></a>").unwrap(), PropValue::Empty);
}

#[test]
fn text_only_element_is_text() {
    assert_eq!(parse_prop_value("<a>hello</a>").unwrap(), text("hello"));
    assert_eq!(parse_prop_value("<a>a &amp; b</a>").unwrap(), text("a & b"));
}

#[test]
fn repeated_children_are_grouped() {
    let v = parse_prop_value("<a><tag>x</tag><tag>y</tag></a>").unwrap();
    assert_eq!(
        v,
        PropValue::Xml(vec![PropEntry { name: "tag".to_string(), values: vec![text("x"), text("y")] }])
    );
}

#[test]
fn children_group_in_order_of_first_appearance() {
    let v = parse_prop_value("<a><x:b xmlns:x=\"u\">1</x:b><c/><b>2</b></a>").unwrap();
    assert_eq!(
        v,
        PropValue::Xml(vec![
            PropEntry { name: "b".to_string(), values: vec![text("1"), text("2")] },
            PropEntry { name: "c".to_string(), values: vec![PropValue::Empty] },
        ])
    );
}

#[test]
fn mixed_content_becomes_last_text() {
    assert_eq!(parse_prop_value("<a>one<b/>two</a>").unwrap(), text("two"));
}

#[test]
fn malformed_xml_is_an_error() {
    assert!(matches!(parse_prop_value("<a><b></a>"), Err(DecodeError::Syntax(_))));
    assert!(matches!(parse_prop_value(""), Err(DecodeError::NotATree)));
    assert!(matches!(parse_prop_value("<a/><b/>"), Err(DecodeError::NotATree)));
    assert!(matches!(parse_prop_value("hello"), Err(DecodeError::NotATree)));
}

#[test]
fn value_accessors() {
    assert_eq!(text("x").as_text(), Some(&"x".to_string()));
    assert_eq!(PropValue::Empty.as_text(), None);
    let v = parse_prop_value("<a><b/></a>").unwrap();
    assert_eq!(v.as_xml().map(|es| es.len()), Some(1));
    assert_eq!(text("x").as_xml(), None);
}

const TWO_RESPONSES: &str = r#"<?xml version="1.0"?>
<d:multistatus xmlns:d="DAV:" xmlns:oc="http://owncloud.org/ns">
  <d:response>
    <d:href>/remote.php/dav/files/alice/</d:href>
    <d:propstat>
      <d:prop><d:getlastmodified>Mon, 01 Jan 2024 00:00:00 GMT</d:getlastmodified></d:prop>
      <d:status>HTTP/1.1 200 OK</d:status>
    </d:propstat>
  </d:response>
  <d:response>
    <d:href>/remote.php/dav/files/alice/Photos/</d:href>
    <d:propstat>
      <d:prop><d:displayname>Photos</d:displayname></d:prop>
      <d:status>HTTP/1.1 200 OK</d:status>
    </d:propstat>
  </d:response>
</d:multistatus>"#;

#[test]
fn multistatus_with_two_responses() {
    let m = parse_multistatus(TWO_RESPONSES).unwrap();
    assert_eq!(m.responses.len(), 2);
    let second = &m.responses[1];
    assert_eq!(second.href, "/remote.php/dav/files/alice/Photos/");
    assert_eq!(second.propstat.len(), 1);
    assert!(second.propstat[0].status.is_successful());
    assert_eq!(second.propstat[0].get("displayname"), Some(&text("Photos")));
    assert_eq!(second.propstat[0].get("getlastmodified"), None);
}

#[test]
fn propstat_blocks_keep_their_order() {
    let xml = r#"<multistatus><response><href>/a</href>
        <propstat><prop><size/></prop><status>HTTP/1.1 404 Not Found</status></propstat>
        <propstat><prop><size>12</size><size>13</size></prop><status>HTTP/1.1 200 OK</status></propstat>
        </response></multistatus>"#;
    let m = parse_multistatus(xml).unwrap();
    let r = &m.responses[0];
    assert_eq!(r.propstat.len(), 2);
    assert!(!r.propstat[0].status.is_successful());
    assert_eq!(r.propstat[0].get("size"), Some(&PropValue::Empty));
    assert_eq!(r.propstat[1].get("size"), Some(&text("12")));
    assert_eq!(r.propstat[1].prop[0].values, vec![text("12"), text("13")]);
}

#[test]
fn multistatus_shape_errors() {
    assert!(matches!(parse_multistatus("<other/>"), Err(DecodeError::Shape)));
    assert!(matches!(
        parse_multistatus("<multistatus><response><propstat/></response></multistatus>"),
        Err(DecodeError::Shape)
    ));
    assert!(matches!(parse_multistatus("<multistatus>"), Err(_)));
    let empty = parse_multistatus("<multistatus/>").unwrap();
    assert!(empty.responses.is_empty());
}

#[test]
fn comments_are_skipped_and_cdata_is_text() {
    assert_eq!(parse_prop_value("<a><!-- note --><![CDATA[x<y]]></a>").unwrap(), text("x<y"));
    assert_eq!(parse_prop_value("<?xml version=\"1.0\"?><a>  padded  </a>").unwrap(), text("padded"));
}
