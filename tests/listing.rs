use webdav_client::listing::{
    join_path, list_request, parse_depth, parse_list_fields, shorten, DepthError, FieldError,
    ListField,
};
use webdav_client::reader::parse_multistatus;
use webdav_client::webdav_types::Response;
use webdav_client::{Auth, Depth};

fn other(uri: Option<&str>, name: &str) -> ListField {
    ListField::Other { namespace_uri: uri.map(str::to_owned), name: name.to_owned() }
}

#[test]
fn predefined_fields_ignore_ascii_case() {
    assert_eq!(parse_list_fields("size"), Ok(ListField::Size));
    assert_eq!(parse_list_fields("Modified-At"), Ok(ListField::ModifiedAt));
    assert_eq!(parse_list_fields("ABSOLUTE-PATH"), Ok(ListField::AbsolutePath));
    assert_eq!(parse_list_fields("folder-entry-count"), Ok(ListField::FolderEntryCount));
}

#[test]
fn raw_and_namespaced_fields() {
    assert_eq!(parse_list_fields("d:getetag"), Ok(other(None, "d:getetag")));
    assert_eq!(
        parse_list_fields("{http://example.org/ns}colour"),
        Ok(other(Some("http://example.org/ns"), "colour"))
    );
    assert_eq!(parse_list_fields("{a}b}c"), Ok(other(Some("a}b"), "c")));
    assert_eq!(parse_list_fields("{no-brace"), Err(FieldError::MissingBrace));
}

#[test]
fn depth_arguments() {
    assert_eq!(parse_depth("1"), Ok(Depth::Finite(1)));
    assert_eq!(parse_depth("+7"), Ok(Depth::Finite(7)));
    assert_eq!(parse_depth("4294967295"), Ok(Depth::Finite(u32::MAX)));
    assert_eq!(parse_depth("4294967296"), Err(DepthError::Invalid));
    assert_eq!(parse_depth("inf"), Ok(Depth::Infinite));
    assert_eq!(parse_depth("INFINITY"), Ok(Depth::Infinite));
    assert_eq!(parse_depth("in"), Err(DepthError::Invalid));
    assert_eq!(parse_depth("infinityx"), Err(DepthError::Invalid));
    assert_eq!(parse_depth(""), Err(DepthError::Invalid));
    assert_eq!(parse_depth("-1"), Err(DepthError::Invalid));
}

#[test]
fn fields_ask_for_their_properties() {
    let mut ns = Vec::new();
    assert!(ListField::Path.to_xml(&mut ns).is_empty());
    assert_eq!(ListField::Size.to_xml(&mut ns), vec!["d:getcontentlength", "oc:size"]);
    assert_eq!(ListField::Name.to_xml(&mut ns), vec!["d:displayname"]);
    assert_eq!(other(None, "d:getetag").to_xml(&mut ns), vec!["d:getetag"]);
    assert!(ns.is_empty());
}

#[test]
fn namespaced_fields_get_one_prefix_per_uri() {
    let mut ns = Vec::new();
    assert_eq!(other(Some("u1"), "a").to_xml(&mut ns), vec!["webdav-client-ns0:a"]);
    assert_eq!(other(Some("u2"), "b").to_xml(&mut ns), vec!["webdav-client-ns1:b"]);
    assert_eq!(other(Some("u1"), "c").to_xml(&mut ns), vec!["webdav-client-ns0:c"]);
    assert_eq!(
        ns,
        vec![
            ("webdav-client-ns0".to_owned(), "u1".to_owned()),
            ("webdav-client-ns1".to_owned(), "u2".to_owned())
        ]
    );
}

#[test]
fn list_request_appends_predefined_namespaces() {
    let (names, ns) =
        list_request(&[ListField::Path, ListField::Tags, other(Some("u"), "x")]);
    assert_eq!(names, vec!["oc:tags", "nc:system-tags", "webdav-client-ns0:x"]);
    let ns: Vec<(&str, &str)> = ns.iter().map(|(a, b)| (a.as_str(), b.as_str())).collect();
    assert_eq!(
        ns,
        vec![
            ("webdav-client-ns0", "u"),
            ("d", "DAV:"),
            ("oc", "http://owncloud.org/ns"),
            ("nc", "http://nextcloud.org/ns"),
        ]
    );
}

#[test]
fn paths_join_with_one_slash() {
    assert_eq!(join_path("http://h/", "/a"), "http://h/a");
    assert_eq!(join_path("http://h/", "//a"), "http://h/a");
    assert_eq!(join_path("http://h/", "a"), "http://h/a");
    assert_eq!(join_path("http://h", "/a"), "http://h/a");
    assert_eq!(join_path("http://h", "a"), "http://h/a");
}

#[test]
fn login_selects_basic_auth() {
    assert!(matches!(Auth::from_login(None, Some("pw".to_owned())), Auth::Anonymous));
    match Auth::from_login(Some("bob".to_owned()), None) {
        Auth::Basic { username, password } => {
            assert_eq!(username, "bob");
            assert_eq!(password, None);
        }
        Auth::Anonymous => panic!("expected basic auth"),
    }
}

#[test]
fn long_values_are_shortened() {
    assert_eq!(shorten("short"), "short");
    let long = "abcdefghijklmnopqrstuvwxyz0123456789ABCD";
    assert_eq!(shorten(long), "abcdefghijklmnop\u{2026}yz0123456789ABCD");
    assert_eq!(shorten(&"x".repeat(32)), "x".repeat(32));
    let accented = format!("{}{}", "\u{e9}".repeat(20), "z".repeat(20));
    assert_eq!(
        shorten(&accented),
        format!("{}\u{2026}{}", "\u{e9}".repeat(16), "z".repeat(16))
    );
}

#[test]
fn labels_are_kebab_case() {
    assert_eq!(ListField::FolderEntryCount.label(), "folder-entry-count");
    assert_eq!(ListField::OwnerName.label(), "owner-name");
    assert_eq!(other(Some("u"), "colour").label(), "colour");
}

const LISTING: &str = r#"<?xml version="1.0"?>
<d:multistatus xmlns:d="DAV:" xmlns:oc="http://owncloud.org/ns" xmlns:nc="http://nextcloud.org/ns">
  <d:response>
    <d:href>/remote.php/dav/files/alice/</d:href>
    <d:propstat>
      <d:prop><d:getcontentlength/></d:prop>
      <d:status>HTTP/1.1 404 Not Found</d:status>
    </d:propstat>
    <d:propstat>
      <d:prop>
        <d:getlastmodified>Mon, 01 Jan 2024 00:00:00 +0000</d:getlastmodified>
        <oc:size>1500</oc:size>
        <nc:contained-file-count>3</nc:contained-file-count>
        <nc:contained-folder-count>2</nc:contained-folder-count>
        <nc:system-tags><nc:system-tag>a</nc:system-tag><nc:system-tag>b</nc:system-tag></nc:system-tags>
        <oc:tags><oc:tag>c</oc:tag></oc:tags>
        <d:resourcetype><d:collection/></d:resourcetype>
      </d:prop>
      <d:status>HTTP/1.1 200 OK</d:status>
    </d:propstat>
  </d:response>
  <d:response>
    <d:href>/remote.php/dav/files/alice/My%20Photos/</d:href>
    <d:propstat>
      <d:prop><d:displayname>My Photos</d:displayname><d:getcontentlength>1000</d:getcontentlength></d:prop>
      <d:status>HTTP/1.1 200 OK</d:status>
    </d:propstat>
  </d:response>
</d:multistatus>"#;

fn responses() -> Vec<Response> {
    parse_multistatus(LISTING).unwrap().responses
}

const URL: &str = "https://cloud.example/remote.php/dav/files/alice/";

#[test]
fn path_columns() {
    let rs = responses();
    assert_eq!(ListField::Path.extract(&rs[0], URL), Some(".".to_owned()));
    assert_eq!(ListField::Path.extract(&rs[1], URL), Some("My Photos/".to_owned()));
    assert_eq!(
        ListField::AbsolutePath.extract(&rs[1], URL),
        Some("/remote.php/dav/files/alice/My%20Photos/".to_owned())
    );
}

#[test]
fn property_columns_read_the_successful_block() {
    let rs = responses();
    assert_eq!(
        ListField::ModifiedAt.extract(&rs[0], URL),
        Some("2024-01-01T00:00:00Z".to_owned())
    );
    assert_eq!(ListField::Size.extract(&rs[0], URL), Some("1.50 kB".to_owned()));
    assert_eq!(ListField::Size.extract(&rs[1], URL), Some("1 kB".to_owned()));
    assert_eq!(ListField::FolderEntryCount.extract(&rs[0], URL), Some("5".to_owned()));
    assert_eq!(ListField::Tags.extract(&rs[0], URL), Some("a,b,c".to_owned()));
    assert_eq!(ListField::Name.extract(&rs[1], URL), Some("My Photos".to_owned()));
    assert_eq!(ListField::ContentLength.extract(&rs[0], URL), None);
    assert_eq!(ListField::ContentLength.extract(&rs[1], URL), Some("1000".to_owned()));
    assert_eq!(
        other(None, "d:resourcetype").extract(&rs[0], URL),
        Some("<collection></collection>".to_owned())
    );
    assert_eq!(other(None, "d:missing").extract(&rs[0], URL), None);
}

#[test]
fn dates_that_do_not_parse_stay_as_they_are() {
    let xml = r#"<multistatus><response><href>/x</href><propstat>
        <prop><creationdate>yesterday</creationdate></prop><status>HTTP/1.1 200 OK</status>
        </propstat></response></multistatus>"#;
    let rs = parse_multistatus(xml).unwrap().responses;
    assert_eq!(ListField::CreatedAt.extract(&rs[0], URL), Some("yesterday".to_owned()));
    assert_eq!(ListField::Tags.extract(&rs[0], URL), Some(String::new()));
}

fn single(href: &str, props: &str) -> Response {
    let xml = format!(
        "<multistatus><response><href>{href}</href><propstat><prop>{props}</prop>\
         <status>HTTP/1.1 200 OK</status></propstat></response></multistatus>"
    );
    parse_multistatus(&xml).unwrap().responses.remove(0)
}

#[test]
fn path_percent_escapes() {
    let base = "https://h/dav/";
    let r = single("/dav/caf%C3%A9", "");
    assert_eq!(ListField::Path.extract(&r, base), Some("caf\u{e9}".to_owned()));
    let r = single("/dav/100%zz", "");
    assert_eq!(ListField::Path.extract(&r, base), Some("100%zz".to_owned()));
    let r = single("/dav/bad%FF", "");
    assert_eq!(ListField::Path.extract(&r, base), Some("bad%FF".to_owned()));
}

#[test]
fn dates_in_either_format() {
    let r = single("/x", "<creationdate>2024-03-04T05:06:07+02:00</creationdate>");
    assert_eq!(
        ListField::CreatedAt.extract(&r, URL),
        Some("2024-03-04T05:06:07+02:00".to_owned())
    );
    let r = single("/x", "<creationdate>Tue, 05 Mar 2024 10:00:00 +0100</creationdate>");
    assert_eq!(
        ListField::CreatedAt.extract(&r, URL),
        Some("2024-03-05T10:00:00+01:00".to_owned())
    );
}

#[test]
fn namespaced_field_reads_its_own_property() {
    let r = single("/x", "<x:colour xmlns:x=\"u\">red</x:colour>");
    let field = parse_list_fields("{u}colour").unwrap();
    let mut ns = Vec::new();
    assert_eq!(field.to_xml(&mut ns), vec!["webdav-client-ns0:colour"]);
    assert_eq!(field.extract(&r, URL), Some("red".to_owned()));
}
