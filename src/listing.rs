//! What the listing command asks the server for, and how it shows each property.
use vstd::prelude::*;
use crate::text::{
    decimal, find_last, last_index, push_decimal, same_ignoring_case, same_text_ignoring_case,
    unsigned_value,
};
use crate::propfind::{pairs_view, strings_view};
use crate::text::{trim_start, trim_start_char};
use crate::{Auth, Depth};

verus! {

/// A column of the listing.
#[derive(Clone, Debug, PartialEq, Eq)]
pub enum ListField {
    AbsolutePath,
    Path,
    /// `d:displayname`
    Name,
    /// `d:creationdate`
    CreatedAt,
    /// `d:getlastmodified`
    ModifiedAt,
    /// `d:getcontenttype`
    ContentType,
    /// `d:resourcetype`
    ResourceType,
    /// File size in bytes, `d:getcontentlength`
    ContentLength,
    /// Human-readable size: `d:getcontentlength` for files, `oc:size` for folders
    Size,
    /// `nc:contained-folder-count` plus `nc:contained-file-count`
    FolderEntryCount,
    /// `oc:tags` and `nc:system-tags`
    Tags,
    /// `oc:owner-id`
    OwnerId,
    /// `oc:owner-display-name`
    OwnerName,
    /// A property given by its name, with the URI of its namespace where one was given.
    Other { namespace_uri: Option<String>, name: String },
}

/// The name of a predefined field on the command line; none for [`ListField::Other`].
pub open spec fn keyword_of(f: ListField) -> Option<Seq<char>> {
    match f {
        ListField::AbsolutePath => Some("absolute-path"@),
        ListField::Path => Some("path"@),
        ListField::Name => Some("name"@),
        ListField::CreatedAt => Some("created-at"@),
        ListField::ModifiedAt => Some("modified-at"@),
        ListField::ContentType => Some("content-type"@),
        ListField::ResourceType => Some("resource-type"@),
        ListField::ContentLength => Some("content-length"@),
        ListField::Size => Some("size"@),
        ListField::FolderEntryCount => Some("folder-entry-count"@),
        ListField::Tags => Some("tags"@),
        ListField::OwnerId => Some("owner-id"@),
        ListField::OwnerName => Some("owner-name"@),
        ListField::Other { .. } => None,
    }
}

/// The predefined field whose name matches `v` up to ASCII case.
pub open spec fn keyword_field(v: Seq<char>) -> Option<ListField> {
    if same_ignoring_case(v, "absolute-path"@) {
        Some(ListField::AbsolutePath)
    } else if same_ignoring_case(v, "path"@) {
        Some(ListField::Path)
    } else if same_ignoring_case(v, "name"@) {
        Some(ListField::Name)
    } else if same_ignoring_case(v, "created-at"@) {
        Some(ListField::CreatedAt)
    } else if same_ignoring_case(v, "modified-at"@) {
        Some(ListField::ModifiedAt)
    } else if same_ignoring_case(v, "content-type"@) {
        Some(ListField::ContentType)
    } else if same_ignoring_case(v, "resource-type"@) {
        Some(ListField::ResourceType)
    } else if same_ignoring_case(v, "content-length"@) {
        Some(ListField::ContentLength)
    } else if same_ignoring_case(v, "size"@) {
        Some(ListField::Size)
    } else if same_ignoring_case(v, "folder-entry-count"@) {
        Some(ListField::FolderEntryCount)
    } else if same_ignoring_case(v, "tags"@) {
        Some(ListField::Tags)
    } else if same_ignoring_case(v, "owner-id"@) {
        Some(ListField::OwnerId)
    } else if same_ignoring_case(v, "owner-name"@) {
        Some(ListField::OwnerName)
    } else {
        None
    }
}

/// Why a field given on the command line was refused.
#[derive(Clone, Copy, Debug, PartialEq, Eq)]
pub enum FieldError {
    /// A field that starts with `{` has no closing `}`.
    MissingBrace,
}

fn keyword(v: &str) -> (r: Option<ListField>)
    ensures
        r == keyword_field(v@),
{
    if same_text_ignoring_case(v, "absolute-path") {
        Some(ListField::AbsolutePath)
    } else if same_text_ignoring_case(v, "path") {
        Some(ListField::Path)
    } else if same_text_ignoring_case(v, "name") {
        Some(ListField::Name)
    } else if same_text_ignoring_case(v, "created-at") {
        Some(ListField::CreatedAt)
    } else if same_text_ignoring_case(v, "modified-at") {
        Some(ListField::ModifiedAt)
    } else if same_text_ignoring_case(v, "content-type") {
        Some(ListField::ContentType)
    } else if same_text_ignoring_case(v, "resource-type") {
        Some(ListField::ResourceType)
    } else if same_text_ignoring_case(v, "content-length") {
        Some(ListField::ContentLength)
    } else if same_text_ignoring_case(v, "size") {
        Some(ListField::Size)
    } else if same_text_ignoring_case(v, "folder-entry-count") {
        Some(ListField::FolderEntryCount)
    } else if same_text_ignoring_case(v, "tags") {
        Some(ListField::Tags)
    } else if same_text_ignoring_case(v, "owner-id") {
        Some(ListField::OwnerId)
    } else if same_text_ignoring_case(v, "owner-name") {
        Some(ListField::OwnerName)
    } else {
        None
    }
}

/// Reads one field of the command line: a predefined name (in any ASCII case), `{URI}name`
/// for a property in a namespace (split at the last `}`), or any other text as a raw
/// property name.
pub fn parse_list_fields(value: &str) -> (r: Result<ListField, FieldError>)
    ensures
        keyword_field(value@) matches Some(f) ==> r == Ok::<ListField, FieldError>(f),
        keyword_field(value@) is None && value@.len() > 0 && value@[0] == '{' ==> {
            let rest = value@.drop_first();
            let i = last_index(rest, '}');
            &&& i < 0 ==> r == Err::<ListField, FieldError>(FieldError::MissingBrace)
            &&& i >= 0 ==> (r matches Ok(ListField::Other { namespace_uri: Some(u), name }) && u@
                == rest.subrange(0, i) && name@ == rest.subrange(i + 1, rest.len() as int))
        },
        keyword_field(value@) is None && !(value@.len() > 0 && value@[0] == '{') ==> (r matches Ok(
            ListField::Other { namespace_uri: None, name },
        ) && name@ == value@),
{
    if let Some(f) = keyword(value) {
        return Ok(f);
    }
    let n = value.unicode_len();
    if n > 0 && value.get_char(0) == '{' {
        let rest = value.substring_char(1, n);
        assert(rest@ =~= value@.drop_first());
        match find_last(rest, '}') {
            None => Err(FieldError::MissingBrace),
            Some(i) => {
                let m = rest.unicode_len();
                let uri = rest.substring_char(0, i).to_owned();
                let name = rest.substring_char(i + 1, m).to_owned();
                assert(uri@ == rest@.subrange(0, i as int));
                assert(name@ == rest@.subrange(i + 1, m as int));
                assert(m == value@.drop_first().len());
                Ok(ListField::Other { namespace_uri: Some(uri), name })
            },
        }
    } else {
        Ok(ListField::Other { namespace_uri: None, name: value.to_owned() })
    }
}

/// Why a depth given on the command line was refused.
#[derive(Clone, Copy, Debug, PartialEq, Eq)]
pub enum DepthError {
    /// Neither a number that fits in 32 bits nor a start of `infinity`.
    Invalid,
}

/// At least three characters that, in lower case, begin `infinity`.
pub open spec fn means_infinity(v: Seq<char>) -> bool {
    v.len() >= 3 && v.len() <= 8 && same_ignoring_case(v, "infinity"@.subrange(0, v.len() as int))
}

/// Reads a depth: a start of `infinity` of three letters or more, in any ASCII case, or a
/// number.
pub fn parse_depth(value: &str) -> (r: Result<Depth, DepthError>)
    ensures
        means_infinity(value@) ==> r == Ok::<Depth, DepthError>(Depth::Infinite),
        !means_infinity(value@) ==> match unsigned_value(value@, u32::MAX as nat) {
            Some(n) => r == Ok::<Depth, DepthError>(Depth::Finite(n as u32)),
            None => r == Err::<Depth, DepthError>(DepthError::Invalid),
        },
{
    let n = value.unicode_len();
    if n >= 3 && n <= 8 {
        let word = "infinity";
        proof {
            reveal_strlit("infinity");
        }
        if same_text_ignoring_case(value, word.substring_char(0, n)) {
            return Ok(Depth::Infinite);
        }
    }
    match crate::text::parse_unsigned(value, 0xffff_ffff) {
        Some(v) => Ok(Depth::Finite(v as u32)),
        None => Err(DepthError::Invalid),
    }
}


/// Index of the first (prefix, URI) binding for namespace URI `k`, or -1.
pub open spec fn uri_index(ns: Seq<(Seq<char>, Seq<char>)>, k: Seq<char>) -> int
    decreases ns.len(),
{
    if ns.len() == 0 {
        -1
    } else if uri_index(ns.drop_last(), k) >= 0 {
        uri_index(ns.drop_last(), k)
    } else if ns.last().1 == k {
        ns.len() - 1
    } else {
        -1
    }
}

/// The prefix made up for the `n`-th namespace that a field names.
pub open spec fn made_prefix(n: nat) -> Seq<char> {
    "webdav-client-ns"@ + decimal(n)
}

/// The properties that a field asks for, with the (prefix, namespace URI) bindings after it.
pub open spec fn field_names(f: ListField, ns: Seq<(Seq<char>, Seq<char>)>) -> (
    Seq<Seq<char>>,
    Seq<(Seq<char>, Seq<char>)>,
) {
    match f {
        ListField::AbsolutePath | ListField::Path => (Seq::empty(), ns),
        ListField::Name => (seq!["d:displayname"@], ns),
        ListField::CreatedAt => (seq!["d:creationdate"@], ns),
        ListField::ModifiedAt => (seq!["d:getlastmodified"@], ns),
        ListField::ContentType => (seq!["d:getcontenttype"@], ns),
        ListField::ResourceType => (seq!["d:resourcetype"@], ns),
        ListField::ContentLength => (seq!["d:getcontentlength"@], ns),
        ListField::Size => (seq!["d:getcontentlength"@, "oc:size"@], ns),
        ListField::FolderEntryCount => (
            seq!["nc:contained-folder-count"@, "nc:contained-file-count"@],
            ns,
        ),
        ListField::Tags => (seq!["oc:tags"@, "nc:system-tags"@], ns),
        ListField::OwnerId => (seq!["oc:owner-id"@], ns),
        ListField::OwnerName => (seq!["oc:owner-display-name"@], ns),
        ListField::Other { namespace_uri: None, name } => (seq![name@], ns),
        ListField::Other { namespace_uri: Some(u), name } => {
            let i = uri_index(ns, u@);
            if i >= 0 {
                (seq![ns[i].0 + ":"@ + name@], ns)
            } else {
                (
                    seq![made_prefix(ns.len()) + ":"@ + name@],
                    ns.push((made_prefix(ns.len()), u@)),
                )
            }
        },
    }
}

/// The properties that the fields ask for, in order, and the namespaces that they bind.
pub open spec fn fields_names(fs: Seq<ListField>) -> (
    Seq<Seq<char>>,
    Seq<(Seq<char>, Seq<char>)>,
)
    decreases fs.len(),
{
    if fs.len() == 0 {
        (Seq::empty(), Seq::empty())
    } else {
        let before = fields_names(fs.drop_last());
        let step = field_names(fs.last(), before.1);
        (before.0 + step.0, step.1)
    }
}

/// The namespaces that every listing declares.
pub open spec fn default_namespaces() -> Seq<(Seq<char>, Seq<char>)> {
    seq![
        ("d"@, "DAV:"@),
        ("oc"@, "http://owncloud.org/ns"@),
        ("nc"@, "http://nextcloud.org/ns"@),
    ]
}

fn one_name(a: &str) -> (r: Vec<String>)
    ensures
        strings_view(r@) == seq![a@],
{
    let mut v: Vec<String> = Vec::new();
    v.push(a.to_owned());
    assert(strings_view(v@) =~= seq![a@]);
    v
}

fn two_names(a: &str, b: &str) -> (r: Vec<String>)
    ensures
        strings_view(r@) == seq![a@, b@],
{
    let mut v: Vec<String> = Vec::new();
    v.push(a.to_owned());
    v.push(b.to_owned());
    assert(strings_view(v@) =~= seq![a@, b@]);
    v
}

fn find_uri(ns: &Vec<(String, String)>, k: &String) -> (r: Option<usize>)
    ensures
        uri_index(pairs_view(ns@), k@) < 0 ==> r is None,
        uri_index(pairs_view(ns@), k@) >= 0 ==> (r matches Some(i) && i == uri_index(
            pairs_view(ns@),
            k@,
        )),
        r matches Some(i) ==> i < ns.len(),
{
    let ghost pv = pairs_view(ns@);
    let mut j: usize = 0;
    while j < ns.len()
        invariant
            pv == pairs_view(ns@),
            j <= ns.len(),
            uri_index(pv.subrange(0, j as int), k@) == -1,
        decreases ns.len() - j,
    {
        assert(pv.subrange(0, j + 1).drop_last() =~= pv.subrange(0, j as int));
        if ns[j].1 == *k {
            proof {
                lemma_uri_index_prefix(pv, j + 1, k@);
            }
            return Some(j);
        }
        j = j + 1;
    }
    assert(pv.subrange(0, j as int) =~= pv);
    None
}

proof fn lemma_uri_index_prefix(ns: Seq<(Seq<char>, Seq<char>)>, n: int, k: Seq<char>)
    requires
        0 <= n <= ns.len(),
        uri_index(ns.subrange(0, n), k) >= 0,
    ensures
        uri_index(ns, k) == uri_index(ns.subrange(0, n), k),
    decreases ns.len() - n,
{
    if n < ns.len() {
        assert(ns.subrange(0, n + 1).drop_last() =~= ns.subrange(0, n));
        lemma_uri_index_prefix(ns, n + 1, k);
    } else {
        assert(ns.subrange(0, n) =~= ns);
    }
}

impl ListField {
    /// The column title: the field's name on the command line, or the raw property name.
    pub fn label(&self) -> (r: String)
        ensures
            match keyword_of(*self) {
                Some(k) => r@ == k,
                None => r@ == self->name@,
            },
    {
        match self {
            ListField::AbsolutePath => "absolute-path".to_owned(),
            ListField::Path => "path".to_owned(),
            ListField::Name => "name".to_owned(),
            ListField::CreatedAt => "created-at".to_owned(),
            ListField::ModifiedAt => "modified-at".to_owned(),
            ListField::ContentType => "content-type".to_owned(),
            ListField::ResourceType => "resource-type".to_owned(),
            ListField::ContentLength => "content-length".to_owned(),
            ListField::Size => "size".to_owned(),
            ListField::FolderEntryCount => "folder-entry-count".to_owned(),
            ListField::Tags => "tags".to_owned(),
            ListField::OwnerId => "owner-id".to_owned(),
            ListField::OwnerName => "owner-name".to_owned(),
            ListField::Other { name, .. } => name.clone(),
        }
    }

    /// The properties to request for this field. A field in a namespace gets a prefix made up
    /// for its URI, recorded in `namespaces` as a (prefix, URI) binding the first time.
    pub fn to_xml(&self, namespaces: &mut Vec<(String, String)>) -> (r: Vec<String>)
        ensures
            (strings_view(r@), pairs_view(final(namespaces)@)) == field_names(
                *self,
                pairs_view(old(namespaces)@),
            ),
    {
        let ghost before = pairs_view(namespaces@);
        match self {
            ListField::AbsolutePath | ListField::Path => {
                let v: Vec<String> = Vec::new();
                assert(strings_view(v@) =~= Seq::<Seq<char>>::empty());
                v
            },
            ListField::Name => one_name("d:displayname"),
            ListField::CreatedAt => one_name("d:creationdate"),
            ListField::ModifiedAt => one_name("d:getlastmodified"),
            ListField::ContentType => one_name("d:getcontenttype"),
            ListField::ResourceType => one_name("d:resourcetype"),
            ListField::ContentLength => one_name("d:getcontentlength"),
            ListField::Size => two_names("d:getcontentlength", "oc:size"),
            ListField::FolderEntryCount => two_names(
                "nc:contained-folder-count",
                "nc:contained-file-count",
            ),
            ListField::Tags => two_names("oc:tags", "nc:system-tags"),
            ListField::OwnerId => one_name("oc:owner-id"),
            ListField::OwnerName => one_name("oc:owner-display-name"),
            ListField::Other { namespace_uri: None, name } => one_name(name.as_str()),
            ListField::Other { namespace_uri: Some(uri), name } => {
                let prefix = match find_uri(namespaces, uri) {
                    Some(i) => namespaces[i].0.clone(),
                    None => {
                        let mut p = "webdav-client-ns".to_owned();
                        push_decimal(namespaces.len() as u128, &mut p);
                        namespaces.push((p.clone(), uri.clone()));
                        proof {
                            assert(pairs_view(namespaces@) =~= before.push((p@, uri@)));
                        }
                        p
                    },
                };
                let mut full = prefix;
                full.append(":");
                full.append(name.as_str());
                one_name(full.as_str())
            },
        }
    }
}

/// The properties and namespace bindings of a listing of `fields`: the names in field order,
/// then the namespaces that the fields made up, then the predefined ones.
pub fn list_request(fields: &[ListField]) -> (r: (Vec<String>, Vec<(String, String)>))
    ensures
        strings_view(r.0@) == fields_names(fields@).0,
        pairs_view(r.1@) == fields_names(fields@).1 + default_namespaces(),
{
    let mut names: Vec<String> = Vec::new();
    let mut namespaces: Vec<(String, String)> = Vec::new();
    let mut i: usize = 0;
    assert(fields@.subrange(0, 0) =~= Seq::<ListField>::empty());
    assert(strings_view(names@) =~= Seq::<Seq<char>>::empty());
    assert(pairs_view(namespaces@) =~= Seq::<(Seq<char>, Seq<char>)>::empty());
    while i < fields.len()
        invariant
            i <= fields.len(),
            strings_view(names@) == fields_names(fields@.subrange(0, i as int)).0,
            pairs_view(namespaces@) == fields_names(fields@.subrange(0, i as int)).1,
        decreases fields.len() - i,
    {
        assert(fields@.subrange(0, i + 1).drop_last() =~= fields@.subrange(0, i as int));
        let ghost before = names@;
        let mut more = fields[i].to_xml(&mut namespaces);
        let ghost added = more@;
        names.append(&mut more);
        assert(strings_view(names@) =~= strings_view(before) + strings_view(added));
        i = i + 1;
    }
    assert(fields@.subrange(0, i as int) =~= fields@);
    let ghost made = namespaces@;
    namespaces.push(("d".to_owned(), "DAV:".to_owned()));
    namespaces.push(("oc".to_owned(), "http://owncloud.org/ns".to_owned()));
    namespaces.push(("nc".to_owned(), "http://nextcloud.org/ns".to_owned()));
    assert(pairs_view(namespaces@) =~= pairs_view(made) + default_namespaces());
    (names, namespaces)
}

/// `host` and `path` joined by exactly one `/` where neither brings one; where both do, all
/// leading slashes of `path` go.
pub open spec fn joined_path(host: Seq<char>, path: Seq<char>) -> Seq<char> {
    let host_slash = host.len() > 0 && host.last() == '/';
    let path_slash = path.len() > 0 && path[0] == '/';
    if host_slash && path_slash {
        host + trim_start(path, '/')
    } else if host_slash || path_slash {
        host + path
    } else {
        host + "/"@ + path
    }
}

/// The URL of `path` on the server `host`.
pub fn join_path(host: &str, path: &str) -> (r: String)
    ensures
        r@ == joined_path(host@, path@),
{
    let hn = host.unicode_len();
    let pn = path.unicode_len();
    let host_slash = hn > 0 && host.get_char(hn - 1) == '/';
    let path_slash = pn > 0 && path.get_char(0) == '/';
    let mut out = host.to_owned();
    if host_slash && path_slash {
        out.append(trim_start_char(path, '/'));
    } else if host_slash || path_slash {
        out.append(path);
    } else {
        out.append("/");
        out.append(path);
    }
    out
}

impl Auth {
    /// Basic authentication where a login is given (with the password, if any), else none.
    pub fn from_login(login: Option<String>, password: Option<String>) -> (r: Auth)
        ensures
            match login {
                Some(u) => r == (Auth::Basic { username: u, password }),
                None => r == Auth::Anonymous,
            },
    {
        match login {
            Some(username) => Auth::Basic { username, password },
            None => Auth::Anonymous,
        }
    }
}


/// A value cut down for the help text once it has more than 32 characters: its first 16
/// characters, an ellipsis, then its last 16 characters.
pub open spec fn shortened(s: Seq<char>) -> Seq<char> {
    if s.len() > 32 {
        s.subrange(0, 16) + "\u{2026}"@ + s.subrange(s.len() - 16, s.len() as int)
    } else {
        s
    }
}

/// Cuts down a long value shown in the help text.
pub fn shorten(s: &str) -> (r: String)
    ensures
        r@ == shortened(s@),
{
    let n = s.unicode_len();
    if n <= 32 {
        return s.to_owned();
    }
    let mut out = s.substring_char(0, 16).to_owned();
    out.append("\u{2026}");
    out.append(s.substring_char(n - 16, n));
    out
}

} // verus!
