//! The text that the listing shows for each field of one response.
use time::format_description::well_known::{Rfc2822, Rfc3339};
use time::OffsetDateTime;
use vstd::prelude::*;
use vstd::utf8::{decode_utf8, encode_utf8, valid_utf8};
use crate::listing::ListField;
use crate::text::{
    decimal, find_first, first_index, push_decimal, starts_with_text, trim_end, trim_end_char,
    trim_start, trim_start_char, is_prefix, unsigned_value, parse_unsigned,
};
use crate::webdav_types::{
    entries_view, find_entry, has_space_two, key_index, prop_get, values_view, PropStat,
    PropStatView, PropTree, PropValue, Response, ResponseView,
};

verus! {

/// The value of an ASCII hexadecimal digit.
pub open spec fn hex_value(b: u8) -> Option<nat> {
    if 48 <= b <= 57 {
        Some((b - 48) as nat)
    } else if 65 <= b <= 70 {
        Some((b - 55) as nat)
    } else if 97 <= b <= 102 {
        Some((b - 87) as nat)
    } else {
        None
    }
}

/// Bytes with each `%` followed by two hexadecimal digits replaced by the byte they spell; any
/// other `%` stays.
pub open spec fn percent_decode_bytes(b: Seq<u8>) -> Seq<u8>
    decreases b.len(),
{
    if b.len() == 0 {
        Seq::empty()
    } else if b[0] == 37 && b.len() >= 3 && hex_value(b[1]) is Some && hex_value(b[2]) is Some {
        seq![(hex_value(b[1])->0 * 16 + hex_value(b[2])->0) as u8] + percent_decode_bytes(
            b.subrange(3, b.len() as int),
        )
    } else {
        seq![b[0]] + percent_decode_bytes(b.drop_first())
    }
}

/// What `s` spells once its percent-escapes are decoded, where the result is UTF-8.
pub open spec fn percent_decoded(s: Seq<char>) -> Option<Seq<char>> {
    let d = percent_decode_bytes(encode_utf8(s));
    if valid_utf8(d) {
        Some(decode_utf8(d))
    } else {
        None
    }
}

/// Relies on percent_encoding's `percent_decode` and `PercentDecode::decode_utf8`.
#[verifier::external_body]
fn percent_decode_text(s: &str) -> (r: Option<String>)
    ensures
        match percent_decoded(s@) {
            Some(d) => r matches Some(x) && x@ == d,
            None => r is None,
        },
{
    percent_encoding::percent_decode(s.as_bytes()).decode_utf8().ok().map(String::from)
}

/// A date in RFC 3339, written out again in RFC 3339; none if it does not parse as such or
/// cannot be written out.
pub uninterp spec fn rfc3339_date_of(s: Seq<char>) -> Option<Seq<char>>;

/// Relies on time's `OffsetDateTime::parse` with `Rfc3339` and `OffsetDateTime::format` with
/// `Rfc3339`.
#[verifier::external_body]
fn reformat_rfc3339(s: &str) -> (r: Option<String>)
    ensures
        match rfc3339_date_of(s@) {
            Some(d) => r matches Some(x) && x@ == d,
            None => r is None,
        },
{
    OffsetDateTime::parse(s, &Rfc3339).ok()?.format(&Rfc3339).ok()
}

/// A date in RFC 2822, written out in RFC 3339; none if it does not parse as such or cannot be
/// written out.
pub uninterp spec fn rfc2822_date_of(s: Seq<char>) -> Option<Seq<char>>;

/// Relies on time's `OffsetDateTime::parse` with `Rfc2822` and `OffsetDateTime::format` with
/// `Rfc3339`.
#[verifier::external_body]
fn reformat_rfc2822(s: &str) -> (r: Option<String>)
    ensures
        match rfc2822_date_of(s@) {
            Some(d) => r matches Some(x) && x@ == d,
            None => r is None,
        },
{
    OffsetDateTime::parse(s, &Rfc2822).ok()?.format(&Rfc3339).ok()
}

/// A byte count written for people, in decimal (SI) units.
pub uninterp spec fn decimal_size_of(n: nat) -> Seq<char>;

/// Relies on humansize's `format_size` with the `DECIMAL` options.
#[verifier::external_body]
fn human_size(n: usize) -> (r: String)
    ensures
        r@ == decimal_size_of(n as nat),
{
    humansize::format_size(n, humansize::DECIMAL)
}

/// The first block whose status line passes [`crate::webdav_types::Status::is_successful`].
pub open spec fn first_successful(ps: Seq<PropStatView>) -> Option<PropStatView>
    decreases ps.len(),
{
    if ps.len() == 0 {
        None
    } else if first_successful(ps.drop_last()) is Some {
        first_successful(ps.drop_last())
    } else if has_space_two(ps.last().status) {
        Some(ps.last())
    } else {
        None
    }
}

/// The text of a property that holds only text.
pub open spec fn text_prop(g: Seq<(Seq<char>, Seq<PropTree>)>, name: Seq<char>) -> Option<
    Seq<char>,
> {
    match prop_get(g, name) {
        Some(PropTree::Text(t)) => Some(t),
        _ => None,
    }
}

/// A property read as a number; where the property has no text, `getcontentlength` is read.
pub open spec fn number_prop(g: Seq<(Seq<char>, Seq<PropTree>)>, name: Seq<char>) -> Option<nat> {
    let t = if text_prop(g, name) is Some {
        text_prop(g, name)
    } else {
        text_prop(g, "getcontentlength"@)
    };
    match t {
        Some(s) => unsigned_value(s, usize::MAX as nat),
        None => None,
    }
}

/// A date property in RFC 3339 where it reads as an RFC 3339 or, failing that, an RFC 2822
/// date; else as it stands.
pub open spec fn date_prop(g: Seq<(Seq<char>, Seq<PropTree>)>, name: Seq<char>) -> Option<
    Seq<char>,
> {
    match text_prop(g, name) {
        Some(v) => Some(
            match rfc3339_date_of(v) {
                Some(d) => d,
                None => match rfc2822_date_of(v) {
                    Some(d) => d,
                    None => v,
                },
            },
        ),
        None => None,
    }
}

/// A value written back as XML text: elements as `<name>...</name>`, entry by entry.
pub open spec fn render(v: PropTree) -> Seq<char>
    decreases v,
{
    match v {
        PropTree::Empty => Seq::empty(),
        PropTree::Text(t) => t,
        PropTree::Xml(es) => render_entries(es),
    }
}

pub open spec fn render_entries(es: Seq<(Seq<char>, Seq<PropTree>)>) -> Seq<char>
    decreases es,
{
    if es.len() == 0 {
        Seq::empty()
    } else {
        render_entries(es.drop_last()) + render_values(es.last().0, es.last().1)
    }
}

pub open spec fn render_values(name: Seq<char>, vs: Seq<PropTree>) -> Seq<char>
    decreases vs,
{
    if vs.len() == 0 {
        Seq::empty()
    } else {
        render_values(name, vs.drop_last()) + "<"@ + name + ">"@ + render(vs.last()) + "</"@
            + name + ">"@
    }
}

/// The values of the `child` elements inside the property `parent`.
pub open spec fn child_values(
    g: Seq<(Seq<char>, Seq<PropTree>)>,
    parent: Seq<char>,
    child: Seq<char>,
) -> Seq<PropTree> {
    match prop_get(g, parent) {
        Some(PropTree::Xml(es)) => {
            let i = key_index(es, child);
            if i >= 0 {
                es[i].1
            } else {
                Seq::empty()
            }
        },
        _ => Seq::empty(),
    }
}

/// The tags written one after the other, with a comma before each one once the text is not
/// empty.
pub open spec fn join_tags(vs: Seq<PropTree>) -> Seq<char>
    decreases vs.len(),
{
    if vs.len() == 0 {
        Seq::empty()
    } else {
        let before = join_tags(vs.drop_last());
        (if before.len() > 0 {
            before + ","@
        } else {
            before
        }) + render(vs.last())
    }
}

/// The part of a property name after its first `:`.
pub open spec fn local_part(name: Seq<char>) -> Seq<char> {
    let i = first_index(name, ':');
    if i >= 0 {
        name.subrange(i + 1, name.len() as int)
    } else {
        name
    }
}

/// `p` without one leading `/`, if it has one.
pub open spec fn drop_slash(p: Seq<char>) -> Seq<char> {
    if p.len() > 0 && p[0] == '/' {
        p.drop_first()
    } else {
        p
    }
}

/// What is left of `href` after the longest match of `p`, or of a tail of `p` from one of its
/// `/` on, at the start of `href`; with or without the leading `/`.
pub open spec fn path_rest(href: Seq<char>, p: Seq<char>) -> Seq<char>
    decreases p.len(),
    via path_rest_decreases
{
    if p.len() == 0 {
        href
    } else if is_prefix(p, href) {
        href.subrange(p.len() as int, href.len() as int)
    } else if p[0] == '/' && is_prefix(p.drop_first(), href) {
        href.subrange(p.len() - 1, href.len() as int)
    } else {
        let q = drop_slash(p);
        let i = first_index(q, '/');
        if i >= 0 {
            path_rest(href, q.subrange(i, q.len() as int))
        } else {
            href
        }
    }
}

proof fn lemma_first_index_bounds(s: Seq<char>, c: char)
    ensures
        first_index(s, c) >= 0 ==> first_index(s, c) < s.len() && s[first_index(s, c)] == c,
    decreases s.len(),
{
    if s.len() > 0 {
        lemma_first_index_bounds(s.drop_last(), c);
    }
}

#[via_fn]
proof fn path_rest_decreases(href: Seq<char>, p: Seq<char>) {
    if p.len() > 0 {
        let q = drop_slash(p);
        lemma_first_index_bounds(q, '/');
        let i = first_index(q, '/');
        if i >= 0 {
            assert(q.subrange(i, q.len() as int).len() < p.len());
        }
    }
}

/// The path of a response relative to the listed URL: `.` for the URL itself, percent-decoded
/// where that gives UTF-8.
pub open spec fn path_text(href: Seq<char>, prefix: Seq<char>) -> Seq<char> {
    let t = trim_start(path_rest(href, trim_end(prefix, '/')), '/');
    if t.len() == 0 {
        "."@
    } else {
        match percent_decoded(t) {
            Some(d) => d,
            None => t,
        }
    }
}

/// What the listing shows for field `f` of a response listed under URL `prefix`.
pub open spec fn column_text(f: ListField, r: ResponseView, prefix: Seq<char>) -> Option<Seq<char>> {
    match f {
        ListField::AbsolutePath => Some(r.href),
        ListField::Path => Some(path_text(r.href, prefix)),
        _ => match first_successful(r.propstat) {
            None => None,
            Some(ps) => {
                let g = ps.prop;
                match f {
                    ListField::Name => text_prop(g, "displayname"@),
                    ListField::CreatedAt => date_prop(g, "creationdate"@),
                    ListField::ModifiedAt => date_prop(g, "getlastmodified"@),
                    ListField::ContentType => text_prop(g, "getcontenttype"@),
                    ListField::ResourceType => text_prop(g, "resourcetype"@),
                    ListField::ContentLength => text_prop(g, "getcontentlength"@),
                    ListField::Size => {
                        let n = if number_prop(g, "size"@) is Some {
                            number_prop(g, "size"@)
                        } else {
                            number_prop(g, "getcontentlength"@)
                        };
                        match n {
                            Some(n) => Some(decimal_size_of(n)),
                            None => None,
                        }
                    },
                    ListField::FolderEntryCount => {
                        let files = match number_prop(g, "contained-file-count"@) {
                            Some(n) => n,
                            None => 0,
                        };
                        let folders = match number_prop(g, "contained-folder-count"@) {
                            Some(n) => n,
                            None => 0,
                        };
                        Some(decimal(files + folders))
                    },
                    ListField::Tags => Some(
                        join_tags(
                            child_values(g, "system-tags"@, "system-tag"@) + child_values(
                                g,
                                "tags"@,
                                "tag"@,
                            ),
                        ),
                    ),
                    ListField::OwnerId => text_prop(g, "owner-id"@),
                    ListField::OwnerName => text_prop(g, "owner-display-name"@),
                    ListField::Other { name, .. } => match prop_get(g, local_part(name@)) {
                        Some(v) => Some(render(v)),
                        None => None,
                    },
                    _ => None,
                }
            },
        },
    }
}


/// The first block whose status line passes [`crate::webdav_types::Status::is_successful`].
fn first_successful_block(ps: &Vec<PropStat>) -> (r: Option<&PropStat>)
    ensures
        match first_successful(ps@.map_values(|p: PropStat| p@)) {
            Some(p) => r matches Some(x) && x@ == p,
            None => r is None,
        },
{
    let ghost pv = ps@.map_values(|p: PropStat| p@);
    let mut i: usize = 0;
    while i < ps.len()
        invariant
            pv == ps@.map_values(|p: PropStat| p@),
            i <= ps.len(),
            first_successful(pv.subrange(0, i as int)) is None,
        decreases ps.len() - i,
    {
        assert(pv.subrange(0, i + 1).drop_last() =~= pv.subrange(0, i as int));
        if ps[i].status.is_successful() {
            proof {
                lemma_first_successful_prefix(pv, i + 1);
            }
            return Some(&ps[i]);
        }
        i = i + 1;
    }
    assert(pv.subrange(0, i as int) =~= pv);
    None
}

proof fn lemma_first_successful_prefix(ps: Seq<PropStatView>, n: int)
    requires
        0 <= n <= ps.len(),
        first_successful(ps.subrange(0, n)) is Some,
    ensures
        first_successful(ps) == first_successful(ps.subrange(0, n)),
    decreases ps.len() - n,
{
    if n < ps.len() {
        assert(ps.subrange(0, n + 1).drop_last() =~= ps.subrange(0, n));
        lemma_first_successful_prefix(ps, n + 1);
    } else {
        assert(ps.subrange(0, n) =~= ps);
    }
}

fn text_value<'a>(ps: &'a PropStat, name: &str) -> (r: Option<&'a String>)
    ensures
        match text_prop(ps@.prop, name@) {
            Some(t) => r matches Some(s) && s@ == t,
            None => r is None,
        },
{
    match ps.get(name) {
        Some(PropValue::Text(t)) => Some(t),
        _ => None,
    }
}

fn number_value(ps: &PropStat, name: &str) -> (r: Option<usize>)
    ensures
        match number_prop(ps@.prop, name@) {
            Some(n) => r == Some(n as usize),
            None => r is None,
        },
{
    let t = match text_value(ps, name) {
        Some(t) => Some(t),
        None => text_value(ps, "getcontentlength"),
    };
    match t {
        None => None,
        Some(t) => match parse_unsigned(t.as_str(), usize::MAX as u64) {
            Some(n) => Some(n as usize),
            None => None,
        },
    }
}

fn date_value(ps: &PropStat, name: &str) -> (r: Option<String>)
    ensures
        match date_prop(ps@.prop, name@) {
            Some(t) => r matches Some(s) && s@ == t,
            None => r is None,
        },
{
    match text_value(ps, name) {
        None => None,
        Some(v) => match reformat_rfc3339(v.as_str()) {
            Some(d) => Some(d),
            None => match reformat_rfc2822(v.as_str()) {
                Some(d) => Some(d),
                None => Some(v.clone()),
            },
        },
    }
}

/// Appends a value written back as XML text.
fn render_into(v: &PropValue, out: &mut String)
    ensures
        final(out)@ == old(out)@ + render(v@),
    decreases v,
{
    match v {
        PropValue::Empty => {
            assert(out@ =~= out@ + Seq::<char>::empty());
        },
        PropValue::Text(t) => {
            out.append(t.as_str());
        },
        PropValue::Xml(es) => {
            let ghost start = out@;
            let ghost ev = entries_view(es@);
            let mut i: usize = 0;
            assert(ev.subrange(0, 0) =~= Seq::<(Seq<char>, Seq<PropTree>)>::empty());
            assert(out@ =~= start + render_entries(ev.subrange(0, 0)));
            while i < es.len()
                invariant
                    ev == entries_view(es@),
                    *v == PropValue::Xml(*es),
                    i <= es.len(),
                    out@ == start + render_entries(ev.subrange(0, i as int)),
                decreases es.len() - i,
            {
                assert(ev.subrange(0, i + 1).drop_last() =~= ev.subrange(0, i as int));
                let e = &es[i];
                let ghost mid = out@;
                let ghost vv = values_view(e.values@);
                assert(ev[i as int] == (e.name@, vv));
                let mut j: usize = 0;
                assert(vv.subrange(0, 0) =~= Seq::<PropTree>::empty());
                assert(out@ =~= mid + render_values(e.name@, vv.subrange(0, 0)));
                while j < e.values.len()
                    invariant
                        vv == values_view(e.values@),
                        i < es.len(),
                        *e == es@[i as int],
                        *v == PropValue::Xml(*es),
                        j <= e.values.len(),
                        out@ == mid + render_values(e.name@, vv.subrange(0, j as int)),
                    decreases e.values.len() - j,
                {
                    assert(vv.subrange(0, j + 1).drop_last() =~= vv.subrange(0, j as int));
                    assert(vv[j as int] == e.values@[j as int]@);
                    assert(decreases_to!(*v => (*v)->Xml_0));
                    assert((*v)->Xml_0 == *es);
                    assert(decreases_to!(*es => es@));
                    assert(decreases_to!(es@ => es@[i as int]));
                    assert(decreases_to!(es@[i as int] => es@[i as int].values));
                    assert(decreases_to!(e.values => e.values@));
                    assert(decreases_to!(e.values@ => e.values@[j as int]));
                    out.append("<");
                    out.append(e.name.as_str());
                    out.append(">");
                    render_into(&e.values[j], out);
                    out.append("</");
                    out.append(e.name.as_str());
                    out.append(">");
                    j = j + 1;
                    assert(out@ =~= mid + render_values(e.name@, vv.subrange(0, j as int)));
                }
                assert(vv.subrange(0, j as int) =~= vv);
                i = i + 1;
                assert(out@ =~= start + render_entries(ev.subrange(0, i as int)));
            }
            assert(ev.subrange(0, i as int) =~= ev);
        },
    }
}

/// The values of the `child` elements inside the property `parent`; none stands for no values.
fn child_list<'a>(ps: &'a PropStat, parent: &str, child: &str) -> (r: Option<&'a Vec<PropValue>>)
    ensures
        match r {
            Some(vs) => values_view(vs@) == child_values(ps@.prop, parent@, child@),
            None => child_values(ps@.prop, parent@, child@) == Seq::<PropTree>::empty(),
        },
{
    match ps.get(parent) {
        Some(PropValue::Xml(es)) => match find_entry(es, child) {
            Some(e) => Some(&e.values),
            None => None,
        },
        _ => None,
    }
}

/// Appends the tags of `vs` to the joined tags so far, `before` being what came before them.
fn push_tags(vs: Option<&Vec<PropValue>>, out: &mut String, Ghost(before): Ghost<Seq<PropTree>>)
    requires
        old(out)@ == join_tags(before),
    ensures
        ({
            let added = match vs {
                Some(v) => values_view(v@),
                None => Seq::<PropTree>::empty(),
            };
            final(out)@ == join_tags(before + added)
        }),
{
    match vs {
        None => {
            assert(before + Seq::<PropTree>::empty() =~= before);
        },
        Some(v) => {
            let ghost vv = values_view(v@);
            let mut i: usize = 0;
            assert(before + vv.subrange(0, 0) =~= before);
            while i < v.len()
                invariant
                    vv == values_view(v@),
                    i <= v.len(),
                    out@ == join_tags(before + vv.subrange(0, i as int)),
                decreases v.len() - i,
            {
                assert((before + vv.subrange(0, i + 1)).drop_last() =~= before + vv.subrange(
                    0,
                    i as int,
                ));
                assert(vv[i as int] == v@[i as int]@);
                if out.unicode_len() > 0 {
                    out.append(",");
                }
                render_into(&v[i], out);
                i = i + 1;
            }
            assert(vv.subrange(0, i as int) =~= vv);
        },
    }
}

/// What is left of `href` after the part that `prefix` matches.
fn path_rest_of<'a>(href: &'a str, p: &str) -> (r: &'a str)
    ensures
        r@ == path_rest(href@, p@),
    decreases p@.len(),
{
    let pn = p.unicode_len();
    let hn = href.unicode_len();
    if pn == 0 {
        return href;
    }
    if starts_with_text(href, p) {
        return href.substring_char(pn, hn);
    }
    let slash = p.get_char(0) == '/';
    let q = if slash {
        p.substring_char(1, pn)
    } else {
        p
    };
    assert(q@ == drop_slash(p@));
    if slash && starts_with_text(href, q) {
        return href.substring_char(pn - 1, hn);
    }
    match find_first(q, '/') {
        Some(i) => {
            let qn = q.unicode_len();
            let tail = q.substring_char(i, qn);
            proof {
                lemma_first_index_bounds(q@, '/');
                assert(tail@.len() < p@.len());
            }
            path_rest_of(href, tail)
        },
        None => href,
    }
}

/// The path of a response relative to the listed URL.
fn path_text_of(href: &str, prefix: &str) -> (r: String)
    ensures
        r@ == path_text(href@, prefix@),
{
    let p = trim_end_char(prefix, '/');
    let rest = trim_start_char(path_rest_of(href, p), '/');
    if rest.unicode_len() == 0 {
        proof {
            reveal_strlit(".");
        }
        return ".".to_owned();
    }
    match percent_decode_text(rest) {
        Some(d) => d,
        None => rest.to_owned(),
    }
}

fn cloned(t: Option<&String>) -> (r: Option<String>)
    ensures
        match t {
            Some(s) => r matches Some(c) && c@ == s@,
            None => r is None,
        },
{
    match t {
        Some(s) => Some(s.clone()),
        None => None,
    }
}

impl ListField {
    /// What the listing shows for this field of `response`, listed under the URL `prefix`;
    /// none where a property is missing or has no successful block.
    pub fn extract(&self, response: &Response, prefix: &str) -> (r: Option<String>)
        ensures
            match column_text(*self, response@, prefix@) {
                Some(t) => r matches Some(s) && s@ == t,
                None => r is None,
            },
    {
        match self {
            ListField::AbsolutePath => {
                return Some(response.href.clone());
            },
            ListField::Path => {
                return Some(path_text_of(response.href.as_str(), prefix));
            },
            _ => {},
        }
        let ps = match first_successful_block(&response.propstat) {
            Some(ps) => ps,
            None => {
                return None;
            },
        };
        match self {
            ListField::Name => cloned(text_value(ps, "displayname")),
            ListField::CreatedAt => date_value(ps, "creationdate"),
            ListField::ModifiedAt => date_value(ps, "getlastmodified"),
            ListField::ContentType => cloned(text_value(ps, "getcontenttype")),
            ListField::ResourceType => cloned(text_value(ps, "resourcetype")),
            ListField::ContentLength => cloned(text_value(ps, "getcontentlength")),
            ListField::Size => {
                let n = match number_value(ps, "size") {
                    Some(n) => Some(n),
                    None => number_value(ps, "getcontentlength"),
                };
                match n {
                    Some(n) => Some(human_size(n)),
                    None => None,
                }
            },
            ListField::FolderEntryCount => {
                let files = match number_value(ps, "contained-file-count") {
                    Some(n) => n,
                    None => 0,
                };
                let folders = match number_value(ps, "contained-folder-count") {
                    Some(n) => n,
                    None => 0,
                };
                let mut out = String::new();
                push_decimal(files as u128 + folders as u128, &mut out);
                assert(out@ =~= decimal(files as nat + folders as nat));
                Some(out)
            },
            ListField::Tags => {
                let mut out = String::new();
                assert(out@ =~= join_tags(Seq::<PropTree>::empty()));
                let system = child_list(ps, "system-tags", "system-tag");
                push_tags(system, &mut out, Ghost(Seq::<PropTree>::empty()));
                let ghost first = child_values(ps@.prop, "system-tags"@, "system-tag"@);
                assert(Seq::<PropTree>::empty() + first =~= first);
                let tags = child_list(ps, "tags", "tag");
                push_tags(tags, &mut out, Ghost(first));
                Some(out)
            },
            ListField::OwnerId => cloned(text_value(ps, "owner-id")),
            ListField::OwnerName => cloned(text_value(ps, "owner-display-name")),
            ListField::Other { name, .. } => {
                let n = name.as_str();
                let nn = n.unicode_len();
                let key = match find_first(n, ':') {
                    Some(i) => n.substring_char(i + 1, nn),
                    None => n,
                };
                match ps.get(key) {
                    Some(v) => {
                        let mut out = String::new();
                        render_into(v, &mut out);
                        assert(out@ =~= render(v@));
                        Some(out)
                    },
                    None => None,
                }
            },
            ListField::AbsolutePath | ListField::Path => None,
        }
    }
}

} // verus!
