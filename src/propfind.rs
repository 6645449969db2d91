//! The body of a PROPFIND request.
use vstd::prelude::*;

verus! {

/// ` xmlns:P="NS"` for each binding, in order.
pub open spec fn namespace_attrs(ns: Seq<(Seq<char>, Seq<char>)>) -> Seq<char>
    decreases ns.len(),
{
    if ns.len() == 0 {
        Seq::empty()
    } else {
        namespace_attrs(ns.drop_last()) + " xmlns:"@ + ns.last().0 + "=\""@ + ns.last().1 + "\""@
    }
}

/// `<NAME/>` for each property name, in order.
pub open spec fn prop_tags(fields: Seq<Seq<char>>) -> Seq<char>
    decreases fields.len(),
{
    if fields.len() == 0 {
        Seq::empty()
    } else {
        prop_tags(fields.drop_last()) + "<"@ + fields.last() + "/>"@
    }
}

pub open spec fn propfind_xml(fields: Seq<Seq<char>>, ns: Seq<(Seq<char>, Seq<char>)>) -> Seq<
    char,
> {
    "<?xml version=\"1.0\"?><d:propfind"@ + namespace_attrs(ns) + "><d:prop>"@ + prop_tags(fields)
        + "</d:prop></d:propfind>"@
}

pub open spec fn strings_view(s: Seq<String>) -> Seq<Seq<char>> {
    s.map_values(|x: String| x@)
}

pub open spec fn pairs_view(s: Seq<(String, String)>) -> Seq<(Seq<char>, Seq<char>)> {
    s.map_values(|p: (String, String)| (p.0@, p.1@))
}

/// The PROPFIND body that asks for the properties `fields`, declaring the namespace prefixes
/// `name_spaces`; both are written in the order given.
pub fn propfind_body(fields: &[String], name_spaces: &[(String, String)]) -> (r: String)
    ensures
        r@ == propfind_xml(strings_view(fields@), pairs_view(name_spaces@)),
{
    let ghost fv = strings_view(fields@);
    let ghost nv = pairs_view(name_spaces@);
    let mut body = String::from_str("<?xml version=\"1.0\"?><d:propfind");
    let ghost head = body@;
    let mut i: usize = 0;
    assert(nv.subrange(0, 0) =~= Seq::<(Seq<char>, Seq<char>)>::empty());
    assert(body@ =~= head + namespace_attrs(nv.subrange(0, 0)));
    while i < name_spaces.len()
        invariant
            nv == pairs_view(name_spaces@),
            i <= name_spaces.len(),
            body@ == head + namespace_attrs(nv.subrange(0, i as int)),
        decreases name_spaces.len() - i,
    {
        assert(nv.subrange(0, i + 1).drop_last() =~= nv.subrange(0, i as int));
        let (name, space) = &name_spaces[i];
        body.append(" xmlns:");
        body.append(name.as_str());
        body.append("=\"");
        body.append(space.as_str());
        body.append("\"");
        i = i + 1;
        assert(body@ =~= head + namespace_attrs(nv.subrange(0, i as int)));
    }
    assert(nv.subrange(0, i as int) =~= nv);
    body.append("><d:prop>");
    let ghost mid = body@;
    let mut j: usize = 0;
    assert(fv.subrange(0, 0) =~= Seq::<Seq<char>>::empty());
    assert(body@ =~= mid + prop_tags(fv.subrange(0, 0)));
    while j < fields.len()
        invariant
            fv == strings_view(fields@),
            j <= fields.len(),
            body@ == mid + prop_tags(fv.subrange(0, j as int)),
        decreases fields.len() - j,
    {
        assert(fv.subrange(0, j + 1).drop_last() =~= fv.subrange(0, j as int));
        body.append("<");
        body.append(fields[j].as_str());
        body.append("/>");
        j = j + 1;
        assert(body@ =~= mid + prop_tags(fv.subrange(0, j as int)));
    }
    assert(fv.subrange(0, j as int) =~= fv);
    body.append("</d:prop></d:propfind>");
    body
}

} // verus!
