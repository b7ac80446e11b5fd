//! The MLT document model: a tree of elements, property lookup with the
//! timestamp-stripping rule, the filtergraph compiler, and the line-based
//! document rewriter.

use vstd::prelude::*;

use crate::ffmpeg::{spec_element_filter_string, spec_recognized, FilterSpec};
use crate::text::{
    contains_str, find_str, find_str_last_in, has_sub, join_lines, lemma_join_push,
    lemma_lines_of_join, lemma_lines_rec_no_newline, lemma_spec_find_from_none,
    lemma_spec_find_from_some, lemma_spec_rfind_none, lemma_spec_rfind_some, no_char,
    spec_find_from, spec_join, spec_join_nl, spec_lines, spec_rfind_upto, split_lines, str_eq,
};

verus! {

/// One XML element: its tag name, its attributes in order, its immediate
/// text (the first text child, if any), and its element children in order.
/// Comments and processing instructions are not represented.
#[derive(Debug)]
pub struct Element {
    pub tag: String,
    pub attrs: Vec<(String, String)>,
    pub text: Option<String>,
    pub children: Vec<Element>,
}

/// The value of the first attribute named `name`, if any.
pub open spec fn spec_attr_in(attrs: Seq<(String, String)>, name: Seq<char>) -> Option<Seq<char>>
    decreases attrs.len(),
{
    if attrs.len() == 0 {
        None
    } else if attrs[0].0@ == name {
        Some(attrs[0].1@)
    } else {
        spec_attr_in(attrs.drop_first(), name)
    }
}

impl Element {
    /// The value of this element's first attribute named `name`, if any.
    pub open spec fn spec_attr(self, name: Seq<char>) -> Option<Seq<char>> {
        spec_attr_in(self.attrs@, name)
    }

    /// The value of this element's first attribute named `name`, if any.
    pub fn attr<'a>(&'a self, name: &str) -> (r: Option<&'a String>)
        ensures
            match r {
                Some(v) => self.spec_attr(name@) == Some(v@),
                None => self.spec_attr(name@) is None,
            },
    {
        let mut i: usize = 0;
        proof {
            assert(self.attrs@.skip(0) =~= self.attrs@);
        }
        while i < self.attrs.len()
            invariant
                i <= self.attrs@.len(),
                spec_attr_in(self.attrs@, name@) == spec_attr_in(
                    self.attrs@.skip(i as int),
                    name@,
                ),
            decreases self.attrs@.len() - i,
        {
            let ghost tail = self.attrs@.skip(i as int);
            proof {
                assert(tail[0] == self.attrs@[i as int]);
                assert(tail.drop_first() =~= self.attrs@.skip(i + 1));
            }
            if str_eq(self.attrs[i].0.as_str(), name) {
                return Some(&self.attrs[i].1);
            }
            i += 1;
        }
        proof {
            assert(self.attrs@.skip(self.attrs@.len() as int).len() == 0);
        }
        None
    }

    /// Is this a `property` element whose `name` attribute is `name`?
    pub open spec fn spec_is_property(self, name: Seq<char>) -> bool {
        self.tag@ == "property"@ && self.spec_attr("name"@) == Some(name)
    }
}

/// The first element among the descendants of `e` (including `e` itself,
/// in document order) that is a property named `name`.
pub open spec fn spec_find_property(e: Element, name: Seq<char>) -> Option<Element>
    decreases e,
{
    if e.spec_is_property(name) {
        Some(e)
    } else {
        spec_find_property_in(e.children@, name)
    }
}

/// The first property named `name` among the descendants of the elements
/// of `es`, searched in order.
pub open spec fn spec_find_property_in(es: Seq<Element>, name: Seq<char>) -> Option<Element>
    decreases es,
{
    if es.len() == 0 {
        None
    } else {
        match spec_find_property(es[0], name) {
            Some(p) => Some(p),
            None => spec_find_property_in(es.drop_first(), name),
        }
    }
}

/// The first property named `name` among the descendants of `e`
/// (including `e` itself, in document order).
pub fn find_property<'a>(e: &'a Element, name: &str) -> (r: Option<&'a Element>)
    ensures
        match r {
            Some(p) => spec_find_property(*e, name@) == Some(*p),
            None => spec_find_property(*e, name@) is None,
        },
    decreases *e,
{
    if str_eq(e.tag.as_str(), "property") {
        match e.attr("name") {
            Some(v) => {
                if str_eq(v.as_str(), name) {
                    return Some(e);
                }
            },
            None => {},
        }
    }
    let mut i: usize = 0;
    proof {
        assert(e.children@.skip(0) =~= e.children@);
    }
    while i < e.children.len()
        invariant
            i <= e.children@.len(),
            spec_find_property(*e, name@) == spec_find_property_in(e.children@, name@),
            spec_find_property_in(e.children@, name@) == spec_find_property_in(
                e.children@.skip(i as int),
                name@,
            ),
        decreases e.children@.len() - i,
    {
        let ghost tail = e.children@.skip(i as int);
        proof {
            assert(tail[0] == e.children@[i as int]);
            assert(tail.drop_first() =~= e.children@.skip(i + 1));
        }
        match find_property(&e.children[i], name) {
            Some(p) => {
                return Some(p);
            },
            None => {},
        }
        i += 1;
    }
    proof {
        assert(e.children@.skip(e.children@.len() as int).len() == 0);
    }
    None
}

/// The text after the last `=` of `v`; `v` itself when it has no `=`.
/// Property values may carry a `TIMECODE=value` prefix, which this drops.
pub open spec fn spec_strip_timestamp(v: Seq<char>) -> Seq<char>
    decreases v.len(),
{
    if v.len() == 0 {
        v
    } else if v.last() == '=' {
        Seq::empty()
    } else {
        spec_strip_timestamp(v.drop_last()).push(v.last())
    }
}

/// When position `j` holds the last `=` of `v`, the stripped value is
/// everything after `j`.
proof fn lemma_strip_timestamp_at(v: Seq<char>, j: int)
    requires
        0 <= j < v.len(),
        v[j] == '=',
        forall|k: int| j < k < v.len() ==> v[k] != '=',
    ensures
        spec_strip_timestamp(v) == v.subrange(j + 1, v.len() as int),
    decreases v.len(),
{
    if j == v.len() - 1 {
        assert(v.subrange(j + 1, v.len() as int) =~= Seq::<char>::empty());
    } else {
        lemma_strip_timestamp_at(v.drop_last(), j);
        assert(v.drop_last().subrange(j + 1, v.len() - 1) =~= v.subrange(j + 1, v.len() - 1));
        assert(v.subrange(j + 1, v.len() - 1).push(v.last()) =~= v.subrange(
            j + 1,
            v.len() as int,
        ));
    }
}

/// A value without `=` is left whole by timestamp stripping.
proof fn lemma_strip_timestamp_plain(v: Seq<char>)
    requires
        forall|k: int| 0 <= k < v.len() ==> v[k] != '=',
    ensures
        spec_strip_timestamp(v) == v,
    decreases v.len(),
{
    if v.len() > 0 {
        lemma_strip_timestamp_plain(v.drop_last());
        assert(v.drop_last().push(v.last()) =~= v);
    }
}

/// Drop a `TIMECODE=` prefix: the text after the last `=`, or all of `v`.
pub fn strip_timestamp(v: &str) -> (r: &str)
    ensures
        r@ == spec_strip_timestamp(v@),
{
    let len = v.unicode_len();
    proof {
        reveal_strlit("=");
        assert("="@ =~= seq!['=']);
    }
    let r = crate::text::find_str_last_in(v, "=", 0, len);
    match r {
        Some(j) => {
            proof {
                crate::text::lemma_match_at_char(v@, '=', j as int);
                assert forall|k: int| j < k < v@.len() implies v@[k] != '=' by {
                    if j < k < v@.len() && v@[k] == '=' {
                        crate::text::lemma_char_match_at(v@, '=', k);
                    }
                }
                lemma_strip_timestamp_at(v@, j as int);
            }
            v.substring_char(j + 1, len)
        },
        None => {
            proof {
                assert forall|k: int| 0 <= k < v@.len() implies v@[k] != '=' by {
                    if 0 <= k < v@.len() && v@[k] == '=' {
                        crate::text::lemma_char_match_at(v@, '=', k);
                    }
                }
                lemma_strip_timestamp_plain(v@);
            }
            v
        },
    }
}

/// The timestamp-stripped text of the first property named `name` among
/// the descendants of `e`, if that property exists and has text.
pub open spec fn spec_property_value(e: Element, name: Seq<char>) -> Option<Seq<char>> {
    match spec_find_property(e, name) {
        Some(p) => match p.text {
            Some(t) => Some(spec_strip_timestamp(t@)),
            None => None,
        },
        None => None,
    }
}

/// The timestamp-stripped text of the first property named `name` among
/// the descendants of `e`, if that property exists and has text.
pub fn get_property_value(e: &Element, name: &str) -> (r: Option<String>)
    ensures
        r.deep_view() == spec_property_value(*e, name@),
{
    match find_property(e, name) {
        Some(p) => match &p.text {
            Some(t) => Some(String::from_str(strip_timestamp(t.as_str()))),
            None => None,
        },
        None => None,
    }
}

/// A filter element is active unless its `disable` property reads `1`.
pub open spec fn spec_element_active(e: Element) -> bool {
    match spec_property_value(e, "disable"@) {
        Some(v) => crate::num::spec_parse_i32(v) != Some(1i32),
        None => true,
    }
}

/// Is the filter element `e` enabled? (`disable=1` means it is not; an
/// absent or unreadable `disable` property means it is.)
pub fn element_active(e: &Element) -> (b: bool)
    ensures
        b == spec_element_active(*e),
{
    match get_property_value(e, "disable") {
        Some(v) => {
            let p = crate::num::parse_i32(v.as_str());
            !(matches!(p, Some(1i32)))
        },
        None => true,
    }
}

/// The filter-expression fragments contributed by the children `cs` of a
/// playlist entry: one per recognized, active `filter` child, in order.
pub open spec fn spec_filter_fragments(cs: Seq<Element>) -> Seq<Seq<char>>
    decreases cs.len(),
{
    if cs.len() == 0 {
        Seq::empty()
    } else {
        let rest = spec_filter_fragments(cs.drop_last());
        let c = cs.last();
        if c.tag@ == "filter"@ && spec_recognized(c) && spec_element_active(c) {
            rest.push(spec_element_filter_string(c))
        } else {
            rest
        }
    }
}

/// The comma-joined filter-expression fragments of an entry element.
pub open spec fn spec_entry_string(entry: Element) -> Seq<char> {
    spec_join(spec_filter_fragments(entry.children@), ',')
}

/// Render the active recognized filters of `entry` and join them with
/// commas, in document order.
pub fn entry_filter_string(entry: &Element) -> (r: String)
    ensures
        r@ == spec_entry_string(*entry),
{
    let mut r = String::new();
    let mut any = false;
    let mut i: usize = 0;
    while i < entry.children.len()
        invariant
            i <= entry.children@.len(),
            r@ == spec_join(spec_filter_fragments(entry.children@.take(i as int)), ','),
            any == (spec_filter_fragments(entry.children@.take(i as int)).len() > 0),
        decreases entry.children@.len() - i,
    {
        let ghost pre = spec_filter_fragments(entry.children@.take(i as int));
        proof {
            assert(entry.children@.take(i + 1).drop_last() =~= entry.children@.take(i as int));
            assert(entry.children@.take(i + 1).last() == entry.children@[i as int]);
        }
        let c = &entry.children[i];
        if str_eq(c.tag.as_str(), "filter") {
            match FilterSpec::from_element(c) {
                Some(f) => {
                    if f.is_active() {
                        let s = f.to_filter_string();
                        proof {
                            lemma_join_push(pre, s@, ',');
                            reveal_strlit(",");
                        }
                        if any {
                            r.append(",");
                            assert(","@ =~= seq![',']);
                        }
                        r.append(s.as_str());
                        any = true;
                    }
                },
                None => {},
            }
        }
        i += 1;
    }
    proof {
        assert(entry.children@.take(entry.children@.len() as int) =~= entry.children@);
    }
    r
}

/// The first `producer` or `chain` element among `cs` whose id is `id`.
pub open spec fn spec_producer_elem(cs: Seq<Element>, id: Seq<char>) -> Option<Element>
    decreases cs.len(),
{
    if cs.len() == 0 {
        None
    } else if (cs[0].tag@ == "producer"@ || cs[0].tag@ == "chain"@) && cs[0].spec_attr("id"@)
        == Some(id) {
        Some(cs[0])
    } else {
        spec_producer_elem(cs.drop_first(), id)
    }
}

/// The first direct `property` child among `cs` named `name`.
pub open spec fn spec_child_prop(cs: Seq<Element>, name: Seq<char>) -> Option<Element>
    decreases cs.len(),
{
    if cs.len() == 0 {
        None
    } else if cs[0].spec_is_property(name) {
        Some(cs[0])
    } else {
        spec_child_prop(cs.drop_first(), name)
    }
}

/// The media identity of the producer referenced as `id`: the text of its
/// `kdenlive:originalurl` property, or failing that of its `resource`
/// property. `None` when the producer is missing, the preferred property
/// is missing, or that property has no text.
pub open spec fn spec_producer_url(root: Element, id: Seq<char>) -> Option<Seq<char>> {
    if root.children@.len() == 0 {
        None
    } else {
        match spec_producer_elem(root.children@[0].children@, id) {
            Some(p) => {
                let prop = match spec_child_prop(p.children@, "kdenlive:originalurl"@) {
                    Some(pr) => Some(pr),
                    None => spec_child_prop(p.children@, "resource"@),
                };
                match prop {
                    Some(pr) => match pr.text {
                        Some(t) => Some(t@),
                        None => None,
                    },
                    None => None,
                }
            },
            None => None,
        }
    }
}

/// Every `producer` or `chain` element among `cs` carries an `id`.
pub open spec fn spec_ids_present(cs: Seq<Element>) -> bool {
    forall|i: int|
        0 <= i < cs.len() && ((#[trigger] cs[i]).tag@ == "producer"@ || cs[i].tag@ == "chain"@)
            ==> cs[i].spec_attr("id"@) is Some
}

/// The first direct `property` child of `p` named `name`.
fn find_child_prop<'a>(p: &'a Element, name: &str) -> (r: Option<&'a Element>)
    ensures
        match r {
            Some(pr) => spec_child_prop(p.children@, name@) == Some(*pr),
            None => spec_child_prop(p.children@, name@) is None,
        },
{
    let mut i: usize = 0;
    proof {
        assert(p.children@.skip(0) =~= p.children@);
    }
    while i < p.children.len()
        invariant
            i <= p.children@.len(),
            spec_child_prop(p.children@, name@) == spec_child_prop(
                p.children@.skip(i as int),
                name@,
            ),
        decreases p.children@.len() - i,
    {
        let ghost tail = p.children@.skip(i as int);
        proof {
            assert(tail[0] == p.children@[i as int]);
            assert(tail.drop_first() =~= p.children@.skip(i + 1));
        }
        let c = &p.children[i];
        if str_eq(c.tag.as_str(), "property") {
            match c.attr("name") {
                Some(v) => {
                    if str_eq(v.as_str(), name) {
                        return Some(c);
                    }
                },
                None => {},
            }
        }
        i += 1;
    }
    proof {
        assert(p.children@.skip(p.children@.len() as int).len() == 0);
    }
    None
}

/// The `producer` or `chain` child of `mlt` whose id is `id`, if any.
fn find_producer<'a>(mlt: &'a Element, id: &str) -> (r: Option<&'a Element>)
    requires
        spec_ids_present(mlt.children@),
    ensures
        match r {
            Some(p) => spec_producer_elem(mlt.children@, id@) == Some(*p),
            None => spec_producer_elem(mlt.children@, id@) is None,
        },
{
    let mut i: usize = 0;
    proof {
        assert(mlt.children@.skip(0) =~= mlt.children@);
    }
    while i < mlt.children.len()
        invariant
            i <= mlt.children@.len(),
            spec_ids_present(mlt.children@),
            spec_producer_elem(mlt.children@, id@) == spec_producer_elem(
                mlt.children@.skip(i as int),
                id@,
            ),
        decreases mlt.children@.len() - i,
    {
        let ghost tail = mlt.children@.skip(i as int);
        proof {
            assert(tail[0] == mlt.children@[i as int]);
            assert(tail.drop_first() =~= mlt.children@.skip(i + 1));
        }
        let c = &mlt.children[i];
        if str_eq(c.tag.as_str(), "producer") || str_eq(c.tag.as_str(), "chain") {
            match c.attr("id") {
                Some(cid) => {
                    if str_eq(cid.as_str(), id) {
                        return Some(c);
                    }
                },
                None => {
                    proof {
                        assert(mlt.children@[i as int].spec_attr("id"@) is Some);
                    }
                    return vstd::pervasive::unreached();
                },
            }
        }
        i += 1;
    }
    proof {
        assert(mlt.children@.skip(mlt.children@.len() as int).len() == 0);
    }
    None
}

/// The media identity of the producer referenced as `id`, as
/// [`spec_producer_url`] resolves it.
pub fn get_url_from_producer<'a>(root: &'a Element, id: &str) -> (r: Option<&'a String>)
    requires
        root.children@.len() >= 1 ==> spec_ids_present(root.children@[0].children@),
    ensures
        match r {
            Some(v) => spec_producer_url(*root, id@) == Some(v@),
            None => spec_producer_url(*root, id@) is None,
        },
{
    if root.children.len() == 0 {
        return None;
    }
    let mlt = &root.children[0];
    let p = match find_producer(mlt, id) {
        Some(p) => p,
        None => {
            return None;
        },
    };
    let prop = match find_child_prop(p, "kdenlive:originalurl") {
        Some(pr) => pr,
        None => match find_child_prop(p, "resource") {
            Some(pr) => pr,
            None => {
                return None;
            },
        },
    };
    match &prop.text {
        Some(t) => Some(t),
        None => None,
    }
}

/// The `entry` elements of `cs`, in order.
pub open spec fn spec_entries_in(cs: Seq<Element>) -> Seq<Element>
    decreases cs.len(),
{
    if cs.len() == 0 {
        Seq::empty()
    } else {
        let rest = spec_entries_in(cs.drop_last());
        if cs.last().tag@ == "entry"@ {
            rest.push(cs.last())
        } else {
            rest
        }
    }
}

/// The entries of the `playlist` elements among `ps`, in document order.
pub open spec fn spec_entries_of_playlists(ps: Seq<Element>) -> Seq<Element>
    decreases ps.len(),
{
    if ps.len() == 0 {
        Seq::empty()
    } else {
        spec_entries_of_playlists(ps.drop_last()) + (if ps.last().tag@ == "playlist"@ {
            spec_entries_in(ps.last().children@)
        } else {
            Seq::empty()
        })
    }
}

/// The playlist entries of the document, in document order.
pub open spec fn spec_entries(root: Element) -> Seq<Element> {
    if root.children@.len() == 0 {
        Seq::empty()
    } else {
        spec_entries_of_playlists(root.children@[0].children@)
    }
}

/// Every `entry` of a `playlist` among `cs` names a producer.
pub open spec fn spec_entry_refs_present(cs: Seq<Element>) -> bool {
    forall|i: int, j: int|
        0 <= i < cs.len() && cs[i].tag@ == "playlist"@ && 0 <= j < cs[i].children@.len() && (
        #[trigger] cs[i].children@[j]).tag@ == "entry"@ ==> cs[i].children@[j].spec_attr(
            "producer"@,
        ) is Some
}

/// What the compiler demands of a document (anything less makes the
/// document malformed): a root element under the document node, an id on
/// every producer or chain, and a producer reference on every entry.
pub open spec fn spec_compile_wf(root: Element) -> bool {
    &&& root.children@.len() >= 1
    &&& spec_ids_present(root.children@[0].children@)
    &&& spec_entry_refs_present(root.children@[0].children@)
}

/// Does the document satisfy what the compiler demands?
/// (See [`spec_compile_wf`].)
pub fn check_compile_wf(root: &Element) -> (b: bool)
    ensures
        b == spec_compile_wf(*root),
{
    if root.children.len() == 0 {
        return false;
    }
    let mlt = &root.children[0];
    let ghost mcs = mlt.children@;
    let mut i: usize = 0;
    while i < mlt.children.len()
        invariant
            root.children@.len() >= 1,
            *mlt == root.children@[0],
            mcs == mlt.children@,
            i <= mcs.len(),
            forall|t: int|
                0 <= t < i && ((#[trigger] mcs[t]).tag@ == "producer"@ || mcs[t].tag@ == "chain"@)
                    ==> mcs[t].spec_attr("id"@) is Some,
            forall|t: int, j: int|
                0 <= t < i && mcs[t].tag@ == "playlist"@ && 0 <= j < mcs[t].children@.len() && (
                #[trigger] mcs[t].children@[j]).tag@ == "entry"@ ==> mcs[t].children@[j].spec_attr(
                    "producer"@,
                ) is Some,
        decreases mcs.len() - i,
    {
        let c = &mlt.children[i];
        if str_eq(c.tag.as_str(), "producer") || str_eq(c.tag.as_str(), "chain") {
            match c.attr("id") {
                Some(_) => {},
                None => {
                    proof {
                        if spec_ids_present(mcs) {
                            assert(mcs[i as int].spec_attr("id"@) is Some);
                        }
                    }
                    return false;
                },
            }
        }
        if str_eq(c.tag.as_str(), "playlist") {
            let mut j: usize = 0;
            while j < c.children.len()
                invariant
                    root.children@.len() >= 1,
                    *mlt == root.children@[0],
                    mcs == mlt.children@,
                    0 <= i < mcs.len(),
                    *c == mcs[i as int],
                    c.tag@ == "playlist"@,
                    j <= c.children@.len(),
                    forall|t: int|
                        0 <= t < j && (#[trigger] c.children@[t]).tag@ == "entry"@
                            ==> c.children@[t].spec_attr("producer"@) is Some,
                decreases c.children@.len() - j,
            {
                let en = &c.children[j];
                if str_eq(en.tag.as_str(), "entry") {
                    match en.attr("producer") {
                        Some(_) => {},
                        None => {
                            proof {
                                if spec_entry_refs_present(mcs) {
                                    assert(mcs[i as int].children@[j as int].spec_attr(
                                        "producer"@,
                                    ) is Some);
                                }
                            }
                            return false;
                        },
                    }
                }
                j += 1;
            }
        }
        i += 1;
    }
    true
}

/// The processing of `entries` into the filtergraph mapping: each entry
/// with a non-empty joined filter string and a resolvable producer
/// identity contributes one binding; a later entry whose producer
/// resolves to the same identity overrides an earlier one.
pub open spec fn spec_compile_entries(root: Element, entries: Seq<Element>) -> Map<
    Seq<char>,
    Seq<char>,
>
    decreases entries.len(),
{
    if entries.len() == 0 {
        Map::empty()
    } else {
        let m = spec_compile_entries(root, entries.drop_last());
        let entry = entries.last();
        let s = spec_entry_string(entry);
        if s.len() > 0 {
            match entry.spec_attr("producer"@) {
                Some(pid) => match spec_producer_url(root, pid) {
                    Some(u) => m.insert(u, s),
                    None => m,
                },
                None => m,
            }
        } else {
            m
        }
    }
}

/// The filtergraph mapping of the whole document.
pub open spec fn spec_filter_strings(root: Element) -> Map<Seq<char>, Seq<char>> {
    spec_compile_entries(root, spec_entries(root))
}

/// Walk the playlist entries of the document and build the mapping from
/// media identity to that producer's comma-joined active filter string.
/// Entries whose filters render to nothing, and entries whose producer
/// has no resolvable identity, contribute nothing.
pub fn get_filter_strings(root: &Element) -> (r: FilterGraphMap)
    requires
        spec_compile_wf(*root),
    ensures
        r@ == spec_filter_strings(*root),
        r.wf(),
{
    let mut m = FilterGraphMap::new();
    let mlt = &root.children[0];
    let ghost mcs = mlt.children@;
    let mut i: usize = 0;
    proof {
        assert(mcs.take(0) =~= Seq::<Element>::empty());
    }
    while i < mlt.children.len()
        invariant
            spec_compile_wf(*root),
            root.children@.len() >= 1,
            *mlt == root.children@[0],
            mcs == mlt.children@,
            i <= mcs.len(),
            m@ == spec_compile_entries(*root, spec_entries_of_playlists(mcs.take(i as int))),
            m.wf(),
        decreases mcs.len() - i,
    {
        proof {
            assert(mcs.take(i + 1).drop_last() =~= mcs.take(i as int));
            assert(mcs.take(i + 1).last() == mcs[i as int]);
        }
        let pl = &mlt.children[i];
        if str_eq(pl.tag.as_str(), "playlist") {
            let ghost base = spec_entries_of_playlists(mcs.take(i as int));
            let ghost pcs = pl.children@;
            let mut j: usize = 0;
            proof {
                assert(pcs.take(0) =~= Seq::<Element>::empty());
                assert(base + Seq::<Element>::empty() =~= base);
            }
            while j < pl.children.len()
                invariant
                    spec_compile_wf(*root),
                    root.children@.len() >= 1,
                    *mlt == root.children@[0],
                    mcs == mlt.children@,
                    0 <= i < mcs.len(),
                    *pl == mcs[i as int],
                    pl.tag@ == "playlist"@,
                    pcs == pl.children@,
                    base == spec_entries_of_playlists(mcs.take(i as int)),
                    j <= pcs.len(),
                    m@ == spec_compile_entries(*root, base + spec_entries_in(pcs.take(j as int))),
                    m.wf(),
                decreases pcs.len() - j,
            {
                proof {
                    assert(pcs.take(j + 1).drop_last() =~= pcs.take(j as int));
                    assert(pcs.take(j + 1).last() == pcs[j as int]);
                }
                let en = &pl.children[j];
                if str_eq(en.tag.as_str(), "entry") {
                    let ghost es = base + spec_entries_in(pcs.take(j as int));
                    proof {
                        assert(spec_entries_in(pcs.take(j + 1)) == spec_entries_in(
                            pcs.take(j as int),
                        ).push(*en));
                        assert(base + spec_entries_in(pcs.take(j + 1)) =~= es.push(*en));
                        assert(es.push(*en).drop_last() =~= es);
                        assert(es.push(*en).last() == *en);
                    }
                    let s = entry_filter_string(en);
                    if !s.as_str().is_empty() {
                        proof {
                            assert(mcs[i as int].children@[j as int].spec_attr("producer"@)
                                is Some);
                        }
                        match en.attr("producer") {
                            Some(pid) => {
                                match get_url_from_producer(root, pid.as_str()) {
                                    Some(u) => {
                                        let key = u.clone();
                                        m.insert(key, s);
                                    },
                                    None => {},
                                }
                            },
                            None => {
                                return vstd::pervasive::unreached();
                            },
                        }
                    }
                }
                j += 1;
            }
            proof {
                assert(pcs.take(pcs.len() as int) =~= pcs);
                assert(spec_entries_of_playlists(mcs.take(i + 1)) == base + spec_entries_in(pcs));
            }
        } else {
            proof {
                assert(spec_entries_of_playlists(mcs.take(i + 1)) =~= spec_entries_of_playlists(
                    mcs.take(i as int),
                ) + Seq::<Element>::empty());
                assert(spec_entries_of_playlists(mcs.take(i as int)) + Seq::<Element>::empty()
                    =~= spec_entries_of_playlists(mcs.take(i as int)));
            }
        }
        i += 1;
    }
    proof {
        assert(mcs.take(mcs.len() as int) =~= mcs);
    }
    m
}

/// The mapping built up by a sequence of key/value pairs, later pairs
/// overriding earlier ones.
pub open spec fn map_of(ps: Seq<(String, String)>) -> Map<Seq<char>, Seq<char>>
    decreases ps.len(),
{
    if ps.len() == 0 {
        Map::empty()
    } else {
        map_of(ps.drop_last()).insert(ps.last().0@, ps.last().1@)
    }
}

/// A key is in the mapping exactly when some pair holds it.
proof fn lemma_map_of_contains(ps: Seq<(String, String)>, k: Seq<char>)
    ensures
        map_of(ps).contains_key(k) <==> exists|i: int| 0 <= i < ps.len() && ps[i].0@ == k,
    decreases ps.len(),
{
    if ps.len() > 0 {
        let dl = ps.drop_last();
        lemma_map_of_contains(dl, k);
        if k == ps.last().0@ {
            assert(ps[ps.len() - 1].0@ == k);
        } else {
            if map_of(ps).contains_key(k) {
                let i = choose|i: int| 0 <= i < dl.len() && dl[i].0@ == k;
                assert(ps[i].0@ == k);
            }
            if exists|i: int| 0 <= i < ps.len() && ps[i].0@ == k {
                let i = choose|i: int| 0 <= i < ps.len() && ps[i].0@ == k;
                assert(dl[i] == ps[i]);
            }
        }
    }
}

/// With pairwise distinct keys, the mapping has one entry per pair.
proof fn lemma_map_of_dom_len(ps: Seq<(String, String)>)
    requires
        forall|i: int, j: int| 0 <= i < j < ps.len() ==> ps[i].0@ != ps[j].0@,
    ensures
        map_of(ps).dom().finite(),
        map_of(ps).dom().len() == ps.len(),
    decreases ps.len(),
{
    if ps.len() == 0 {
        assert(map_of(ps).dom() =~= Set::<Seq<char>>::empty());
    } else {
        let dl = ps.drop_last();
        assert(forall|i: int, j: int| 0 <= i < j < dl.len() ==> dl[i].0@ != dl[j].0@) by {
            assert(forall|i: int| 0 <= i < dl.len() ==> dl[i] == ps[i]);
        }
        lemma_map_of_dom_len(dl);
        lemma_map_of_contains(dl, ps.last().0@);
        assert(!map_of(dl).contains_key(ps.last().0@)) by {
            if exists|i: int| 0 <= i < dl.len() && dl[i].0@ == ps.last().0@ {
                let i = choose|i: int| 0 <= i < dl.len() && dl[i].0@ == ps.last().0@;
                assert(ps[i].0@ == ps[ps.len() - 1].0@);
            }
        }
        assert(map_of(ps).dom() =~= map_of(dl).dom().insert(ps.last().0@));
    }
}

/// Removing the one pair that holds key `k` removes `k` from the mapping.
proof fn lemma_map_of_remove(ps: Seq<(String, String)>, j: int)
    requires
        forall|i1: int, i2: int| 0 <= i1 < i2 < ps.len() ==> ps[i1].0@ != ps[i2].0@,
        0 <= j < ps.len(),
    ensures
        map_of(ps.remove(j)) == map_of(ps).remove(ps[j].0@),
    decreases ps.len(),
{
    let k = ps[j].0@;
    let dl = ps.drop_last();
    assert(forall|i1: int, i2: int| 0 <= i1 < i2 < dl.len() ==> dl[i1].0@ != dl[i2].0@) by {
        assert(forall|i: int| 0 <= i < dl.len() ==> dl[i] == ps[i]);
    }
    if j == ps.len() - 1 {
        assert(ps.remove(j) =~= dl);
        lemma_map_of_contains(dl, k);
        assert(!map_of(dl).contains_key(k)) by {
            if exists|i: int| 0 <= i < dl.len() && dl[i].0@ == k {
                let i = choose|i: int| 0 <= i < dl.len() && dl[i].0@ == k;
                assert(ps[i].0@ == ps[j].0@);
            }
        }
        assert(map_of(ps).remove(k) =~= map_of(dl));
    } else {
        lemma_map_of_remove(dl, j);
        assert(ps.remove(j).drop_last() =~= dl.remove(j));
        assert(ps.remove(j).last() == ps.last());
        assert(ps[j].0@ == dl[j].0@);
        assert(map_of(ps.remove(j)) == map_of(dl.remove(j)).insert(ps.last().0@, ps.last().1@));
        assert(ps.last().0@ != k) by {
            assert(ps[j].0@ != ps[ps.len() - 1].0@);
        }
        assert(map_of(dl).remove(k).insert(ps.last().0@, ps.last().1@) =~= map_of(dl).insert(
            ps.last().0@,
            ps.last().1@,
        ).remove(k));
    }
}

/// A mapping from media identity to the producer's compiled
/// filter-expression string.
#[derive(Debug)]
pub struct FilterGraphMap {
    pairs: Vec<(String, String)>,
}

impl View for FilterGraphMap {
    type V = Map<Seq<char>, Seq<char>>;

    closed spec fn view(&self) -> Map<Seq<char>, Seq<char>> {
        map_of(self.pairs@)
    }
}

impl FilterGraphMap {
    /// No two stored pairs share a key.
    pub closed spec fn wf(self) -> bool {
        forall|i: int, j: int|
            0 <= i < j < self.pairs@.len() ==> self.pairs@[i].0@ != self.pairs@[j].0@
    }

    /// An empty mapping.
    pub fn new() -> (r: FilterGraphMap)
        ensures
            r@ == Map::<Seq<char>, Seq<char>>::empty(),
            r.wf(),
    {
        FilterGraphMap { pairs: Vec::new() }
    }

    /// Map `k` to `v`, replacing what `k` was mapped to before.
    pub fn insert(&mut self, k: String, v: String)
        requires
            old(self).wf(),
        ensures
            final(self)@ == old(self)@.insert(k@, v@),
            final(self).wf(),
    {
        let ghost ps0 = self.pairs@;
        let mut i: usize = 0;
        let n = self.pairs.len();
        while i < n
            invariant
                n == self.pairs@.len(),
                i <= n,
                self.pairs@ == ps0,
                ps0 == old(self).pairs@,
                forall|i1: int, i2: int| 0 <= i1 < i2 < ps0.len() ==> ps0[i1].0@ != ps0[i2].0@,
                forall|t: int| 0 <= t < i ==> ps0[t].0@ != k@,
            decreases n - i,
        {
            if str_eq(self.pairs[i].0.as_str(), k.as_str()) {
                proof {
                    assert(forall|i1: int, i2: int|
                        0 <= i1 < i2 < ps0.len() ==> ps0[i1].0@ != ps0[i2].0@);
                    lemma_map_of_remove(ps0, i as int);
                }
                self.pairs.remove(i);
                let ghost ps1 = self.pairs@;
                self.pairs.push((k, v));
                proof {
                    assert(self.pairs@.drop_last() =~= ps1);
                    assert(self.pairs@.last() == (k, v));
                    assert(map_of(self.pairs@) == map_of(ps1).insert(k@, v@));
                    assert(map_of(ps1) == map_of(ps0).remove(k@));
                    assert(map_of(ps0).remove(k@).insert(k@, v@) =~= map_of(ps0).insert(k@, v@));
                    assert forall|i1: int, i2: int|
                        0 <= i1 < i2 < self.pairs@.len() implies self.pairs@[i1].0@
                        != self.pairs@[i2].0@ by {
                        if i2 < self.pairs@.len() - 1 {
                            assert(ps1[i1] == self.pairs@[i1]);
                            assert(ps1[i2] == self.pairs@[i2]);
                        } else {
                            assert(ps1[i1] == self.pairs@[i1]);
                        }
                    }
                }
                return ;
            }
            i += 1;
        }
        let ghost ps1 = self.pairs@;
        self.pairs.push((k, v));
        proof {
            assert(self.pairs@.drop_last() =~= ps1);
            lemma_map_of_contains(ps1, k@);
            assert forall|i1: int, i2: int|
                0 <= i1 < i2 < self.pairs@.len() implies self.pairs@[i1].0@
                != self.pairs@[i2].0@ by {
                if i2 < self.pairs@.len() - 1 {
                    assert(ps1[i1] == self.pairs@[i1]);
                    assert(ps1[i2] == self.pairs@[i2]);
                } else {
                    assert(ps1[i1] == self.pairs@[i1]);
                }
            }
        }
    }

    /// What `k` is mapped to, if anything.
    pub fn get<'a>(&'a self, k: &str) -> (r: Option<&'a String>)
        ensures
            match r {
                Some(v) => self@.contains_key(k@) && self@[k@] == v@,
                None => !self@.contains_key(k@),
            },
    {
        let n = self.pairs.len();
        let mut j = n;
        proof {
            assert(self.pairs@.take(n as int) =~= self.pairs@);
        }
        while j > 0
            invariant
                n == self.pairs@.len(),
                j <= n,
                map_of(self.pairs@).contains_key(k@) == map_of(
                    self.pairs@.take(j as int),
                ).contains_key(k@),
                map_of(self.pairs@).contains_key(k@) ==> map_of(self.pairs@)[k@] == map_of(
                    self.pairs@.take(j as int),
                )[k@],
            decreases j,
        {
            j -= 1;
            proof {
                assert(self.pairs@.take(j + 1).drop_last() =~= self.pairs@.take(j as int));
                assert(self.pairs@.take(j + 1).last() == self.pairs@[j as int]);
            }
            if str_eq(self.pairs[j].0.as_str(), k) {
                return Some(&self.pairs[j].1);
            }
        }
        proof {
            assert(self.pairs@.take(0) =~= Seq::<(String, String)>::empty());
        }
        None
    }

    /// The number of keys mapped.
    pub fn len(&self) -> (r: usize)
        requires
            self.wf(),
        ensures
            r == self@.dom().len(),
    {
        proof {
            lemma_map_of_dom_len(self.pairs@);
        }
        self.pairs.len()
    }
}

/// Does the line mention a property named `filtergraph`?
pub open spec fn spec_is_filtergraph_line(l: Seq<char>) -> bool {
    has_sub(l, "name=\"filtergraph\""@)
}

/// Does the line mention a media-resource property (`kdenlive:originalurl`
/// or `resource`)?
pub open spec fn spec_is_resource_line(l: Seq<char>) -> bool {
    has_sub(l, "<property name=\"kdenlive:originalurl"@) || has_sub(
        l,
        "<property name=\"resource"@,
    )
}

/// The value field of a property declaration on line `l`: with `p` the
/// first start of `<property name="`, `k` the last start of
/// `</property>`, and `j` the last start of `">` no later than `k - 2`,
/// the text between `j + 2` and `k` — provided `j` leaves room for the
/// name field (`j >= p + 16`). `None` when no such positions exist.
pub open spec fn spec_line_property_value(l: Seq<char>) -> Option<Seq<char>> {
    match spec_find_from(l, "<property name=\""@, 0) {
        Some(p) => match spec_rfind_upto(l, "</property>"@, l.len() as int) {
            Some(k) => match spec_rfind_upto(l, "\">"@, k - 2) {
                Some(j) => if j >= p + 16 {
                    Some(l.subrange(j + 2, k))
                } else {
                    None
                },
                None => None,
            },
            None => None,
        },
        None => None,
    }
}

/// The value field of a property declaration on line `l`.
/// (See [`spec_line_property_value`].)
fn line_property_value(l: &str) -> (r: Option<&str>)
    ensures
        match r {
            Some(v) => spec_line_property_value(l@) == Some(v@),
            None => spec_line_property_value(l@) is None,
        },
{
    let len = l.unicode_len();
    proof {
        reveal_strlit("<property name=\"");
        reveal_strlit("</property>");
        reveal_strlit("\">");
    }
    let p = match find_str(l, "<property name=\"") {
        Some(p) => p,
        None => {
            proof {
                lemma_spec_find_from_none(l@, "<property name=\""@, 0);
            }
            return None;
        },
    };
    proof {
        lemma_spec_find_from_some(l@, "<property name=\""@, 0, p as int);
    }
    let k = match find_str_last_in(l, "</property>", 0, len) {
        Some(k) => k,
        None => {
            proof {
                lemma_spec_rfind_none(l@, "</property>"@, l@.len() as int);
            }
            return None;
        },
    };
    proof {
        lemma_spec_rfind_some(l@, "</property>"@, l@.len() as int, k as int);
    }
    if k < 2 {
        proof {
            assert(spec_rfind_upto(l@, "\">"@, k - 2) is None);
        }
        return None;
    }
    let j = match find_str_last_in(l, "\">", 0, k - 2) {
        Some(j) => j,
        None => {
            proof {
                lemma_spec_rfind_none(l@, "\">"@, k - 2);
            }
            return None;
        },
    };
    proof {
        lemma_spec_rfind_some(l@, "\">"@, k - 2, j as int);
    }
    if j >= p + 16 {
        Some(l.substring_char(j + 2, k))
    } else {
        None
    }
}

/// The property line inserted for filter string `s`, with the optional
/// appended fragment.
pub open spec fn spec_inserted_line(s: Seq<char>, append: Option<Seq<char>>) -> Seq<char> {
    "  <property name=\"filtergraph\">"@ + s + (match append {
        Some(a) => ","@ + a,
        None => Seq::empty(),
    }) + "</property>"@
}

/// What the rewriter emits for the one input line `l`: nothing for a
/// dropped `filtergraph` line; an inserted `filtergraph` line followed by
/// `l` itself when `l` declares a resource whose value is mapped; `l`
/// alone otherwise.
pub open spec fn spec_rewrite_line(
    l: Seq<char>,
    m: Map<Seq<char>, Seq<char>>,
    delete_existing: bool,
    append: Option<Seq<char>>,
) -> Seq<Seq<char>> {
    if delete_existing && spec_is_filtergraph_line(l) {
        Seq::empty()
    } else {
        match spec_line_property_value(l) {
            Some(u) => if spec_is_resource_line(l) && m.contains_key(u) {
                seq![spec_inserted_line(m[u], append), l]
            } else {
                seq![l]
            },
            None => seq![l],
        }
    }
}

/// The rewriter's output lines for the input lines `ls`, in order.
pub open spec fn spec_rewrite_lines(
    ls: Seq<Seq<char>>,
    m: Map<Seq<char>, Seq<char>>,
    delete_existing: bool,
    append: Option<Seq<char>>,
) -> Seq<Seq<char>>
    decreases ls.len(),
{
    if ls.len() == 0 {
        Seq::empty()
    } else {
        spec_rewrite_lines(ls.drop_last(), m, delete_existing, append) + spec_rewrite_line(
            ls.last(),
            m,
            delete_existing,
            append,
        )
    }
}

/// The whole rewritten document: the input split into lines, each line
/// rewritten, and everything joined back with newlines.
pub open spec fn spec_rewrite(
    text: Seq<char>,
    m: Map<Seq<char>, Seq<char>>,
    delete_existing: bool,
    append: Option<Seq<char>>,
) -> Seq<char> {
    spec_join_nl(spec_rewrite_lines(spec_lines(text), m, delete_existing, append))
}

/// Build the inserted `filtergraph` property line.
fn build_inserted_line(fs: &String, append_filter: &Option<String>) -> (r: String)
    ensures
        r@ == spec_inserted_line(fs@, append_filter.deep_view()),
{
    let mut ins = String::from_str("  <property name=\"filtergraph\">");
    ins.append(fs.as_str());
    match append_filter {
        Some(a) => {
            proof {
                reveal_strlit(",");
            }
            ins.append(",");
            ins.append(a.as_str());
        },
        None => {},
    }
    ins.append("</property>");
    assert(ins@ =~= spec_inserted_line(fs@, append_filter.deep_view()));
    ins
}

/// Re-emit the document line by line. A line declaring a `filtergraph`
/// property is dropped when `delete_existing` is set. Immediately before
/// re-emitting a line that declares a `kdenlive:originalurl` or
/// `resource` property whose value is a key of `filter_strings`, one new
/// `filtergraph` property line with that key's filter string (and the
/// optional appended fragment) is emitted. Every other line is passed
/// through unchanged; the lines are joined with `\n`.
pub fn add_filtergraph_to_producers(
    xml: String,
    filter_strings: &FilterGraphMap,
    delete_existing: bool,
    append_filter: Option<String>,
) -> (r: String)
    ensures
        r@ == spec_rewrite(xml@, filter_strings@, delete_existing, append_filter.deep_view()),
{
    let lines = split_lines(xml.as_str());
    let ghost lv = lines.deep_view();
    let mut out: Vec<String> = Vec::new();
    let mut i: usize = 0;
    proof {
        assert(lv.take(0) =~= Seq::<Seq<char>>::empty());
        assert(out.deep_view() =~= Seq::<Seq<char>>::empty());
    }
    while i < lines.len()
        invariant
            lv == lines.deep_view(),
            lv == spec_lines(xml@),
            lv.len() == lines@.len(),
            i <= lines@.len(),
            out.deep_view() == spec_rewrite_lines(
                lv.take(i as int),
                filter_strings@,
                delete_existing,
                append_filter.deep_view(),
            ),
        decreases lines@.len() - i,
    {
        let ghost pre = out.deep_view();
        proof {
            assert(lv.take(i + 1).drop_last() =~= lv.take(i as int));
            assert(lv.take(i + 1).last() == lv[i as int]);
            assert(lv[i as int] == lines@[i as int]@);
            reveal_strlit("name=\"filtergraph\"");
            reveal_strlit("<property name=\"kdenlive:originalurl");
            reveal_strlit("<property name=\"resource");
        }
        let l = &lines[i];
        let drop_line = delete_existing && contains_str(l.as_str(), "name=\"filtergraph\"");
        if drop_line {
            proof {
                assert(pre + Seq::<Seq<char>>::empty() =~= pre);
            }
        } else {
            let is_res = contains_str(l.as_str(), "<property name=\"kdenlive:originalurl")
                || contains_str(l.as_str(), "<property name=\"resource");
            if is_res {
                match line_property_value(l.as_str()) {
                    Some(u) => {
                        match filter_strings.get(u) {
                            Some(fs) => {
                                let ins = build_inserted_line(fs, &append_filter);
                                let ghost insv = ins@;
                                out.push(ins);
                                proof {
                                    assert(out.deep_view() =~= pre.push(insv));
                                }
                            },
                            None => {},
                        }
                    },
                    None => {},
                }
            }
            let ghost mid = out.deep_view();
            out.push(l.clone());
            proof {
                assert(out.deep_view() =~= mid.push(lv[i as int]));
                assert(pre + spec_rewrite_line(
                    lv[i as int],
                    filter_strings@,
                    delete_existing,
                    append_filter.deep_view(),
                ) =~= out.deep_view());
            }
        }
        i += 1;
    }
    proof {
        assert(lv.take(lv.len() as int) =~= lv);
    }
    join_lines(&out)
}

/// A filter element without a `disable` property is active; one whose
/// `disable` property reads `1` is not. Every parsed filter's activity
/// follows this rule (see `FilterSpec::from_element`).
pub proof fn lemma_disable_controls_activity(e: Element)
    ensures
        spec_property_value(e, "disable"@) is None ==> spec_element_active(e),
        spec_property_value(e, "disable"@) == Some("1"@) ==> !spec_element_active(e),
{
    reveal_strlit("1");
    assert("1"@ =~= seq!['1']);
    let s = seq!['1'];
    assert(s.drop_last() =~= Seq::<char>::empty());
    assert(crate::num::digits_val(Seq::<char>::empty()) == 0);
    assert(crate::num::digits_val(s) == 1);
    assert(crate::num::spec_parse_i32(s) == Some(1i32));
}

/// A property value with a timestamp prefix (`TIMECODE=value`) strips to
/// the bare value, which stripping leaves whole — so prefixed and bare
/// values parse identically — as long as the value itself has no `=`.
pub proof fn lemma_timestamp_prefix_stripped(prefix: Seq<char>, v: Seq<char>)
    requires
        forall|k: int| 0 <= k < v.len() ==> v[k] != '=',
    ensures
        spec_strip_timestamp(prefix + seq!['='] + v) == v,
        spec_strip_timestamp(v) == v,
{
    lemma_strip_timestamp_plain(v);
    let w = prefix + seq!['='] + v;
    assert(w[prefix.len() as int] == '=');
    assert forall|k: int| prefix.len() < k < w.len() implies w[k] != '=' by {
        assert(w[k] == v[k - prefix.len() - 1]);
    }
    lemma_strip_timestamp_at(w, prefix.len() as int);
    assert(w.subrange(prefix.len() as int + 1, w.len() as int) =~= v);
}

/// A filter child that is inactive (or not recognized at all) contributes
/// nothing to an entry's list of fragments.
pub proof fn lemma_inactive_filter_excluded(cs: Seq<Element>, c: Element)
    requires
        !(c.tag@ == "filter"@ && spec_recognized(c) && spec_element_active(c)),
    ensures
        spec_filter_fragments(cs.push(c)) == spec_filter_fragments(cs),
{
    assert(cs.push(c).drop_last() =~= cs);
}

/// Helper: an entry whose filter children are all inactive or
/// unrecognized has no fragments.
proof fn lemma_fragments_empty(cs: Seq<Element>)
    requires
        forall|i: int|
            0 <= i < cs.len() ==> !((#[trigger] cs[i]).tag@ == "filter"@ && spec_recognized(cs[i])
                && spec_element_active(cs[i])),
    ensures
        spec_filter_fragments(cs) == Seq::<Seq<char>>::empty(),
    decreases cs.len(),
{
    if cs.len() > 0 {
        let dl = cs.drop_last();
        assert(forall|i: int| 0 <= i < dl.len() ==> dl[i] == cs[i]);
        lemma_fragments_empty(dl);
        assert(cs[cs.len() - 1] == cs.last());
    }
}

/// An entry whose filter children are all inactive or unrecognized has
/// an empty joined string, and processing it adds nothing to the mapping.
pub proof fn lemma_all_inactive_entry_dropped(root: Element, entries: Seq<Element>, entry: Element)
    requires
        forall|i: int|
            0 <= i < entry.children@.len() ==> !((#[trigger] entry.children@[i]).tag@ == "filter"@
                && spec_recognized(entry.children@[i]) && spec_element_active(
                entry.children@[i],
            )),
    ensures
        spec_entry_string(entry).len() == 0,
        spec_compile_entries(root, entries.push(entry)) == spec_compile_entries(root, entries),
{
    lemma_fragments_empty(entry.children@);
    assert(entries.push(entry).drop_last() =~= entries);
    assert(entries.push(entry).last() == entry);
}

/// With deletion on, a line that mentions a `filtergraph` property is
/// dropped from the output.
pub proof fn lemma_filtergraph_line_removed(
    l: Seq<char>,
    m: Map<Seq<char>, Seq<char>>,
    append: Option<Seq<char>>,
)
    requires
        spec_is_filtergraph_line(l),
    ensures
        spec_rewrite_line(l, m, true, append) == Seq::<Seq<char>>::empty(),
{
}

/// Without deletion, a line that mentions a pre-existing `filtergraph`
/// property, and does not itself declare a mapped resource, is preserved
/// unchanged; the insertion rule fires only at resource lines.
pub proof fn lemma_filtergraph_line_kept(
    l: Seq<char>,
    m: Map<Seq<char>, Seq<char>>,
    append: Option<Seq<char>>,
)
    requires
        !(spec_is_resource_line(l) && (match spec_line_property_value(l) {
            Some(u) => m.contains_key(u),
            None => false,
        })),
    ensures
        spec_rewrite_line(l, m, false, append) == seq![l],
{
}

/// A surviving resource line whose value is mapped is emitted unchanged,
/// immediately preceded by exactly one inserted `filtergraph` line
/// holding its mapped filter string.
pub proof fn lemma_resource_line_insertion(
    l: Seq<char>,
    m: Map<Seq<char>, Seq<char>>,
    delete_existing: bool,
    append: Option<Seq<char>>,
    u: Seq<char>,
)
    requires
        !(delete_existing && spec_is_filtergraph_line(l)),
        spec_is_resource_line(l),
        spec_line_property_value(l) == Some(u),
        m.contains_key(u),
    ensures
        spec_rewrite_line(l, m, delete_existing, append) == seq![
            spec_inserted_line(m[u], append),
            l,
        ],
{
}

/// An inserted line itself mentions `name="filtergraph"` (at offset 12 of
/// its fixed head), so a later pass with deletion on removes it again.
pub proof fn lemma_inserted_line_is_filtergraph(s: Seq<char>, append: Option<Seq<char>>)
    ensures
        spec_is_filtergraph_line(spec_inserted_line(s, append)),
{
    reveal_strlit("  <property name=\"filtergraph\">");
    reveal_strlit("name=\"filtergraph\"");
    let ins = spec_inserted_line(s, append);
    let head = "  <property name=\"filtergraph\">"@;
    let pat = "name=\"filtergraph\""@;
    assert forall|t: int| 0 <= t < pat.len() implies ins.subrange(12, 12 + pat.len() as int)[t]
        == pat[t] by {
        assert(ins[12 + t] == head[12 + t]);
    }
    assert(ins.subrange(12, 12 + pat.len() as int) =~= pat);
    assert(crate::text::is_match_at(ins, pat, 12));
}

/// A line that neither mentions a `filtergraph` property nor declares a
/// mapped resource passes through the rewriter unchanged, whatever the
/// flags: unrelated lines are byte-identical between input and output.
pub proof fn lemma_unrelated_line_unchanged(
    l: Seq<char>,
    m: Map<Seq<char>, Seq<char>>,
    delete_existing: bool,
    append: Option<Seq<char>>,
)
    requires
        !spec_is_filtergraph_line(l),
        !(spec_is_resource_line(l) && (match spec_line_property_value(l) {
            Some(u) => m.contains_key(u),
            None => false,
        })),
    ensures
        spec_rewrite_line(l, m, delete_existing, append) == seq![l],
{
}

/// Every unrelated input line survives into the output, byte-identical,
/// whatever the flags: rewriting touches only `filtergraph` lines and
/// mapped resource lines.
pub proof fn lemma_unrelated_lines_survive(
    ls: Seq<Seq<char>>,
    m: Map<Seq<char>, Seq<char>>,
    delete_existing: bool,
    append: Option<Seq<char>>,
    i: int,
)
    requires
        0 <= i < ls.len(),
        !spec_is_filtergraph_line(ls[i]),
        !(spec_is_resource_line(ls[i]) && (match spec_line_property_value(ls[i]) {
            Some(u) => m.contains_key(u),
            None => false,
        })),
    ensures
        spec_rewrite_lines(ls, m, delete_existing, append).contains(ls[i]),
    decreases ls.len(),
{
    let out = spec_rewrite_lines(ls, m, delete_existing, append);
    let dl = ls.drop_last();
    let out_dl = spec_rewrite_lines(dl, m, delete_existing, append);
    if i == ls.len() - 1 {
        lemma_unrelated_line_unchanged(ls[i], m, delete_existing, append);
        assert(out[out_dl.len() as int] == ls[i]);
    } else {
        assert(dl[i] == ls[i]);
        lemma_unrelated_lines_survive(dl, m, delete_existing, append, i);
        let t = choose|t: int| 0 <= t < out_dl.len() && out_dl[t] == ls[i];
        assert(out[t] == ls[i]);
    }
}

/// The key that line `l` triggers an insertion for, if any.
pub open spec fn spec_trigger_key(
    l: Seq<char>,
    m: Map<Seq<char>, Seq<char>>,
    delete_existing: bool,
) -> Option<Seq<char>> {
    if delete_existing && spec_is_filtergraph_line(l) {
        None
    } else {
        match spec_line_property_value(l) {
            Some(u) => if spec_is_resource_line(l) && m.contains_key(u) {
                Some(u)
            } else {
                None
            },
            None => None,
        }
    }
}

/// How many lines of `ls` trigger an insertion for key `u`.
pub open spec fn spec_count_triggers(
    ls: Seq<Seq<char>>,
    m: Map<Seq<char>, Seq<char>>,
    delete_existing: bool,
    u: Seq<char>,
) -> nat
    decreases ls.len(),
{
    if ls.len() == 0 {
        0
    } else {
        spec_count_triggers(ls.drop_last(), m, delete_existing, u) + (if spec_trigger_key(
            ls.last(),
            m,
            delete_existing,
        ) == Some(u) {
            1nat
        } else {
            0nat
        })
    }
}

/// How many lines of `ls` are exactly the text `x`.
pub open spec fn spec_count_line(ls: Seq<Seq<char>>, x: Seq<char>) -> nat
    decreases ls.len(),
{
    if ls.len() == 0 {
        0
    } else {
        spec_count_line(ls.drop_last(), x) + (if ls.last() == x {
            1nat
        } else {
            0nat
        })
    }
}

/// Counting distributes over concatenation.
proof fn lemma_count_line_concat(a: Seq<Seq<char>>, b: Seq<Seq<char>>, x: Seq<char>)
    ensures
        spec_count_line(a + b, x) == spec_count_line(a, x) + spec_count_line(b, x),
    decreases b.len(),
{
    if b.len() == 0 {
        assert(a + b =~= a);
    } else {
        assert((a + b).drop_last() =~= a + b.drop_last());
        assert((a + b).last() == b.last());
        lemma_count_line_concat(a, b.drop_last(), x);
    }
}

/// Two different filter strings build two different inserted lines.
proof fn lemma_inserted_line_injective(s1: Seq<char>, s2: Seq<char>, append: Option<Seq<char>>)
    requires
        spec_inserted_line(s1, append) == spec_inserted_line(s2, append),
    ensures
        s1 == s2,
{
    reveal_strlit("  <property name=\"filtergraph\">");
    let head = "  <property name=\"filtergraph\">"@;
    let mid = (match append {
        Some(a) => ","@ + a,
        None => Seq::<char>::empty(),
    });
    let i1 = spec_inserted_line(s1, append);
    let i2 = spec_inserted_line(s2, append);
    assert(i1.len() == head.len() + s1.len() + mid.len() + "</property>"@.len());
    assert(i2.len() == head.len() + s2.len() + mid.len() + "</property>"@.len());
    assert(s1.len() == s2.len());
    assert forall|t: int| 0 <= t < s1.len() implies s1[t] == s2[t] by {
        assert(i1[31 + t] == s1[t]);
        assert(i2[31 + t] == s2[t]);
    }
    assert(s1 =~= s2);
}

/// With deletion on, the inserted line for key `u` stands in the output
/// exactly as often as an input line triggers an insertion for `u` — so
/// exactly once in a document where exactly one resource line resolves
/// to that producer's identity. (No other key may map to the very same
/// filter string, which would render an indistinguishable line.)
pub proof fn lemma_one_insertion_per_producer(
    ls: Seq<Seq<char>>,
    m: Map<Seq<char>, Seq<char>>,
    append: Option<Seq<char>>,
    u: Seq<char>,
)
    requires
        m.contains_key(u),
        forall|u2: Seq<char>| m.contains_key(u2) && m[u2] == m[u] ==> u2 == u,
    ensures
        spec_count_line(
            spec_rewrite_lines(ls, m, true, append),
            spec_inserted_line(m[u], append),
        ) == spec_count_triggers(ls, m, true, u),
    decreases ls.len(),
{
    let x = spec_inserted_line(m[u], append);
    lemma_inserted_line_is_filtergraph(m[u], append);
    assert(spec_count_line(Seq::<Seq<char>>::empty(), x) == 0);
    if ls.len() > 0 {
        let dl = ls.drop_last();
        let l = ls.last();
        lemma_one_insertion_per_producer(dl, m, append, u);
        let out_l = spec_rewrite_line(l, m, true, append);
        lemma_count_line_concat(spec_rewrite_lines(dl, m, true, append), out_l, x);
        if spec_is_filtergraph_line(l) {
            assert(spec_count_line(out_l, x) == 0);
        } else {
            match spec_line_property_value(l) {
                Some(u2) => {
                    if spec_is_resource_line(l) && m.contains_key(u2) {
                        assert(spec_count_line(Seq::<Seq<char>>::empty(), x) == 0);
                        assert(out_l == seq![spec_inserted_line(m[u2], append), l]);
                        assert(out_l.drop_last() =~= seq![spec_inserted_line(m[u2], append)]);
                        assert(seq![spec_inserted_line(m[u2], append)].drop_last()
                            =~= Seq::<Seq<char>>::empty());
                        assert(out_l.last() == l);
                        assert(seq![spec_inserted_line(m[u2], append)].last()
                            == spec_inserted_line(m[u2], append));
                        assert(spec_count_line(out_l, x) == spec_count_line(
                            seq![spec_inserted_line(m[u2], append)],
                            x,
                        ) + (if l == x {
                            1nat
                        } else {
                            0nat
                        }));
                        assert(l != x);
                        if spec_inserted_line(m[u2], append) == x {
                            lemma_inserted_line_injective(m[u2], m[u], append);
                            assert(u2 == u);
                        }
                        if u2 == u {
                            assert(spec_count_line(out_l, x) == 1);
                        } else {
                            assert(spec_count_line(out_l, x) == 0);
                        }
                    } else {
                        assert(out_l == seq![l]);
                        assert(seq![l].drop_last() =~= Seq::<Seq<char>>::empty());
                        assert(l != x);
                    }
                },
                None => {
                    assert(out_l == seq![l]);
                    assert(seq![l].drop_last() =~= Seq::<Seq<char>>::empty());
                    assert(l != x);
                },
            }
        }
    }
}

/// The inserted line holds no newline (when the filter string and the
/// appended fragment hold none) and does not end in a carriage return.
proof fn lemma_inserted_line_clean(s: Seq<char>, append: Option<Seq<char>>)
    requires
        no_char(s, '\n'),
        (match append {
            Some(a) => no_char(a, '\n'),
            None => true,
        }),
    ensures
        no_char(spec_inserted_line(s, append), '\n'),
        spec_inserted_line(s, append).len() > 0,
        spec_inserted_line(s, append).last() != '\r',
{
    reveal_strlit("  <property name=\"filtergraph\">");
    reveal_strlit("</property>");
    reveal_strlit(",");
    let head = "  <property name=\"filtergraph\">"@;
    let tail = "</property>"@;
    let mid = (match append {
        Some(a) => ","@ + a,
        None => Seq::<char>::empty(),
    });
    let ins = spec_inserted_line(s, append);
    assert(no_char(head, '\n'));
    assert(no_char(tail, '\n'));
    assert(no_char(mid, '\n')) by {
        match append {
            Some(a) => {
                assert forall|t: int| 0 <= t < mid.len() implies mid[t] != '\n' by {
                    if t == 0 {
                        assert(mid[0] == ',');
                    } else {
                        assert(mid[t] == a[t - 1]);
                    }
                }
            },
            None => {},
        }
    }
    assert forall|t: int| 0 <= t < ins.len() implies ins[t] != '\n' by {
        if t < 31 {
            assert(ins[t] == head[t]);
        } else if t < 31 + s.len() {
            assert(ins[t] == s[t - 31]);
        } else if t < 31 + s.len() + mid.len() {
            assert(ins[t] == mid[t - 31 - s.len()]);
        } else {
            assert(ins[t] == tail[t - 31 - s.len() - mid.len()]);
        }
    }
    assert(ins.last() == tail.last());
    assert(tail.last() == '>');
}

/// All output lines of a deletion pass are newline-free and free of a
/// trailing carriage return, given clean input lines, mapping and
/// appended fragment.
proof fn lemma_rewrite_lines_clean(
    ls: Seq<Seq<char>>,
    m: Map<Seq<char>, Seq<char>>,
    append: Option<Seq<char>>,
)
    requires
        forall|i: int| 0 <= i < ls.len() ==> no_char(#[trigger] ls[i], '\n'),
        forall|i: int| 0 <= i < ls.len() && (#[trigger] ls[i]).len() > 0 ==> ls[i].last() != '\r',
        forall|u: Seq<char>| #[trigger] m.contains_key(u) ==> no_char(m[u], '\n'),
        (match append {
            Some(a) => no_char(a, '\n'),
            None => true,
        }),
    ensures
        forall|i: int|
            0 <= i < spec_rewrite_lines(ls, m, true, append).len() ==> no_char(
                #[trigger] spec_rewrite_lines(ls, m, true, append)[i],
                '\n',
            ),
        forall|i: int|
            0 <= i < spec_rewrite_lines(ls, m, true, append).len() && (
            #[trigger] spec_rewrite_lines(ls, m, true, append)[i]).len() > 0
                ==> spec_rewrite_lines(ls, m, true, append)[i].last() != '\r',
    decreases ls.len(),
{
    let out = spec_rewrite_lines(ls, m, true, append);
    if ls.len() > 0 {
        let dl = ls.drop_last();
        let l = ls.last();
        assert(forall|i: int| 0 <= i < dl.len() ==> dl[i] == ls[i]);
        assert(l == ls[ls.len() - 1]);
        lemma_rewrite_lines_clean(dl, m, append);
        let out_dl = spec_rewrite_lines(dl, m, true, append);
        let out_l = spec_rewrite_line(l, m, true, append);
        assert(forall|i: int|
            0 <= i < out_l.len() ==> no_char(#[trigger] out_l[i], '\n') && (out_l[i].len() > 0
                ==> out_l[i].last() != '\r')) by {
            if !(spec_is_filtergraph_line(l)) {
                match spec_line_property_value(l) {
                    Some(u) => {
                        if spec_is_resource_line(l) && m.contains_key(u) {
                            lemma_inserted_line_clean(m[u], append);
                            assert(out_l[0] == spec_inserted_line(m[u], append));
                            assert(out_l[1] == l);
                        } else {
                            assert(out_l[0] == l);
                        }
                    },
                    None => {
                        assert(out_l[0] == l);
                    },
                }
            }
        }
        assert forall|i: int|
            0 <= i < out.len() implies no_char(#[trigger] out[i], '\n') && (out[i].len() > 0
            ==> out[i].last() != '\r') by {
            if i < out_dl.len() {
                assert(out[i] == out_dl[i]);
            } else {
                assert(out[i] == out_l[i - out_dl.len()]);
            }
        }
    }
}

/// Rewriting distributes over concatenation of line lists.
proof fn lemma_rewrite_lines_concat(
    a: Seq<Seq<char>>,
    b: Seq<Seq<char>>,
    m: Map<Seq<char>, Seq<char>>,
    delete_existing: bool,
    append: Option<Seq<char>>,
)
    ensures
        spec_rewrite_lines(a + b, m, delete_existing, append) == spec_rewrite_lines(
            a,
            m,
            delete_existing,
            append,
        ) + spec_rewrite_lines(b, m, delete_existing, append),
    decreases b.len(),
{
    if b.len() == 0 {
        assert(a + b =~= a);
        assert(spec_rewrite_lines(a, m, delete_existing, append) + Seq::<Seq<char>>::empty()
            =~= spec_rewrite_lines(a, m, delete_existing, append));
    } else {
        assert((a + b).drop_last() =~= a + b.drop_last());
        assert((a + b).last() == b.last());
        lemma_rewrite_lines_concat(a, b.drop_last(), m, delete_existing, append);
        assert((spec_rewrite_lines(a, m, delete_existing, append) + spec_rewrite_lines(
            b.drop_last(),
            m,
            delete_existing,
            append,
        )) + spec_rewrite_line(b.last(), m, delete_existing, append) =~= spec_rewrite_lines(
            a,
            m,
            delete_existing,
            append,
        ) + (spec_rewrite_lines(b.drop_last(), m, delete_existing, append) + spec_rewrite_line(
            b.last(),
            m,
            delete_existing,
            append,
        )));
    }
}

/// A second deletion pass over the rewriter's own output lines changes
/// nothing: inserted lines are deleted and re-inserted at the very same
/// resource lines.
proof fn lemma_second_pass(
    ls: Seq<Seq<char>>,
    m: Map<Seq<char>, Seq<char>>,
    append: Option<Seq<char>>,
)
    ensures
        spec_rewrite_lines(spec_rewrite_lines(ls, m, true, append), m, true, append)
            == spec_rewrite_lines(ls, m, true, append),
    decreases ls.len(),
{
    if ls.len() > 0 {
        let dl = ls.drop_last();
        let l = ls.last();
        lemma_second_pass(dl, m, append);
        let out_dl = spec_rewrite_lines(dl, m, true, append);
        let out_l = spec_rewrite_line(l, m, true, append);
        lemma_rewrite_lines_concat(out_dl, out_l, m, true, append);
        assert(spec_rewrite_lines(out_l, m, true, append) == out_l) by {
            assert(spec_rewrite_lines(Seq::<Seq<char>>::empty(), m, true, append)
                == Seq::<Seq<char>>::empty());
            if spec_is_filtergraph_line(l) {
                assert(out_l =~= Seq::<Seq<char>>::empty());
            } else {
                match spec_line_property_value(l) {
                    Some(u) => {
                        if spec_is_resource_line(l) && m.contains_key(u) {
                            let ins = spec_inserted_line(m[u], append);
                            lemma_inserted_line_is_filtergraph(m[u], append);
                            assert(out_l == seq![ins, l]);
                            assert(out_l.drop_last() =~= seq![ins]);
                            assert(out_l.last() == l);
                            assert(seq![ins].drop_last() =~= Seq::<Seq<char>>::empty());
                            assert(seq![ins].last() == ins);
                            assert(spec_rewrite_line(ins, m, true, append)
                                =~= Seq::<Seq<char>>::empty());
                            assert(spec_rewrite_lines(seq![ins], m, true, append)
                                =~= Seq::<Seq<char>>::empty());
                            assert(spec_rewrite_line(l, m, true, append) == out_l);
                            assert(Seq::<Seq<char>>::empty() + out_l =~= out_l);
                        } else {
                            assert(out_l == seq![l]);
                            assert(out_l.drop_last() =~= Seq::<Seq<char>>::empty());
                            assert(out_l.last() == l);
                            assert(Seq::<Seq<char>>::empty() + seq![l] =~= seq![l]);
                        }
                    },
                    None => {
                        assert(out_l == seq![l]);
                        assert(out_l.drop_last() =~= Seq::<Seq<char>>::empty());
                        assert(out_l.last() == l);
                        assert(Seq::<Seq<char>>::empty() + seq![l] =~= seq![l]);
                    },
                }
            }
        }
    }
}

/// Round-trip idempotence: rewriting the rewriter's own output again,
/// with deletion on and the same mapping and appended fragment, changes
/// nothing. (This needs a document whose lines do not end in stray
/// carriage returns, mapped filter strings and appended fragment free of
/// newlines, and an output that does not end in an empty line.)
pub proof fn lemma_rewrite_idempotent(
    text: Seq<char>,
    m: Map<Seq<char>, Seq<char>>,
    append: Option<Seq<char>>,
)
    requires
        forall|u: Seq<char>| #[trigger] m.contains_key(u) ==> no_char(m[u], '\n'),
        (match append {
            Some(a) => no_char(a, '\n'),
            None => true,
        }),
        forall|i: int|
            0 <= i < spec_lines(text).len() && (#[trigger] spec_lines(text)[i]).len() > 0
                ==> spec_lines(text)[i].last() != '\r',
        spec_rewrite_lines(spec_lines(text), m, true, append).len() > 0 ==> spec_rewrite_lines(
            spec_lines(text),
            m,
            true,
            append,
        ).last().len() > 0,
    ensures
        spec_rewrite(spec_rewrite(text, m, true, append), m, true, append) == spec_rewrite(
            text,
            m,
            true,
            append,
        ),
{
    let ls = spec_lines(text);
    assert(no_char(Seq::<char>::empty(), '\n'));
    lemma_lines_rec_no_newline(text, Seq::empty());
    assert(forall|i: int| 0 <= i < ls.len() ==> no_char(#[trigger] ls[i], '\n'));
    let ols = spec_rewrite_lines(ls, m, true, append);
    lemma_rewrite_lines_clean(ls, m, append);
    lemma_lines_of_join(ols);
    lemma_second_pass(ls, m, append);
}

} // verus!
