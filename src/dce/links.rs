//! The catalogue of DCE download links: for each year and instrument name,
//! the path of its spreadsheet on the exchange's site.
use crate::numeric::{parse_u32, u32_of_text};
use crate::text::{contains, contains_text, ends_with, ends_with_text};
use indexmap::IndexMap;
use vstd::prelude::*;
use vstd::arithmetic::div_mod::lemma_fundamental_div_mod;
use vstd::utf8::{decode_utf8, encode_utf8, encode_utf8_decode_utf8, encode_utf8_valid_utf8, valid_utf8};

verus! {

#[verifier::external_type_specification]
#[verifier::external_body]
#[verifier::reject_recursive_types(K)]
#[verifier::reject_recursive_types(V)]
#[verifier::reject_recursive_types(S)]
pub struct ExIndexMap<K, V, S>(IndexMap<K, V, S>);

/// A catalogue key: a year and an instrument name.
pub type KeyView = (u16, Seq<char>);

/// A catalogue entry: a key and its link.
pub type Entry = (KeyView, Seq<char>);

/// The pairs that the map holds, in its order.
pub uninterp spec fn link_entries(m: IndexMap<(u16, String), String>) -> Seq<Entry>;

/// No two pairs have the same key.
pub open spec fn keys_unique(es: Seq<Entry>) -> bool {
    forall|i: int, j: int| 0 <= i < j < es.len() ==> es[i].0 != es[j].0
}

/// Where the pair with key `k` stands, if there is one.
pub open spec fn index_of_key(es: Seq<Entry>, k: KeyView) -> Option<int>
    decreases es.len(),
{
    if es.len() == 0 {
        None
    } else if es.last().0 == k {
        Some(es.len() - 1)
    } else {
        index_of_key(es.drop_last(), k)
    }
}

/// The pairs after inserting `(k, v)`: an existing key keeps its place and
/// takes the new value, a new key goes last.
pub open spec fn inserted(es: Seq<Entry>, k: KeyView, v: Seq<char>) -> Seq<Entry> {
    match index_of_key(es, k) {
        Some(i) => es.update(i, (k, v)),
        None => es.push((k, v)),
    }
}

/// Byte strings in lexicographic order.
pub open spec fn bytes_lt(a: Seq<u8>, b: Seq<u8>) -> bool
    decreases a.len(),
{
    if a.len() == 0 {
        b.len() > 0
    } else if b.len() == 0 {
        false
    } else if a[0] != b[0] {
        a[0] < b[0]
    } else {
        bytes_lt(a.drop_first(), b.drop_first())
    }
}

/// The order of `(u16, String)` keys: by year, then by the UTF-8 bytes of the
/// name.
pub open spec fn key_lt(a: KeyView, b: KeyView) -> bool {
    a.0 < b.0 || (a.0 == b.0 && bytes_lt(encode_utf8(a.1), encode_utf8(b.1)))
}

/// The keys are in strictly increasing order.
pub open spec fn strictly_sorted(es: Seq<Entry>) -> bool {
    forall|i: int, j: int| 0 <= i < j < es.len() ==> key_lt(es[i].0, es[j].0)
}

/// Relies on `IndexMap::new`: an empty map.
#[verifier::external_body]
fn links_new() -> (r: IndexMap<(u16, String), String>)
    ensures
        link_entries(r) == Seq::<Entry>::empty(),
{
    IndexMap::new()
}

/// Relies on `IndexMap::insert`: where an equal key is present it keeps its
/// place and its value is replaced; otherwise the pair goes last. A map never
/// holds two equal keys.
#[verifier::external_body]
fn links_insert(m: &mut IndexMap<(u16, String), String>, year: u16, name: String, link: String)
    ensures
        link_entries(*final(m)) == inserted(link_entries(*old(m)), (year, name@), link@),
        keys_unique(link_entries(*final(m))),
{
    m.insert((year, name), link);
}

/// Relies on `IndexMap::sort_keys`: the pairs are permuted so that the keys
/// ascend in their `Ord` order (the year, then the name's bytes); a map never
/// holds two equal keys.
#[verifier::external_body]
fn links_sort_keys(m: &mut IndexMap<(u16, String), String>)
    ensures
        link_entries(*final(m)).to_multiset() == link_entries(*old(m)).to_multiset(),
        link_entries(*final(m)).len() == link_entries(*old(m)).len(),
        forall|i: int, j: int|
            0 <= i < j < link_entries(*final(m)).len() ==> !key_lt(
                link_entries(*final(m))[j].0,
                link_entries(*final(m))[i].0,
            ),
        keys_unique(link_entries(*final(m))),
{
    m.sort_keys();
}

/// Relies on `IndexMap::get`: the value of the key equal to `(year, name)`.
#[verifier::external_body]
fn links_get(m: &IndexMap<(u16, String), String>, year: u16, name: &str) -> (r: Option<String>)
    ensures
        match index_of_key(link_entries(*m), (year, name@)) {
            Some(i) => r is Some && r.unwrap()@ == link_entries(*m)[i].1,
            None => r is None,
        },
{
    m.get(&(year, name.to_string())).cloned()
}

/// Relies on `IndexMap::iter`: the pairs in the map's order.
#[verifier::external_body]
fn links_pairs(m: &IndexMap<(u16, String), String>) -> (r: Vec<(u16, String, String)>)
    ensures
        r@.map_values(|e: (u16, String, String)| ((e.0, e.1@), e.2@)) == link_entries(*m),
{
    m.iter().map(|((y, n), l)| (*y, n.clone(), l.clone())).collect()
}

/// Relies on `IndexMap::len`: the number of pairs.
#[verifier::external_body]
fn links_len(m: &IndexMap<(u16, String), String>) -> (r: usize)
    ensures
        r == link_entries(*m).len(),
{
    m.len()
}

/// A key of the catalogue.
#[derive(Clone, Debug, PartialEq, Eq, Hash, PartialOrd, Ord)]
pub struct Key {
    pub year: u16,
    pub name: String,
}

pub open spec fn key_entry(e: (Key, String)) -> Entry {
    ((e.0.year, e.0.name@), e.1@)
}

/// The catalogue: pairs of (year, name) and link, in strictly increasing order
/// of their keys.
#[derive(Debug)]
pub struct DownloadLinks {
    map: IndexMap<(u16, String), String>,
}

impl View for DownloadLinks {
    type V = Seq<Entry>;

    closed spec fn view(&self) -> Seq<Entry> {
        link_entries(self.map)
    }
}

impl DownloadLinks {
    pub open spec fn wf(&self) -> bool {
        strictly_sorted(self@) && keys_unique(self@)
    }

    /// The number of links.
    pub fn len(&self) -> (r: usize)
        ensures
            r == self@.len(),
    {
        links_len(&self.map)
    }

    /// The pairs in order.
    pub fn iter(&self) -> (r: Vec<(Key, String)>)
        ensures
            r@.map_values(|e: (Key, String)| key_entry(e)) == self@,
    {
        let pairs = links_pairs(&self.map);
        let mut out: Vec<(Key, String)> = Vec::new();
        let mut i: usize = 0;
        while i < pairs.len()
            invariant
                i <= pairs.len(),
                pairs@.map_values(|e: (u16, String, String)| ((e.0, e.1@), e.2@)) == self@,
                out@.map_values(|e: (Key, String)| key_entry(e)) =~= self@.subrange(
                    0,
                    i as int,
                ),
            decreases pairs.len() - i,
        {
            let (y, n, l) = &pairs[i];
            assert(self@[i as int] == ((pairs@[i as int].0, pairs@[i as int].1@), pairs@[i as int].2@));
            let e = (Key { year: *y, name: n.clone() }, l.clone());
            assert(key_entry(e) == self@[i as int]);
            let ghost before = out@;
            out.push(e);
            assert(out@.map_values(|e: (Key, String)| key_entry(e)) =~= before.map_values(
                |e: (Key, String)| key_entry(e),
            ).push(key_entry(e)));
            assert(self@.subrange(0, i + 1) =~= self@.subrange(0, i as int).push(self@[i as int]));
            i = i + 1;
        }
        out
    }

    /// The link of `name` in `year`.
    pub fn get(&self, year: u16, name: &str) -> (r: Option<String>)
        ensures
            match index_of_key(self@, (year, name@)) {
                Some(i) => r is Some && r.unwrap()@ == self@[i].1,
                None => r is None,
            },
    {
        links_get(&self.map, year, name)
    }
}

pub proof fn lemma_bytes_lt_total(a: Seq<u8>, b: Seq<u8>)
    requires
        a != b,
    ensures
        bytes_lt(a, b) || bytes_lt(b, a),
    decreases a.len(),
{
    if a.len() > 0 && b.len() > 0 && a[0] == b[0] {
        if a.drop_first() == b.drop_first() {
            assert(a =~= seq![a[0]] + a.drop_first());
            assert(b =~= seq![b[0]] + b.drop_first());
        }
        lemma_bytes_lt_total(a.drop_first(), b.drop_first());
    } else if a.len() == 0 && b.len() == 0 {
        assert(a =~= b);
    }
}

/// Two different keys are ordered one way or the other.
pub proof fn lemma_key_lt_total(a: KeyView, b: KeyView)
    requires
        a != b,
    ensures
        key_lt(a, b) || key_lt(b, a),
{
    if a.0 == b.0 {
        vstd::utf8::encode_utf8_decode_utf8(a.1);
        vstd::utf8::encode_utf8_decode_utf8(b.1);
        lemma_bytes_lt_total(encode_utf8(a.1), encode_utf8(b.1));
    }
}

/// The pairs of one year's list inserted after `es`, in list order.
pub open spec fn insert_items(es: Seq<Entry>, year: u16, items: Seq<(Seq<char>, Seq<char>)>) -> Seq<Entry>
    decreases items.len(),
{
    if items.len() == 0 {
        es
    } else {
        let before = insert_items(es, year, items.drop_last());
        inserted(before, (year, items.last().0), items.last().1)
    }
}

/// The pairs of the page's lists, year by year, in page order.
pub open spec fn insert_lists(years: Seq<u16>, lists: Seq<Seq<(Seq<char>, Seq<char>)>>) -> Seq<Entry>
    decreases lists.len(),
{
    if lists.len() == 0 {
        Seq::empty()
    } else {
        insert_items(
            insert_lists(years.drop_last(), lists.drop_last()),
            years[lists.len() - 1],
            lists.last(),
        )
    }
}

/// Why the selector page does not give a catalogue.
#[derive(Clone, Copy, Debug, PartialEq, Eq, Structural)]
pub enum LinkError {
    /// The page does not parse, or a selector finds nothing to search.
    Page,
    /// The numbers of year options and of instrument lists differ.
    CountMismatch { options: usize, lists: usize },
    /// The year option at this index has no value.
    MissingYear { index: usize },
    /// The value of the year option at this index is no `u16`.
    BadYear { index: usize },
    /// This label of this list has no radio input with a link.
    MissingLink { list: usize, item: usize },
}

/// The year of an option's value.
pub open spec fn year_of(v: Option<Seq<char>>) -> Option<u16> {
    match v {
        Some(s) => match u32_of_text(s) {
            Some(u) => if u <= u16::MAX {
                Some(u as u16)
            } else {
                None
            },
            None => None,
        },
        None => None,
    }
}

/// The page gives a catalogue: as many options as lists, a year in every
/// option, a link in every label.
pub open spec fn page_ok(
    years: Seq<Option<Seq<char>>>,
    lists: Seq<Seq<(Seq<char>, Option<Seq<char>>)>>,
) -> bool {
    &&& years.len() == lists.len()
    &&& forall|i: int| 0 <= i < years.len() ==> #[trigger] year_of(years[i]) is Some
    &&& forall|i: int, j: int|
        0 <= i < lists.len() && 0 <= j < lists[i].len() ==> (#[trigger] lists[i][j]).1 is Some
}

/// The years and lists of a page that gives a catalogue.
pub open spec fn page_years(years: Seq<Option<Seq<char>>>) -> Seq<u16> {
    years.map_values(|v: Option<Seq<char>>| year_of(v).unwrap())
}

pub open spec fn page_lists(lists: Seq<Seq<(Seq<char>, Option<Seq<char>>)>>) -> Seq<Seq<(Seq<char>, Seq<char>)>> {
    lists.map_values(
        |l: Seq<(Seq<char>, Option<Seq<char>>)>| l.map_values(|it: (Seq<char>, Option<Seq<char>>)| (it.0, it.1.unwrap())),
    )
}

pub open spec fn page_entries(
    years: Seq<Option<Seq<char>>>,
    lists: Seq<Seq<(Seq<char>, Option<Seq<char>>)>>,
) -> Seq<Entry> {
    insert_lists(page_years(years), page_lists(lists))
}

/// The first label from `j` on in a list that has no link.
pub open spec fn first_missing_link(l: Seq<(Seq<char>, Option<Seq<char>>)>, j: int) -> Option<int>
    decreases l.len() - j,
{
    if j < 0 || j >= l.len() {
        None
    } else if l[j].1 is None {
        Some(j)
    } else {
        first_missing_link(l, j + 1)
    }
}

/// The first fault of the page from option `i` on, in page order: an option
/// without a value, a value that is no year, or a label without a link.
pub open spec fn first_fault(
    years: Seq<Option<Seq<char>>>,
    lists: Seq<Seq<(Seq<char>, Option<Seq<char>>)>>,
    i: int,
) -> Option<LinkError>
    decreases lists.len() - i,
{
    if i < 0 || i >= lists.len() || i >= years.len() {
        None
    } else if years[i] is None {
        Some(LinkError::MissingYear { index: i as usize })
    } else if year_of(years[i]) is None {
        Some(LinkError::BadYear { index: i as usize })
    } else {
        match first_missing_link(lists[i], 0) {
            Some(j) => Some(LinkError::MissingLink { list: i as usize, item: j as usize }),
            None => first_fault(years, lists, i + 1),
        }
    }
}

/// What building the catalogue from these options and lists gives: the count
/// mismatch where their numbers differ, else the first fault, else the
/// catalogue of the page's pairs in key order.
pub open spec fn build_outcome(
    years: Seq<Option<Seq<char>>>,
    lists: Seq<Seq<(Seq<char>, Option<Seq<char>>)>>,
    r: Result<DownloadLinks, LinkError>,
) -> bool {
    if years.len() != lists.len() {
        r == Err::<DownloadLinks, LinkError>(
            LinkError::CountMismatch { options: years.len() as usize, lists: lists.len() as usize },
        )
    } else {
        match first_fault(years, lists, 0) {
            Some(e) => r == Err::<DownloadLinks, LinkError>(e),
            None => r matches Ok(links) && page_ok(years, lists) && links.wf()
                && links@.to_multiset() == page_entries(years, lists).to_multiset(),
        }
    }
}

fn parse_year(v: &Option<String>) -> (r: Option<u16>)
    ensures
        r == year_of(v.deep_view()),
{
    match v {
        Some(s) => match parse_u32(s.as_str()) {
            Some(u) => if u <= u16::MAX as u32 {
                Some(u as u16)
            } else {
                None
            },
            None => None,
        },
        None => None,
    }
}

/// Builds the catalogue from what the selector page holds: the value of
/// each year option, and for each option's list the labels with the link of
/// their radio input. The pairs are inserted in page order (a repeated key
/// keeps its first place and takes the later link) and then sorted by key.
pub fn build_download_links(
    years: &Vec<Option<String>>,
    lists: &Vec<Vec<(String, Option<String>)>>,
) -> (r: Result<DownloadLinks, LinkError>)
    ensures
        build_outcome(years.deep_view(), lists.deep_view(), r),
{
    let ghost yv = years.deep_view();
    let ghost lv = lists.deep_view();
    if years.len() != lists.len() {
        return Err(LinkError::CountMismatch { options: years.len(), lists: lists.len() });
    }
    let mut map = links_new();
    let mut ys: Vec<u16> = Vec::new();
    let mut i: usize = 0;
    while i < lists.len()
        invariant
            i <= lists.len() == years.len(),
            yv == years.deep_view(),
            lv == lists.deep_view(),
            ys.len() == i,
            forall|k: int| 0 <= k < i ==> #[trigger] year_of(yv[k]) == Some(ys@[k]),
            forall|k: int, j: int|
                0 <= k < i && 0 <= j < lv[k].len() ==> (#[trigger] lv[k][j]).1 is Some,
            link_entries(map) == insert_lists(ys@, page_lists(lv.subrange(0, i as int))),
            first_fault(yv, lv, 0) == first_fault(yv, lv, i as int),
        decreases lists.len() - i,
    {
        let year = match parse_year(&years[i]) {
            Some(y) => y,
            None => {
                assert(year_of(yv[i as int]) is None);
                assert(yv[i as int] == years@[i as int].deep_view());
                return if years[i].is_none() {
                    Err(LinkError::MissingYear { index: i })
                } else {
                    Err(LinkError::BadYear { index: i })
                };
            },
        };
        let items = &lists[i];
        assert(yv[i as int] == years@[i as int].deep_view());
        let ghost base = link_entries(map);
        let ghost ys_old = ys@;
        assert(base == insert_lists(ys_old, page_lists(lv.subrange(0, i as int))));
        let ghost itemsv = page_lists(lv.subrange(0, i + 1))[i as int];
        assert(lv[i as int] == items.deep_view());
        let mut j: usize = 0;
        while j < items.len()
            invariant
                j <= items.len(),
                items.deep_view() == lv[i as int],
                yv == years.deep_view(),
                lv == lists.deep_view(),
                i < lv.len(),
                forall|t: int| 0 <= t < j ==> (#[trigger] lv[i as int][t]).1 is Some,
                itemsv == lv[i as int].map_values(|it: (Seq<char>, Option<Seq<char>>)| (it.0, it.1.unwrap())),
                link_entries(map) == insert_items(base, year, itemsv.subrange(0, j as int)),
                first_missing_link(lv[i as int], 0) == first_missing_link(lv[i as int], j as int),
                first_fault(yv, lv, 0) == first_fault(yv, lv, i as int),
                year_of(yv[i as int]) == Some(year),
                yv[i as int] is Some,
                years.len() == lists.len(),
                i < lists.len(),
            decreases items.len() - j,
        {
            let (name, rel) = &items[j];
            assert(lv[i as int][j as int] == (name@, rel.deep_view()));
            match rel {
                Some(link) => {
                    let ghost sub = itemsv.subrange(0, j + 1);
                    assert(sub.drop_last() =~= itemsv.subrange(0, j as int));
                    links_insert(&mut map, year, name.clone(), link.clone());
                },
                None => {
                    assert(lv[i as int][j as int].1 is None);
                    assert(first_missing_link(lv[i as int], j as int) == Some(j as int));
                    assert(i < yv.len());
                    return Err(LinkError::MissingLink { list: i, item: j });
                },
            }
            j = j + 1;
        }
        assert(itemsv.subrange(0, items.len() as int) =~= itemsv);
        assert(first_missing_link(lv[i as int], items.len() as int) is None);
        assert(first_fault(yv, lv, i as int) == first_fault(yv, lv, i + 1));
        let ghost lists_next = page_lists(lv.subrange(0, i + 1));
        assert(lists_next.drop_last() =~= page_lists(lv.subrange(0, i as int)));
        ys.push(year);
        assert(ys@.drop_last() =~= ys_old);
        assert(lists_next.last() == itemsv);
        assert(link_entries(map) == insert_lists(ys@, lists_next));
        i = i + 1;
    }
    assert(lv.subrange(0, lists.len() as int) =~= lv);
    assert(ys@ =~= page_years(yv));
    assert(page_ok(yv, lv));
    assert(first_fault(yv, lv, lists.len() as int) is None);
    assert(link_entries(map) == page_entries(yv, lv));
    links_sort_keys(&mut map);
    let ghost es = link_entries(map);
    assert forall|a: int, b: int| 0 <= a < b < es.len() implies key_lt(es[a].0, es[b].0) by {
        lemma_key_lt_total(es[a].0, es[b].0);
    }
    Ok(DownloadLinks { map })
}

/// For each element of `html` that `selector` matches, in document order, the
/// value of its attribute `attr`; `None` where the page or the selector does
/// not parse.
pub uninterp spec fn attribute_values_of(html: Seq<char>, selector: Seq<char>, attr: Seq<char>) -> Option<Seq<Option<Seq<char>>>>;

/// Relies on `tl::parse`, `VDom::query_selector`, `NodeHandle::get`,
/// `Node::as_tag` and `Attributes::get`: one item per element that `selector`
/// matches, in document order, holding the value of `attr`, or `None` where
/// the node is no tag or the attribute is absent or has no value. The result
/// depends on the arguments alone.
#[verifier::external_body]
fn select_attribute<'a>(html: &'a str, selector: &str, attr: &'a str) -> (r: Option<Vec<Option<String>>>)
    ensures
        r.deep_view() == attribute_values_of(html@, selector@, attr@),
{
    let dom = tl::parse(html, tl::ParserOptions::default()).ok()?;
    let p = dom.parser();
    let mut out = Vec::new();
    for h in dom.query_selector(selector)? {
        let value = h.get(p).and_then(|n| n.as_tag()?.attributes().get(attr)?);
        out.push(value.map(|b| b.as_utf8_str().into_owned()));
    }
    Some(out)
}

/// For each element that `lists` matches, the inner text of each element
/// inside it that `labels` matches.
pub uninterp spec fn label_texts_of(html: Seq<char>, lists: Seq<char>, labels: Seq<char>) -> Option<Seq<Seq<Seq<char>>>>;

/// Relies on `tl::parse`, `VDom::query_selector`, `HTMLTag::query_selector`
/// and `Node::inner_text`: for each element that `lists` matches, in document
/// order, the inner texts of the elements inside it that `labels` matches;
/// `None` where the page or a selector does not parse or a list is no tag.
#[verifier::external_body]
fn select_label_texts(html: &str, lists: &str, labels: &str) -> (r: Option<Vec<Vec<String>>>)
    ensures
        r.deep_view() == label_texts_of(html@, lists@, labels@),
{
    let dom = tl::parse(html, tl::ParserOptions::default()).ok()?;
    let p = dom.parser();
    let mut out = Vec::new();
    for list in dom.query_selector(lists)? {
        let mut items = Vec::new();
        for label in list.get(p)?.as_tag()?.query_selector(p, labels)? {
            items.push(label.get(p)?.inner_text(p).into_owned());
        }
        out.push(items);
    }
    Some(out)
}

/// For each element that `lists` matches and each element inside it that
/// `labels` matches, the value of `attr` of the first element inside the
/// label that `inputs` matches.
pub uninterp spec fn label_links_of(
    html: Seq<char>,
    lists: Seq<char>,
    labels: Seq<char>,
    inputs: Seq<char>,
    attr: Seq<char>,
) -> Option<Seq<Seq<Option<Seq<char>>>>>;

/// Relies on `tl::parse`, `VDom::query_selector`, `HTMLTag::query_selector`
/// and `Attributes::get`: the same lists and labels as `select_label_texts`
/// finds, each label giving the value of `attr` of its first element that
/// `inputs` matches (`None` where there is none, or no such value).
#[verifier::external_body]
fn select_label_links<'a>(html: &'a str, lists: &str, labels: &str, inputs: &str, attr: &'a str) -> (r: Option<Vec<Vec<Option<String>>>>)
    ensures
        r.deep_view() == label_links_of(html@, lists@, labels@, inputs@, attr@),
{
    let dom = tl::parse(html, tl::ParserOptions::default()).ok()?;
    let p = dom.parser();
    let mut out = Vec::new();
    for list in dom.query_selector(lists)? {
        let mut items = Vec::new();
        for label in list.get(p)?.as_tag()?.query_selector(p, labels)? {
            let input = label.get(p)?.as_tag()?.query_selector(p, inputs)?.next();
            let link = input.and_then(|h| h.get(p)?.as_tag()?.attributes().get(attr)?);
            items.push(link.map(|b| b.as_utf8_str().into_owned()));
        }
        out.push(items);
    }
    Some(out)
}

/// The labels of the lists beside their links; the two must have one shape.
pub open spec fn same_shape(t: Seq<Seq<Seq<char>>>, l: Seq<Seq<Option<Seq<char>>>>) -> bool {
    t.len() == l.len() && forall|i: int| 0 <= i < t.len() ==> #[trigger] t[i].len() == l[i].len()
}

pub open spec fn zip_lists(t: Seq<Seq<Seq<char>>>, l: Seq<Seq<Option<Seq<char>>>>) -> Seq<Seq<(Seq<char>, Option<Seq<char>>)>> {
    Seq::new(t.len(), |i: int| Seq::new(t[i].len(), |j: int| (t[i][j], l[i][j])))
}

fn zip_labels(t: Vec<Vec<String>>, l: Vec<Vec<Option<String>>>) -> (r: Option<Vec<Vec<(String, Option<String>)>>>)
    ensures
        r is Some <==> same_shape(t.deep_view(), l.deep_view()),
        r is Some ==> r.unwrap().deep_view() == zip_lists(t.deep_view(), l.deep_view()),
{
    if t.len() != l.len() {
        return None;
    }
    let ghost tv = t.deep_view();
    let ghost lv = l.deep_view();
    let mut out: Vec<Vec<(String, Option<String>)>> = Vec::new();
    let mut i: usize = 0;
    while i < t.len()
        invariant
            i <= t.len() == l.len(),
            tv == t.deep_view(),
            lv == l.deep_view(),
            forall|k: int| 0 <= k < i ==> #[trigger] tv[k].len() == lv[k].len(),
            out.len() == i,
            forall|k: int| 0 <= k < i ==> #[trigger] out@[k].deep_view() == zip_lists(tv, lv)[k],
        decreases t.len() - i,
    {
        if t[i].len() != l[i].len() {
            assert(tv[i as int].len() != lv[i as int].len());
            return None;
        }
        let mut row: Vec<(String, Option<String>)> = Vec::new();
        let mut j: usize = 0;
        while j < t[i].len()
            invariant
                i < t.len() == l.len(),
                tv == t.deep_view(),
                lv == l.deep_view(),
                t[i as int].len() == l[i as int].len(),
                j <= t[i as int].len(),
                row.len() == j,
                forall|k: int| 0 <= k < j ==> #[trigger] row@[k].deep_view() == (tv[i as int][k], lv[i as int][k]),
            decreases t[i as int].len() - j,
        {
            let a = t[i][j].clone();
            let b = match &l[i][j] {
                Some(x) => Some(x.clone()),
                None => None,
            };
            assert(tv[i as int][j as int] == t@[i as int]@[j as int]@);
            assert(lv[i as int][j as int] == l@[i as int]@[j as int].deep_view());
            row.push((a, b));
            j = j + 1;
        }
        assert(row.deep_view() =~= zip_lists(tv, lv)[i as int]);
        out.push(row);
        i = i + 1;
    }
    assert(out.deep_view() =~= zip_lists(tv, lv));
    Some(out)
}

/// The selector page as the catalogue reads it: the year options, and for
/// each year the labels of its list beside the links of their radio inputs.
pub open spec fn page_of(html: Seq<char>) -> Option<(Seq<Option<Seq<char>>>, Seq<Seq<(Seq<char>, Option<Seq<char>>)>>)> {
    let years = attribute_values_of(html, OPTION@, OPTION_VALUE@);
    let texts = label_texts_of(html, LIST@, LABEL@);
    let links = label_links_of(html, LIST@, LABEL@, INPUT@, REL@);
    if years is Some && texts is Some && links is Some && same_shape(texts.unwrap(), links.unwrap()) {
        Some((years.unwrap(), zip_lists(texts.unwrap(), links.unwrap())))
    } else {
        None
    }
}

pub const LIST: &'static str = "ul.cate_sel.clearfix[opentype=\"page\"]";

pub const LABEL: &'static str = "label";

pub const INPUT: &'static str = "input[type=\"radio\"][name=\"hisItem\"]";

pub const REL: &'static str = "rel";

pub const OPTION: &'static str = "option";

pub const OPTION_VALUE: &'static str = "value";

/// Builds the catalogue from the exchange's selector page (see
/// `build_download_links`).
pub fn parse_download_links(html: &str) -> (r: Result<DownloadLinks, LinkError>)
    ensures
        page_of(html@) is None ==> r == Err::<DownloadLinks, LinkError>(LinkError::Page),
        page_of(html@) matches Some((years, lists)) ==> build_outcome(years, lists, r),
{
    let years = match select_attribute(html, OPTION, OPTION_VALUE) {
        Some(y) => y,
        None => return Err(LinkError::Page),
    };
    let texts = match select_label_texts(html, LIST, LABEL) {
        Some(t) => t,
        None => return Err(LinkError::Page),
    };
    let links = match select_label_links(html, LIST, LABEL, INPUT, REL) {
        Some(l) => l,
        None => return Err(LinkError::Page),
    };
    let lists = match zip_labels(texts, links) {
        Some(l) => l,
        None => return Err(LinkError::Page),
    };
    build_download_links(&years, &lists)
}

// The catalogue's binary form: the number of pairs, then each pair as its
// year and the two strings; a string is its UTF-8 length and bytes. Integers
// are variable-length: below 251 one byte, else the marker 251, 252 or 253
// and 2, 4 or 8 bytes, little-endian.

pub open spec fn pow256(k: nat) -> nat
    decreases k,
{
    if k == 0 {
        1
    } else {
        256 * pow256((k - 1) as nat)
    }
}

/// The `k` low bytes of `n`, least significant first.
pub open spec fn le_bytes(n: nat, k: nat) -> Seq<u8>
    decreases k,
{
    if k == 0 {
        Seq::empty()
    } else {
        seq![(n % 256) as u8] + le_bytes(n / 256, (k - 1) as nat)
    }
}

pub open spec fn varint(n: nat) -> Seq<u8> {
    if n < 251 {
        seq![n as u8]
    } else if n < 0x1_0000 {
        seq![251u8] + le_bytes(n, 2)
    } else if n < 0x1_0000_0000 {
        seq![252u8] + le_bytes(n, 4)
    } else {
        seq![253u8] + le_bytes(n, 8)
    }
}

pub open spec fn encode_str(s: Seq<char>) -> Seq<u8> {
    varint(encode_utf8(s).len()) + encode_utf8(s)
}

pub open spec fn encode_entry(e: Entry) -> Seq<u8> {
    varint(e.0.0 as nat) + encode_str(e.0.1) + encode_str(e.1)
}

pub open spec fn encode_entries(es: Seq<Entry>) -> Seq<u8>
    decreases es.len(),
{
    if es.len() == 0 {
        Seq::empty()
    } else {
        encode_entry(es[0]) + encode_entries(es.drop_first())
    }
}

/// The binary form of a catalogue with these pairs.
pub open spec fn encode_catalogue(es: Seq<Entry>) -> Seq<u8> {
    varint(es.len()) + encode_entries(es)
}

/// The value of the `k` bytes at `pos`, least significant first.
pub open spec fn read_le(b: Seq<u8>, pos: int, k: nat) -> nat
    decreases k,
{
    if k == 0 {
        0
    } else {
        b[pos] as nat + 256 * read_le(b, pos + 1, (k - 1) as nat)
    }
}

/// Reads an integer at `pos`: its value and where it ends. Only the shortest
/// form of each value is accepted.
pub open spec fn parse_varint(b: Seq<u8>, pos: int) -> Option<(nat, int)> {
    if pos < 0 || pos >= b.len() {
        None
    } else {
        let t = b[pos];
        let (k, low): (nat, nat) = if t == 251 {
            (2, 251)
        } else if t == 252 {
            (4, 0x1_0000)
        } else {
            (8, 0x1_0000_0000)
        };
        if t < 251 {
            Some((t as nat, pos + 1))
        } else if t <= 253 && pos + 1 + k <= b.len() && read_le(b, pos + 1, k) >= low {
            Some((read_le(b, pos + 1, k), pos + 1 + k))
        } else {
            None
        }
    }
}

pub open spec fn parse_str(b: Seq<u8>, pos: int) -> Option<(Seq<char>, int)> {
    match parse_varint(b, pos) {
        Some((n, p)) => if p + n <= b.len() && valid_utf8(b.subrange(p, p + n)) {
            Some((decode_utf8(b.subrange(p, p + n)), p + n))
        } else {
            None
        },
        None => None,
    }
}

pub open spec fn parse_entry(b: Seq<u8>, pos: int) -> Option<(Entry, int)> {
    match parse_varint(b, pos) {
        Some((y, at_name)) => if y <= u16::MAX {
            match parse_str(b, at_name) {
                Some((name, at_link)) => match parse_str(b, at_link) {
                    Some((link, at_end)) => Some((((y as u16, name), link), at_end)),
                    None => None,
                },
                None => None,
            }
        } else {
            None
        },
        None => None,
    }
}

pub open spec fn parse_entries(b: Seq<u8>, pos: int, n: nat) -> Option<(Seq<Entry>, int)>
    decreases n,
{
    if n == 0 {
        Some((Seq::empty(), pos))
    } else {
        match parse_entry(b, pos) {
            Some((e, p)) => match parse_entries(b, p, (n - 1) as nat) {
                Some((rest, q)) => Some((seq![e] + rest, q)),
                None => None,
            },
            None => None,
        }
    }
}

/// The pairs that a binary form holds: all of it must be read, and the keys
/// must strictly ascend.
pub open spec fn decode_catalogue(b: Seq<u8>) -> Option<Seq<Entry>> {
    match parse_varint(b, 0) {
        Some((n, p)) => match parse_entries(b, p, n) {
            Some((es, q)) => if q == b.len() && strictly_sorted(es) {
                Some(es)
            } else {
                None
            },
            None => None,
        },
        None => None,
    }
}

proof fn lemma_sub(b: Seq<u8>, pos: int, w: Seq<u8>, x: int, y: int)
    requires
        0 <= pos,
        0 <= x <= y <= w.len(),
        pos + w.len() <= b.len(),
        b.subrange(pos, pos + w.len()) == w,
    ensures
        b.subrange(pos + x, pos + y) == w.subrange(x, y),
{
    assert forall|i: int| 0 <= i < y - x implies b.subrange(pos + x, pos + y)[i] == w.subrange(x, y)[i] by {
        assert(b.subrange(pos, pos + w.len())[x + i] == b[pos + x + i]);
    }
    assert(b.subrange(pos + x, pos + y) =~= w.subrange(x, y));
}

proof fn lemma_read_le(b: Seq<u8>, pos: int, n: nat, k: nat)
    requires
        0 <= pos,
        pos + k <= b.len(),
        b.subrange(pos, pos + k) == le_bytes(n, k),
        n < pow256(k),
    ensures
        read_le(b, pos, k) == n,
    decreases k,
{
    if k > 0 {
        let rest = le_bytes(n / 256, (k - 1) as nat);
        assert(b[pos] == le_bytes(n, k)[0]);
        assert(b.subrange(pos + 1, pos + k) =~= b.subrange(pos, pos + k).drop_first());
        assert(le_bytes(n, k).drop_first() =~= rest);
        lemma_fundamental_div_mod(n as int, 256);
        assert(n / 256 < pow256((k - 1) as nat)) by (nonlinear_arith)
            requires
                n < 256 * pow256((k - 1) as nat),
        ;
        lemma_read_le(b, pos + 1, n / 256, (k - 1) as nat);
    }
}

proof fn lemma_le_bytes_len(n: nat, k: nat)
    ensures
        le_bytes(n, k).len() == k,
    decreases k,
{
    if k > 0 {
        lemma_le_bytes_len(n / 256, (k - 1) as nat);
    }
}

/// Reading an integer where its form stands gives it back.
proof fn lemma_parse_varint(b: Seq<u8>, pos: int, n: nat)
    requires
        0 <= pos,
        pos + varint(n).len() <= b.len(),
        b.subrange(pos, pos + varint(n).len()) == varint(n),
        n < 0x1_0000_0000_0000_0000,
    ensures
        parse_varint(b, pos) == Some((n, pos + varint(n).len())),
{
    let v = varint(n);
    assert(b[pos] == v[0]);
    if n >= 251 {
        let k: nat = if n < 0x1_0000 { 2 } else if n < 0x1_0000_0000 { 4 } else { 8 };
        lemma_le_bytes_len(n, k);
        reveal_with_fuel(pow256, 9);
        assert(pow256(2) == 0x1_0000);
        assert(pow256(4) == 0x1_0000_0000);
        assert(pow256(8) == 0x1_0000_0000_0000_0000);
        assert(b.subrange(pos + 1, pos + 1 + k) =~= v.drop_first());
        assert(v.drop_first() =~= le_bytes(n, k));
        lemma_read_le(b, pos + 1, n, k);
    }
}

proof fn lemma_parse_str(b: Seq<u8>, pos: int, s: Seq<char>)
    requires
        0 <= pos,
        pos + encode_str(s).len() <= b.len(),
        b.subrange(pos, pos + encode_str(s).len()) == encode_str(s),
        encode_utf8(s).len() < 0x1_0000_0000_0000_0000,
    ensures
        parse_str(b, pos) == Some((s, pos + encode_str(s).len())),
{
    let e = encode_utf8(s);
    let v = varint(e.len());
    let w = encode_str(s);
    lemma_sub(b, pos, w, 0, v.len() as int);
    assert(w.subrange(0, v.len() as int) =~= v);
    lemma_parse_varint(b, pos, e.len());
    let p = pos + v.len();
    lemma_sub(b, pos, w, v.len() as int, w.len() as int);
    assert(w.subrange(v.len() as int, w.len() as int) =~= e);
    encode_utf8_valid_utf8(s);
    encode_utf8_decode_utf8(s);
}

/// Every string of the pairs has a UTF-8 form short enough to be counted.
pub open spec fn lengths_fit(es: Seq<Entry>) -> bool {
    &&& es.len() < 0x1_0000_0000_0000_0000
    &&& forall|i: int|
        0 <= i < es.len() ==> encode_utf8((#[trigger] es[i]).0.1).len() < 0x1_0000_0000_0000_0000
            && encode_utf8(es[i].1).len() < 0x1_0000_0000_0000_0000
}

proof fn lemma_parse_entries(b: Seq<u8>, pos: int, es: Seq<Entry>)
    requires
        0 <= pos,
        pos + encode_entries(es).len() <= b.len(),
        b.subrange(pos, pos + encode_entries(es).len()) == encode_entries(es),
        lengths_fit(es),
    ensures
        parse_entries(b, pos, es.len()) == Some((es, pos + encode_entries(es).len())),
    decreases es.len(),
{
    if es.len() > 0 {
        let e = es[0];
        let whole = encode_entries(es);
        let ev = varint(e.0.0 as nat);
        let en = encode_str(e.0.1);
        let el = encode_str(e.1);
        let rest = es.drop_first();
        assert(whole =~= ev + en + el + encode_entries(rest));
        let (a, c, d) = (ev.len() as int, en.len() as int, el.len() as int);
        lemma_sub(b, pos, whole, 0, a);
        assert(whole.subrange(0, a) =~= ev);
        lemma_parse_varint(b, pos, e.0.0 as nat);
        let at_name = pos + a;
        lemma_sub(b, pos, whole, a, a + c);
        assert(whole.subrange(a, a + c) =~= en);
        lemma_parse_str(b, at_name, e.0.1);
        let at_link = at_name + c;
        lemma_sub(b, pos, whole, a + c, a + c + d);
        assert(whole.subrange(a + c, a + c + d) =~= el);
        lemma_parse_str(b, at_link, e.1);
        let at_end = at_link + d;
        lemma_sub(b, pos, whole, a + c + d, whole.len() as int);
        assert(whole.subrange(a + c + d, whole.len() as int) =~= encode_entries(rest));
        assert(lengths_fit(rest)) by {
            assert forall|i: int| 0 <= i < rest.len() implies encode_utf8((#[trigger] rest[i]).0.1).len()
                < 0x1_0000_0000_0000_0000 && encode_utf8(rest[i].1).len() < 0x1_0000_0000_0000_0000 by {
                assert(rest[i] == es[i + 1]);
            }
        }
        lemma_parse_entries(b, at_end, rest);
        assert(seq![e] + rest =~= es);
    }
}

proof fn lemma_entries_round_trip(es: Seq<Entry>)
    requires
        strictly_sorted(es),
        lengths_fit(es),
    ensures
        decode_catalogue(encode_catalogue(es)) == Some(es),
{
    let b = encode_catalogue(es);
    let v = varint(es.len());
    assert(b.subrange(0, v.len() as int) =~= v);
    lemma_parse_varint(b, 0, es.len());
    assert(b.subrange(v.len() as int, v.len() + encode_entries(es).len() as int) =~= encode_entries(es));
    lemma_parse_entries(b, v.len() as int, es);
}

proof fn lemma_bytes_lt_transitive(a: Seq<u8>, b: Seq<u8>, c: Seq<u8>)
    requires
        bytes_lt(a, b),
        bytes_lt(b, c),
    ensures
        bytes_lt(a, c),
    decreases a.len(),
{
    if a.len() > 0 && b.len() > 0 && c.len() > 0 && a[0] == b[0] && b[0] == c[0] {
        lemma_bytes_lt_transitive(a.drop_first(), b.drop_first(), c.drop_first());
    }
}

proof fn lemma_key_lt_transitive(a: KeyView, b: KeyView, c: KeyView)
    requires
        key_lt(a, b),
        key_lt(b, c),
    ensures
        key_lt(a, c),
{
    if a.0 == b.0 && b.0 == c.0 {
        lemma_bytes_lt_transitive(encode_utf8(a.1), encode_utf8(b.1), encode_utf8(c.1));
    }
}

fn bytes_less(a: &[u8], b: &[u8]) -> (r: bool)
    ensures
        r == bytes_lt(a@, b@),
{
    let mut i: usize = 0;
    assert(a@.subrange(0, a.len() as int) =~= a@);
    assert(b@.subrange(0, b.len() as int) =~= b@);
    while i < a.len() && i < b.len() && a[i] == b[i]
        invariant
            i <= a.len(),
            i <= b.len(),
            bytes_lt(a@, b@) == bytes_lt(a@.subrange(i as int, a.len() as int), b@.subrange(i as int, b.len() as int)),
        decreases a.len() - i,
    {
        assert(a@.subrange(i as int, a.len() as int).drop_first() =~= a@.subrange(i + 1, a.len() as int));
        assert(b@.subrange(i as int, b.len() as int).drop_first() =~= b@.subrange(i + 1, b.len() as int));
        i = i + 1;
    }
    if i == a.len() {
        i < b.len()
    } else if i == b.len() {
        false
    } else {
        a[i] < b[i]
    }
}

fn key_less(y1: u16, n1: &str, y2: u16, n2: &str) -> (r: bool)
    ensures
        r == key_lt((y1, n1@), (y2, n2@)),
{
    y1 < y2 || (y1 == y2 && bytes_less(n1.as_bytes(), n2.as_bytes()))
}

/// Relies on `bincode::serde::encode_to_vec` with `config::standard()`: a map
/// is its length and then its pairs in order; a tuple its items; an integer
/// below 251 one byte, else the marker 251, 252 or 253 and 2, 4 or 8
/// little-endian bytes; a string its UTF-8 length and bytes, as bincode's
/// serialization format document describes. Writing to a `Vec` with the map's length known does not fail.
#[verifier::external_body]
fn bincode_encode(m: &IndexMap<(u16, String), String>) -> (r: Vec<u8>)
    ensures
        r@ == encode_catalogue(link_entries(*m)),
{
    bincode::serde::encode_to_vec(m, bincode::config::standard()).unwrap_or_default()
}

/// Relies on `bincode::serde::decode_from_slice` with `config::standard()`:
/// bytes in the form that `bincode_encode` writes decode to the map that
/// inserts those pairs in order, having read all the bytes. A map never holds
/// two equal keys.
#[verifier::external_body]
fn bincode_decode(b: &[u8]) -> (r: Option<(IndexMap<(u16, String), String>, usize)>)
    ensures
        decode_catalogue(b@) is Some ==> r is Some && link_entries(r.unwrap().0) == decode_catalogue(
            b@,
        ).unwrap() && r.unwrap().1 == b@.len(),
        r is Some ==> keys_unique(link_entries(r.unwrap().0)),
{
    bincode::serde::decode_from_slice(b, bincode::config::standard()).ok()
}

impl DownloadLinks {
    /// The catalogue's binary form, as bincode writes it.
    pub fn encode(&self) -> (r: Vec<u8>)
        ensures
            r@ == encode_catalogue(self@),
    {
        bincode_encode(&self.map)
    }

    /// Reads a catalogue from its binary form. All the bytes must be read and
    /// the keys must strictly ascend.
    pub fn decode(bytes: &[u8]) -> (r: Option<DownloadLinks>)
        ensures
            decode_catalogue(bytes@) matches Some(es) ==> r is Some && r.unwrap()@ == es,
            r is Some ==> r.unwrap().wf(),
    {
        let (map, used) = match bincode_decode(bytes) {
            Some(x) => x,
            None => return None,
        };
        if used != bytes.len() {
            return None;
        }
        let pairs = links_pairs(&map);
        let ghost es = link_entries(map);
        assert(decode_catalogue(bytes@) is Some ==> strictly_sorted(es));
        let mut i: usize = 1;
        while i < pairs.len()
            invariant
                1 <= i,
                decode_catalogue(bytes@) is Some ==> strictly_sorted(es),
                pairs@.map_values(|e: (u16, String, String)| ((e.0, e.1@), e.2@)) == es,
                forall|a: int, b: int| 0 <= a < b < i && b < es.len() ==> key_lt(es[a].0, es[b].0),
            decreases pairs.len() - i,
        {
            let (y0, n0, _) = &pairs[i - 1];
            let (y1, n1, _) = &pairs[i];
            assert(es[i - 1] == ((pairs@[i - 1].0, pairs@[i - 1].1@), pairs@[i - 1].2@));
            assert(es[i as int] == ((pairs@[i as int].0, pairs@[i as int].1@), pairs@[i as int].2@));
            if !key_less(*y0, n0.as_str(), *y1, n1.as_str()) {
                proof {
                    if decode_catalogue(bytes@) is Some {
                        assert(key_lt(es[i - 1].0, es[i as int].0));
                    }
                }
                return None;
            }
            proof {
                assert forall|a: int, b: int| 0 <= a < b < i + 1 && b < es.len() implies key_lt(es[a].0, es[b].0) by {
                    if b == i && a < i - 1 {
                        lemma_key_lt_transitive(es[a].0, es[i - 1].0, es[b].0);
                    }
                }
            }
            i = i + 1;
        }
        proof {
            assert forall|a: int, b: int| 0 <= a < b < es.len() implies key_lt(es[a].0, es[b].0) by {}
        }
        Some(DownloadLinks { map })
    }
}

/// Encoding a catalogue to its binary form and decoding that gives back a
/// catalogue with the same pairs in the same order.
pub proof fn lemma_links_round_trip(links: DownloadLinks)
    requires
        links.wf(),
        lengths_fit(links@),
    ensures
        decode_catalogue(encode_catalogue(links@)) == Some(links@),
{
    lemma_entries_round_trip(links@);
}

/// Whether the interactive picker offers a pair: everything where options are
/// asked for, else neither an option (`期权` in its name) nor an archive
/// (a `.zip` link).
pub open spec fn offered(e: Entry, with_options: bool) -> bool {
    with_options || !(contains(e.0.1, "期权"@) || ends_with(e.1, ".zip"@))
}

impl DownloadLinks {
    /// The keys that the interactive picker offers, in catalogue order.
    pub fn choices(&self, with_options: bool) -> (r: Vec<Key>)
        ensures
            r@.map_values(|k: Key| (k.year, k.name@)) == self@.filter(|e: Entry| offered(e, with_options)).map_values(
                |e: Entry| e.0,
            ),
    {
        let pairs = self.iter();
        let ghost es = self@;
        let ghost pred = |e: Entry| offered(e, with_options);
        let mut out: Vec<Key> = Vec::new();
        let mut i: usize = 0;
        assert(es.subrange(0, 0).filter(pred) =~= Seq::<Entry>::empty());
        while i < pairs.len()
            invariant
                i <= pairs.len(),
                es == self@,
                pred == (|e: Entry| offered(e, with_options)),
                pairs@.map_values(|e: (Key, String)| key_entry(e)) == es,
                out@.map_values(|k: Key| (k.year, k.name@)) == es.subrange(0, i as int).filter(pred).map_values(
                    |e: Entry| e.0,
                ),
            decreases pairs.len() - i,
        {
            let (k, link) = &pairs[i];
            let ghost e = es[i as int];
            assert(e == key_entry(pairs@[i as int]));
            assert(es.subrange(0, i + 1) =~= es.subrange(0, i as int).push(e));
            proof {
                es.subrange(0, i as int).lemma_filter_push(e, pred);
            }
            let keep = with_options || !(contains_text(k.name.as_str(), "期权") || ends_with_text(
                link.as_str(),
                ".zip",
            ));
            if keep {
                let ghost before = out@;
                let kc = Key { year: k.year, name: k.name.clone() };
                out.push(kc);
                assert(out@.map_values(|k: Key| (k.year, k.name@)) =~= before.map_values(
                    |k: Key| (k.year, k.name@),
                ).push((kc.year, kc.name@)));
                assert(es.subrange(0, i + 1).filter(pred) == es.subrange(0, i as int).filter(pred).push(e));
                assert(es.subrange(0, i + 1).filter(pred).map_values(|e: Entry| e.0) =~= es.subrange(
                    0,
                    i as int,
                ).filter(pred).map_values(|e: Entry| e.0).push(e.0));
            }
            i = i + 1;
        }
        assert(es.subrange(0, pairs.len() as int) =~= es);
        out
    }
}

} // verus!
