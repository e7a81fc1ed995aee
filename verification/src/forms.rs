//! The form fields of a document that belong to a page.
use vstd::prelude::*;
use crate::marks::{text_string, text_string_of};

verus! {

/// What the listing reads of a form field dictionary: its object, its
/// `/Kids` references, its `/P` page reference, whether it has a `/Rect`,
/// and the bytes of its `/T` and `/V` entries where they are strings.
pub struct FieldRecord {
    pub id: (u32, u16),
    pub kids: Vec<(u32, u16)>,
    pub page_ref: Option<(u32, u16)>,
    pub has_rect: bool,
    pub title: Option<Vec<u8>>,
    pub value: Option<Vec<u8>>,
}

/// A form field listed for a page: its number in the flattened field list
/// (from 1), its object, and its name and value as text.
#[derive(Debug, PartialEq, Eq)]
pub struct PageField {
    pub number: usize,
    pub id: (u32, u16),
    pub name: String,
    pub value: String,
}

/// The first record of the field `id`.
pub open spec fn find_record(fields: Seq<FieldRecord>, id: (u32, u16)) -> Option<int>
    decreases fields.len(),
{
    if fields.len() == 0 {
        None
    } else {
        match find_record(fields.drop_last(), id) {
            Some(j) => Some(j),
            None => if fields.last().id == id {
                Some(fields.len() - 1)
            } else {
                None
            },
        }
    }
}

/// The fields of the first `n` entries of the `/Fields` array `top`, each
/// followed by its kids (where its dictionary was read).
pub open spec fn flat_fields(top: Seq<(u32, u16)>, fields: Seq<FieldRecord>, n: int) -> Seq<(u32, u16)>
    decreases n,
{
    if n <= 0 {
        Seq::empty()
    } else {
        let id = top[n - 1];
        flat_fields(top, fields, n - 1).push(id) + match find_record(fields, id) {
            Some(j) => fields[j].kids@,
            None => Seq::empty(),
        }
    }
}

/// A field belongs to `page` when its `/P` is that page or it has a
/// `/Rect`.
pub open spec fn on_page(r: FieldRecord, page: (u32, u16)) -> bool {
    r.page_ref == Some(page) || r.has_rect
}

/// The text of a string entry: as `lopdf::decode_text_string` reads it,
/// empty where it is missing or does not decode.
pub open spec fn entry_text(v: Option<Vec<u8>>) -> Seq<char> {
    match v {
        Some(b) => match text_string_of(b@) {
            Some(t) => t,
            None => Seq::empty(),
        },
        None => Seq::empty(),
    }
}

/// The listed fields among the first `n` of the flattened list `flat`:
/// number, object, name and value.
pub open spec fn listed_fields(
    flat: Seq<(u32, u16)>,
    fields: Seq<FieldRecord>,
    page: (u32, u16),
    n: int,
) -> Seq<(int, (u32, u16), Seq<char>, Seq<char>)>
    decreases n,
{
    if n <= 0 {
        Seq::empty()
    } else {
        let p = listed_fields(flat, fields, page, n - 1);
        let id = flat[n - 1];
        match find_record(fields, id) {
            Some(j) => if on_page(fields[j], page) {
                p.push((n, id, entry_text(fields[j].title), entry_text(fields[j].value)))
            } else {
                p
            },
            None => p,
        }
    }
}

pub open spec fn field_view(f: PageField) -> (int, (u32, u16), Seq<char>, Seq<char>) {
    (f.number as int, f.id, f.name@, f.value@)
}

fn find_record_exec(fields: &Vec<FieldRecord>, id: (u32, u16)) -> (r: Option<usize>)
    ensures
        r matches Some(j) ==> find_record(fields@, id) == Some(j as int) && j < fields@.len(),
        r is None ==> find_record(fields@, id) is None,
{
    let mut k: usize = 0;
    while k < fields.len()
        invariant
            k <= fields@.len(),
            find_record(fields@.take(k as int), id) is None,
        decreases fields@.len() - k,
    {
        assert(fields@.take(k + 1).drop_last() =~= fields@.take(k as int));
        if fields[k].id.0 == id.0 && fields[k].id.1 == id.1 {
            proof {
                lemma_find_prefix(fields@, id, k + 1);
            }
            return Some(k);
        }
        k = k + 1;
    }
    assert(fields@.take(fields@.len() as int) =~= fields@);
    None
}

proof fn lemma_find_prefix(fields: Seq<FieldRecord>, id: (u32, u16), j: int)
    requires
        0 <= j <= fields.len(),
        find_record(fields.take(j), id) is Some,
    ensures
        find_record(fields, id) == find_record(fields.take(j), id),
        0 <= find_record(fields, id)->0 < j,
    decreases fields.len() - j,
{
    lemma_find_bound(fields.take(j), id);
    if j < fields.len() {
        assert(fields.take(j + 1).drop_last() =~= fields.take(j));
        lemma_find_prefix(fields, id, j + 1);
    } else {
        assert(fields.take(j) =~= fields);
    }
}

proof fn lemma_find_bound(fields: Seq<FieldRecord>, id: (u32, u16))
    ensures
        find_record(fields, id) matches Some(j) ==> 0 <= j < fields.len() && fields[j].id == id,
    decreases fields.len(),
{
    if fields.len() > 0 {
        lemma_find_bound(fields.drop_last(), id);
    }
}

fn text_of(v: &Option<Vec<u8>>) -> (r: String)
    ensures
        r@ == entry_text(*v),
{
    match v {
        Some(b) => match text_string(b.as_slice()) {
            Some(t) => t,
            None => String::new(),
        },
        None => String::new(),
    }
}

/// The form fields that belong to `page`: the entries `top` of the
/// `/Fields` array, each followed by its kids, numbered from 1 in that
/// order; those whose record says they lie on `page` (its `/P`, or a
/// `/Rect`) are listed with their number, name and value.
pub fn page_form_fields(top: &Vec<(u32, u16)>, fields: &Vec<FieldRecord>, page: (u32, u16)) -> (r: Vec<
    PageField,
>)
    ensures
        r@.map_values(|f: PageField| field_view(f)) == listed_fields(
            flat_fields(top@, fields@, top@.len() as int),
            fields@,
            page,
            flat_fields(top@, fields@, top@.len() as int).len() as int,
        ),
{
    let mut flat: Vec<(u32, u16)> = Vec::new();
    let mut i: usize = 0;
    while i < top.len()
        invariant
            i <= top@.len(),
            flat@ == flat_fields(top@, fields@, i as int),
        decreases top@.len() - i,
    {
        let id = top[i];
        let ghost prev = flat@;
        flat.push(id);
        let found = find_record_exec(fields, id);
        match found {
            Some(j) => {
                let ghost before = flat@;
                let mut k: usize = 0;
                while k < fields[j].kids.len()
                    invariant
                        j < fields@.len(),
                        before == prev.push(id),
                        prev == flat_fields(top@, fields@, i as int),
                        i < top@.len(),
                        top@[i as int] == id,
                        find_record(fields@, id) == Some(j as int),
                        k <= fields@[j as int].kids@.len(),
                        flat@ == before + fields@[j as int].kids@.take(k as int),
                    decreases fields@[j as int].kids@.len() - k,
                {
                    flat.push(fields[j].kids[k]);
                    k = k + 1;
                    assert(flat@ =~= before + fields@[j as int].kids@.take(k as int));
                }
                assert(fields@[j as int].kids@.take(k as int) =~= fields@[j as int].kids@);
                assert(flat@ =~= flat_fields(top@, fields@, i + 1));
            },
            None => {
                assert(flat@ =~= flat_fields(top@, fields@, i + 1));
            },
        }
        assert(flat@ =~= flat_fields(top@, fields@, i + 1)) by {
            assert(prev == flat_fields(top@, fields@, i as int));
            assert(top@[i as int] == id);
        }
        i = i + 1;
    }
    let mut out: Vec<PageField> = Vec::new();
    let mut n: usize = 0;
    while n < flat.len()
        invariant
            n <= flat@.len(),
            out@.map_values(|f: PageField| field_view(f)) == listed_fields(flat@, fields@, page, n as int),
        decreases flat@.len() - n,
    {
        let ghost before = out@.map_values(|f: PageField| field_view(f));
        let id = flat[n];
        match find_record_exec(fields, id) {
            Some(j) => {
                let here = match fields[j].page_ref {
                    Some(p) => p.0 == page.0 && p.1 == page.1,
                    None => false,
                };
                assert(here == (fields@[j as int].page_ref == Some(page)));
                if here || fields[j].has_rect {
                    let name = text_of(&fields[j].title);
                    let value = text_of(&fields[j].value);
                    out.push(PageField { number: n + 1, id, name, value });
                    assert(out@.map_values(|f: PageField| field_view(f)) =~= before.push(
                        ((n + 1) as int, id, entry_text(fields@[j as int].title), entry_text(fields@[j as int].value)),
                    ));
                    assert(out@.map_values(|f: PageField| field_view(f)) =~= listed_fields(flat@, fields@, page, n + 1));
                } else {
                    assert(out@.map_values(|f: PageField| field_view(f)) =~= listed_fields(flat@, fields@, page, n + 1));
                }
            },
            None => {
                assert(out@.map_values(|f: PageField| field_view(f)) =~= listed_fields(flat@, fields@, page, n + 1));
            },
        }
        assert(out@.map_values(|f: PageField| field_view(f)) =~= listed_fields(flat@, fields@, page, n + 1));
        n = n + 1;
    }
    out
}

} // verus!
