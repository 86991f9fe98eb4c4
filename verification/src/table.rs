//! Row projection: the run-scoped column registry, the header, and one
//! denormalized row per offer.

use vstd::prelude::*;
use vstd::string::StringExecFns;
use crate::machine::{assoc_last, Offer, OfferModel};
use crate::text::str_eq;

verus! {

/// Extends a registry with the keys of one attribute bag, in first-seen
/// order, skipping keys already present.
pub open spec fn add_keys(reg: Seq<Seq<char>>, extra: Seq<(Seq<char>, Seq<char>)>) -> Seq<
    Seq<char>,
>
    decreases extra.len(),
{
    if extra.len() == 0 {
        reg
    } else {
        let prev = add_keys(reg, extra.drop_last());
        if prev.contains(extra.last().0) {
            prev
        } else {
            prev.push(extra.last().0)
        }
    }
}

/// The column registry of a run: the union of all offers' attribute keys,
/// in first-seen order over offers and, within an offer, insertion order.
pub open spec fn registry_of(offers: Seq<OfferModel>) -> Seq<Seq<char>>
    decreases offers.len(),
{
    if offers.len() == 0 {
        Seq::empty()
    } else {
        add_keys(registry_of(offers.drop_last()), offers.last().extra)
    }
}

/// The cell an offer writes under a key: the last value stored for it, or
/// the empty string when the offer never had the key.
pub open spec fn cell_of(extra: Seq<(Seq<char>, Seq<char>)>, key: Seq<char>) -> Seq<char> {
    match assoc_last(extra, key) {
        Some(v) => v,
        None => Seq::empty(),
    }
}

/// One row: the three fixed cells, then one cell per registry column.
pub open spec fn row_of(o: OfferModel, reg: Seq<Seq<char>>) -> Seq<Seq<char>> {
    seq![o.id, o.category_name, o.pictures] + Seq::new(reg.len(), |i: int| cell_of(o.extra, reg[i]))
}

/// The header: the three fixed columns, then the registry columns.
pub open spec fn header_of(reg: Seq<Seq<char>>) -> Seq<Seq<char>> {
    seq!["id"@, "category_name"@, "pictures"@] + reg
}

/// The whole table: the header record, then one row per offer, in order.
pub open spec fn table_of(offers: Seq<OfferModel>) -> Seq<Seq<Seq<char>>> {
    seq![header_of(registry_of(offers))] + Seq::new(
        offers.len(),
        |i: int| row_of(offers[i], registry_of(offers)),
    )
}

/// Whether some entry of the vector equals the given string.
fn vec_contains_str(v: &Vec<String>, s: &str) -> (r: bool)
    ensures
        r == v.deep_view().contains(s@),
{
    let n = v.len();
    let mut i: usize = 0;
    while i < n
        invariant
            n == v.len(),
            i <= n,
            v.deep_view().len() == n,
            forall|j: int| 0 <= j < i ==> v.deep_view()[j] != s@,
        decreases n - i,
    {
        if str_eq(v[i].as_str(), s) {
            proof {
                assert(v.deep_view()[i as int] == s@);
            }
            return true;
        }
        i += 1;
    }
    proof {
        assert(!v.deep_view().contains(s@)) by {
            if v.deep_view().contains(s@) {
                let j = choose|j: int| 0 <= j < v.deep_view().len() && v.deep_view()[j] == s@;
                assert(v.deep_view()[j] != s@);
            }
        }
    }
    false
}

/// The last value an attribute bag stored under the key, or the empty
/// string when it never had the key.
pub fn extra_get(extra: &Vec<(String, String)>, key: &str) -> (r: String)
    ensures
        r@ == cell_of(extra.deep_view(), key@),
{
    let mut i: usize = extra.len();
    proof {
        assert(extra.deep_view().take(extra.len() as int) =~= extra.deep_view());
    }
    while i > 0
        invariant
            i <= extra.len(),
            extra.deep_view().len() == extra.len(),
            assoc_last(extra.deep_view(), key@) == assoc_last(
                extra.deep_view().take(i as int),
                key@,
            ),
        decreases i,
    {
        i = i - 1;
        proof {
            assert(extra.deep_view().take(i + 1 as int).last() == extra.deep_view()[i as int]);
            assert(extra.deep_view().take(i + 1 as int).drop_last() =~= extra.deep_view().take(
                i as int,
            ));
        }
        if str_eq(extra[i].0.as_str(), key) {
            return extra[i].1.clone();
        }
    }
    proof {
        assert(extra.deep_view().take(0) =~= Seq::<(Seq<char>, Seq<char>)>::empty());
    }
    String::new()
}

/// Computes the column registry for a list of offers.
pub fn registry_for(offers: &Vec<Offer>) -> (reg: Vec<String>)
    ensures
        reg.deep_view() == registry_of(offers.deep_view()),
{
    let mut reg: Vec<String> = Vec::new();
    let n = offers.len();
    let mut i: usize = 0;
    proof {
        assert(offers.deep_view().take(0) =~= Seq::<OfferModel>::empty());
        assert(reg.deep_view() =~= Seq::<Seq<char>>::empty());
    }
    while i < n
        invariant
            n == offers.len(),
            i <= n,
            offers.deep_view().len() == n,
            reg.deep_view() == registry_of(offers.deep_view().take(i as int)),
        decreases n - i,
    {
        let o = &offers[i];
        proof {
            assert(offers.deep_view()[i as int] == offers@[i as int]@);
        }
        let k = o.extra.len();
        let mut j: usize = 0;
        proof {
            assert(o.extra.deep_view().take(0) =~= Seq::<(Seq<char>, Seq<char>)>::empty());
        }
        while j < k
            invariant
                n == offers.len(),
                i < n,
                offers.deep_view().len() == n,
                o@ == offers.deep_view()[i as int],
                k == o.extra.len(),
                j <= k,
                o.extra.deep_view().len() == k,
                reg.deep_view() == add_keys(
                    registry_of(offers.deep_view().take(i as int)),
                    o.extra.deep_view().take(j as int),
                ),
            decreases k - j,
        {
            proof {
                assert(o.extra.deep_view().take(j + 1 as int).drop_last() =~= o.extra.deep_view()
                    .take(j as int));
                assert(o.extra.deep_view().take(j + 1 as int).last() == o.extra.deep_view()[
                    j as int
                ]);
                assert(o.extra.deep_view()[j as int] == (o.extra@[j as int].0@, o.extra@[
                    j as int
                ].1@));
            }
            if !vec_contains_str(&reg, o.extra[j].0.as_str()) {
                let ghost pre = reg.deep_view();
                reg.push(o.extra[j].0.clone());
                proof {
                    assert(reg.deep_view() =~= pre.push(o.extra@[j as int].0@));
                }
            }
            j += 1;
        }
        proof {
            assert(o.extra.deep_view().take(k as int) =~= o.extra.deep_view());
            assert(offers.deep_view().take(i + 1 as int).drop_last() =~= offers.deep_view().take(
                i as int,
            ));
            assert(offers.deep_view().take(i + 1 as int).last() == offers.deep_view()[i as int]);
        }
        i += 1;
    }
    proof {
        assert(offers.deep_view().take(n as int) =~= offers.deep_view());
    }
    reg
}

/// Projects one offer onto the registry: id, category name, pictures, then
/// one cell per registry column, empty where the offer lacks the key.
pub fn project_row(o: &Offer, reg: &Vec<String>) -> (row: Vec<String>)
    ensures
        row.deep_view() == row_of(o@, reg.deep_view()),
{
    let mut row: Vec<String> = Vec::new();
    row.push(o.id.clone());
    row.push(o.category_name.clone());
    row.push(o.pictures.clone());
    proof {
        assert(row.deep_view() =~= seq![o@.id, o@.category_name, o@.pictures]);
    }
    let n = reg.len();
    let mut i: usize = 0;
    while i < n
        invariant
            n == reg.len(),
            reg.deep_view().len() == n,
            i <= n,
            row.deep_view().len() == 3 + i,
            row.deep_view()[0] == o@.id,
            row.deep_view()[1] == o@.category_name,
            row.deep_view()[2] == o@.pictures,
            forall|j: int| 0 <= j < i ==> row.deep_view()[3 + j] == cell_of(
                o@.extra,
                reg.deep_view()[j],
            ),
        decreases n - i,
    {
        proof {
            assert(reg.deep_view()[i as int] == reg@[i as int]@);
        }
        let cell = extra_get(&o.extra, reg[i].as_str());
        let ghost pre = row.deep_view();
        row.push(cell);
        proof {
            assert(row.deep_view() =~= pre.push(cell_of(o@.extra, reg.deep_view()[i as int])));
        }
        i += 1;
    }
    proof {
        assert(row.deep_view() =~= row_of(o@, reg.deep_view()));
    }
    row
}

/// Builds the whole table for a list of offers: the header record first,
/// then one row per offer, in order.
pub fn csv_records(offers: &Vec<Offer>) -> (records: Vec<Vec<String>>)
    ensures
        records.deep_view() == table_of(offers.deep_view()),
{
    let reg = registry_for(offers);
    let mut header: Vec<String> = Vec::new();
    header.push(String::from_str("id"));
    header.push(String::from_str("category_name"));
    header.push(String::from_str("pictures"));
    proof {
        assert(header.deep_view() =~= seq!["id"@, "category_name"@, "pictures"@]);
    }
    let n = reg.len();
    let mut i: usize = 0;
    while i < n
        invariant
            n == reg.len(),
            reg.deep_view().len() == n,
            i <= n,
            header.deep_view().len() == 3 + i,
            header.deep_view()[0] == "id"@,
            header.deep_view()[1] == "category_name"@,
            header.deep_view()[2] == "pictures"@,
            forall|j: int| 0 <= j < i ==> header.deep_view()[3 + j] == reg.deep_view()[j],
        decreases n - i,
    {
        proof {
            assert(reg.deep_view()[i as int] == reg@[i as int]@);
        }
        let ghost pre = header.deep_view();
        header.push(reg[i].clone());
        proof {
            assert(header.deep_view() =~= pre.push(reg.deep_view()[i as int]));
        }
        i += 1;
    }
    proof {
        assert(header.deep_view() =~= header_of(reg.deep_view()));
    }
    let ghost headerv = header.deep_view();
    let mut records: Vec<Vec<String>> = Vec::new();
    records.push(header);
    proof {
        assert(records.deep_view() =~= seq![headerv]);
    }
    let m = offers.len();
    let mut r: usize = 0;
    while r < m
        invariant
            m == offers.len(),
            offers.deep_view().len() == m,
            r <= m,
            reg.deep_view() == registry_of(offers.deep_view()),
            records.deep_view().len() == 1 + r,
            records.deep_view()[0] == headerv,
            headerv == header_of(reg.deep_view()),
            forall|j: int| 0 <= j < r ==> records.deep_view()[1 + j] == row_of(
                offers.deep_view()[j],
                reg.deep_view(),
            ),
        decreases m - r,
    {
        proof {
            assert(offers.deep_view()[r as int] == offers@[r as int]@);
        }
        let row = project_row(&offers[r], &reg);
        let ghost pre = records.deep_view();
        records.push(row);
        proof {
            assert(records.deep_view() =~= pre.push(
                row_of(offers.deep_view()[r as int], reg.deep_view()),
            ));
        }
        r += 1;
    }
    proof {
        assert(records.deep_view() =~= table_of(offers.deep_view()));
    }
    records
}

} // verus!
