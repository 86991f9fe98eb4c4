//! The properties the pipeline keeps, stated and proved over the models.

use vstd::prelude::*;
use crate::events::Ev;
use crate::machine::{
    attr_first, cat_lookup, fresh_offer, init_model, offer_text, run_from, run_model, step_model,
    MachineModel, ModeModel, OfferModel,
};
use crate::table::{add_keys, header_of, registry_of, table_of};
use crate::text::{lemma_sanitize_preimage, sanitize_chars};

verus! {

/// A character sequence free of `.`.
pub open spec fn dotless(s: Seq<char>) -> bool {
    forall|i: int| 0 <= i < s.len() ==> s[i] != '.'
}

/// A character sequence free of both `.` and `,`.
pub open spec fn plain(s: Seq<char>) -> bool {
    forall|i: int| 0 <= i < s.len() ==> s[i] != '.' && s[i] != ','
}

/// The three excluded child names and the three fixed column names hold
/// neither `.` nor `,`.
pub proof fn lemma_literals_plain()
    ensures
        plain("picture"@),
        plain("param"@),
        plain("categoryId"@),
        plain("id"@),
        plain("category_name"@),
        plain("pictures"@),
        "id"@.len() == 2,
        "category_name"@.len() == 13,
        "pictures"@.len() == 8,
        "picture"@.len() == 7,
        "param"@.len() == 5,
        "categoryId"@.len() == 10,
{
    reveal_strlit("picture");
    reveal_strlit("param");
    reveal_strlit("categoryId");
    reveal_strlit("id");
    reveal_strlit("category_name");
    reveal_strlit("pictures");
    assert(plain("picture"@));
    assert(plain("param"@));
    assert(plain("categoryId"@));
    assert(plain("id"@));
    assert(plain("category_name"@));
    assert(plain("pictures"@));
}

/// Law: a sanitized name keeps its length, keeps every character that is
/// not a `.`, and turns each `.` into `,`.
pub proof fn lemma_sanitize_maps(s: Seq<char>)
    ensures
        sanitize_chars(s).len() == s.len(),
        forall|i: int| 0 <= i < s.len() ==> sanitize_chars(s)[i] == (if s[i] == '.' {
            ','
        } else {
            s[i]
        }),
{
}

/// A key fit for the output: free of `.` and none of the excluded names.
pub open spec fn key_ok(k: Seq<char>) -> bool {
    dotless(k) && k != "picture"@ && k != "param"@ && k != "categoryId"@
}

/// A sanitized child name is always a fit key when the child is not one of
/// the excluded names: sanitization never produces `.`, and it cannot turn
/// another name into an excluded one, since those hold no `,`.
pub proof fn lemma_sanitized_key_ok(child: Seq<char>)
    requires
        child != "picture"@,
        child != "param"@,
        child != "categoryId"@,
    ensures
        key_ok(sanitize_chars(child)),
{
    lemma_literals_plain();
    if sanitize_chars(child) == "picture"@ {
        lemma_sanitize_preimage(child, "picture"@);
    }
    if sanitize_chars(child) == "param"@ {
        lemma_sanitize_preimage(child, "param"@);
    }
    if sanitize_chars(child) == "categoryId"@ {
        lemma_sanitize_preimage(child, "categoryId"@);
    }
}

/// Law: the category lookup resolves to the name of the last entry carrying
/// the id.
pub proof fn lemma_cat_lookup_last(
    cats: Seq<(Seq<char>, Seq<char>)>,
    id: Seq<char>,
    i: int,
)
    requires
        0 <= i < cats.len(),
        cats[i].0 == id,
        forall|j: int| i < j < cats.len() ==> cats[j].0 != id,
    ensures
        cat_lookup(cats, id) == cats[i].1,
    decreases cats.len(),
{
    if i == cats.len() - 1 {
    } else {
        assert(cats.drop_last() =~= cats.take(cats.len() - 1));
        lemma_cat_lookup_last(cats.drop_last(), id, i);
    }
}

/// Law: the category lookup falls back to the sentinel exactly when no
/// entry carries the id.
pub proof fn lemma_cat_lookup_miss(cats: Seq<(Seq<char>, Seq<char>)>, id: Seq<char>)
    requires
        forall|j: int| 0 <= j < cats.len() ==> cats[j].0 != id,
    ensures
        cat_lookup(cats, id) == "Undefined"@,
    decreases cats.len(),
{
    if cats.len() > 0 {
        lemma_cat_lookup_miss(cats.drop_last(), id);
    }
}

/// All keys of one offer's attribute bag are fit.
pub open spec fn offer_keys_ok(o: OfferModel) -> bool {
    forall|i: int| 0 <= i < o.extra.len() ==> key_ok((#[trigger] o.extra[i]).0)
}

/// All keys of all finished offers, and of the offer in progress, are fit.
pub open spec fn keys_inv(m: MachineModel) -> bool {
    &&& forall|i: int| 0 <= i < m.offers.len() ==> offer_keys_ok(#[trigger] m.offers[i])
    &&& m.mode matches ModeModel::InOffer { offer, .. } ==> offer_keys_ok(offer)
}

/// One transition keeps every bag key fit.
pub proof fn lemma_step_keys(m: MachineModel, e: Ev)
    requires
        keys_inv(m),
    ensures
        keys_inv(step_model(m, e)),
{
    match m.mode {
        ModeModel::Top => {
            assert(step_model(m, e).offers == m.offers);
        },
        ModeModel::InCategory { id, buf } => {
            assert(step_model(m, e).offers == m.offers);
        },
        ModeModel::InOffer { offer, child } => match e {
            Ev::Text { text } => {
                if child != "categoryId"@ && child != "picture"@ && child != "param"@ {
                    lemma_sanitized_key_ok(child);
                    let o2 = offer_text(m.cats, offer, child, text);
                    assert forall|i: int| 0 <= i < o2.extra.len() implies key_ok(
                        (#[trigger] o2.extra[i]).0,
                    ) by {
                        if i < offer.extra.len() {
                            assert(o2.extra[i] == offer.extra[i]);
                        } else {
                            assert(o2.extra[i].0 == sanitize_chars(child));
                        }
                    }
                }
            },
            Ev::End { name } => {
                if name == "offer"@ {
                    let m2 = step_model(m, e);
                    assert forall|i: int| 0 <= i < m2.offers.len() implies offer_keys_ok(
                        #[trigger] m2.offers[i],
                    ) by {
                        if i < m.offers.len() {
                            assert(m2.offers[i] == m.offers[i]);
                        } else {
                            assert(m2.offers[i] == offer);
                        }
                    }
                }
            },
            _ => {},
        },
    }
}

/// A whole run keeps every bag key fit.
pub proof fn lemma_run_keys(m: MachineModel, events: Seq<Ev>)
    requires
        keys_inv(m),
    ensures
        keys_inv(run_from(m, events)),
    decreases events.len(),
{
    if events.len() > 0 {
        lemma_run_keys(m, events.drop_last());
        lemma_step_keys(run_from(m, events.drop_last()), events.last());
    }
}

/// Keys the registry gathers from fit bags are fit.
pub proof fn lemma_add_keys_ok(reg: Seq<Seq<char>>, extra: Seq<(Seq<char>, Seq<char>)>)
    requires
        forall|i: int| 0 <= i < reg.len() ==> key_ok(#[trigger] reg[i]),
        forall|i: int| 0 <= i < extra.len() ==> key_ok((#[trigger] extra[i]).0),
    ensures
        forall|i: int| 0 <= i < add_keys(reg, extra).len() ==> key_ok(
            #[trigger] add_keys(reg, extra)[i],
        ),
    decreases extra.len(),
{
    if extra.len() > 0 {
        lemma_add_keys_ok(reg, extra.drop_last());
        let prev = add_keys(reg, extra.drop_last());
        if !prev.contains(extra.last().0) {
            assert forall|i: int| 0 <= i < add_keys(reg, extra).len() implies key_ok(
                #[trigger] add_keys(reg, extra)[i],
            ) by {
                if i < prev.len() {
                    assert(add_keys(reg, extra)[i] == prev[i]);
                } else {
                    assert(add_keys(reg, extra)[i] == extra.last().0);
                    assert(extra[extra.len() - 1].0 == extra.last().0);
                }
            }
        }
    }
}

/// The registry of offers with fit bags holds only fit keys.
pub proof fn lemma_registry_ok(offers: Seq<OfferModel>)
    requires
        forall|i: int| 0 <= i < offers.len() ==> offer_keys_ok(#[trigger] offers[i]),
    ensures
        forall|i: int| 0 <= i < registry_of(offers).len() ==> key_ok(
            #[trigger] registry_of(offers)[i],
        ),
    decreases offers.len(),
{
    if offers.len() > 0 {
        lemma_registry_ok(offers.drop_last());
        assert(offer_keys_ok(offers[offers.len() - 1]));
        lemma_add_keys_ok(registry_of(offers.drop_last()), offers.last().extra);
    }
}

/// Laws: whatever the document, no emitted column name holds a `.`, and no
/// column is named `picture`, `param`, or `categoryId`.
pub proof fn lemma_header_columns(events: Seq<Ev>)
    ensures
        forall|j: int| 0 <= j < header_of(registry_of(run_model(events).offers)).len() ==> dotless(
            #[trigger] header_of(registry_of(run_model(events).offers))[j],
        ),
        forall|j: int| 0 <= j < header_of(registry_of(run_model(events).offers)).len() ==> {
            let col = #[trigger] header_of(registry_of(run_model(events).offers))[j];
            col != "picture"@ && col != "param"@ && col != "categoryId"@
        },
{
    lemma_literals_plain();
    lemma_run_keys(init_model(), events);
    let offers = run_model(events).offers;
    lemma_registry_ok(offers);
    let header = header_of(registry_of(offers));
    assert forall|j: int| 0 <= j < header.len() implies dotless(#[trigger] header[j]) && header[j]
        != "picture"@ && header[j] != "param"@ && header[j] != "categoryId"@ by {
        if j >= 3 {
            assert(header[j] == registry_of(offers)[j - 3]);
            assert(key_ok(registry_of(offers)[j - 3]));
        }
    }
}

/// Law: every data row has exactly as many cells as the header.
pub proof fn lemma_header_stability(offers: Seq<OfferModel>)
    ensures
        forall|i: int| 0 <= i < offers.len() ==> #[trigger] table_of(offers)[i + 1].len()
            == table_of(offers)[0].len(),
{
    assert forall|i: int| 0 <= i < offers.len() implies #[trigger] table_of(offers)[i + 1].len()
        == table_of(offers)[0].len() by {
        assert(table_of(offers)[0] == header_of(registry_of(offers)));
        assert(table_of(offers)[i + 1] == Seq::new(
            offers.len(),
            |j: int| crate::table::row_of(offers[j], registry_of(offers)),
        )[i]);
    }
}

/// Whether an event is the end element of the given name.
pub open spec fn is_end_of(e: Ev, tag: Seq<char>) -> bool {
    match e {
        Ev::End { name } => name == tag,
        _ => false,
    }
}

/// Whether an event is the start element of the given name.
pub open spec fn is_start_of(e: Ev, tag: Seq<char>) -> bool {
    match e {
        Ev::Start { name, .. } => name == tag,
        _ => false,
    }
}

/// The attributes of a start element; empty for any other event.
pub open spec fn start_attrs(e: Ev) -> Seq<(Seq<char>, Seq<char>)> {
    match e {
        Ev::Start { attrs, .. } => attrs,
        _ => Seq::empty(),
    }
}

/// A complete offer element: its start tag, a body free of offer end tags,
/// and its end tag.
pub open spec fn is_offer_block(es: Seq<Ev>) -> bool {
    &&& es.len() >= 2
    &&& is_start_of(es[0], "offer"@)
    &&& is_end_of(es.last(), "offer"@)
    &&& forall|i: int| 0 < i < es.len() - 1 ==> !is_end_of(#[trigger] es[i], "offer"@)
}

/// A complete category element, likewise.
pub open spec fn is_category_block(es: Seq<Ev>) -> bool {
    &&& es.len() >= 2
    &&& is_start_of(es[0], "category"@)
    &&& is_end_of(es.last(), "category"@)
    &&& forall|i: int| 0 < i < es.len() - 1 ==> !is_end_of(#[trigger] es[i], "category"@)
}

/// An event the top state ignores.
pub open spec fn is_neutral_at_top(e: Ev) -> bool {
    match e {
        Ev::Start { name, .. } => name != "category"@ && name != "offer"@,
        _ => true,
    }
}

/// The element names `offer` and `category` differ.
proof fn proof_literals_offer_category()
    ensures
        "offer"@ != "category"@,
{
    reveal_strlit("offer");
    reveal_strlit("category");
    assert("offer"@.len() != "category"@.len());
}

/// Running one event is one transition.
pub proof fn lemma_run_singleton(m: MachineModel, e: Ev)
    ensures
        run_from(m, seq![e]) == step_model(m, e),
{
    reveal_with_fuel(run_from, 2);
    assert(seq![e].drop_last() =~= Seq::<Ev>::empty());
    assert(seq![e].last() == e);
}

/// Running a concatenation runs the parts in turn.
pub proof fn lemma_run_concat(m: MachineModel, a: Seq<Ev>, b: Seq<Ev>)
    ensures
        run_from(m, a + b) == run_from(run_from(m, a), b),
    decreases b.len(),
{
    if b.len() == 0 {
        assert(a + b =~= a);
    } else {
        lemma_run_concat(m, a, b.drop_last());
        assert((a + b).drop_last() =~= a + b.drop_last());
        assert((a + b).last() == b.last());
    }
}

/// Inside an offer, events other than the offer's end element keep the
/// traversal inside that offer and finish nothing.
pub proof fn lemma_in_offer_body(m: MachineModel, body: Seq<Ev>)
    requires
        m.mode is InOffer,
        forall|i: int| 0 <= i < body.len() ==> !is_end_of(#[trigger] body[i], "offer"@),
    ensures
        run_from(m, body).mode is InOffer,
        run_from(m, body).offers == m.offers,
        run_from(m, body).cats == m.cats,
    decreases body.len(),
{
    if body.len() > 0 {
        assert(!is_end_of(body[body.len() - 1], "offer"@));
        lemma_in_offer_body(m, body.drop_last());
    }
}

/// Inside an offer the mode evolves from the mode and the category index
/// alone.
pub proof fn lemma_in_offer_mode_agrees(m1: MachineModel, m2: MachineModel, body: Seq<Ev>)
    requires
        m1.mode is InOffer,
        m1.mode == m2.mode,
        m1.cats == m2.cats,
        forall|i: int| 0 <= i < body.len() ==> !is_end_of(#[trigger] body[i], "offer"@),
    ensures
        run_from(m1, body).mode == run_from(m2, body).mode,
    decreases body.len(),
{
    if body.len() > 0 {
        assert(!is_end_of(body[body.len() - 1], "offer"@));
        lemma_in_offer_mode_agrees(m1, m2, body.drop_last());
        lemma_in_offer_body(m1, body.drop_last());
        lemma_in_offer_body(m2, body.drop_last());
    }
}

/// The offer one complete offer element finishes, given the category index
/// in force when it starts.
pub open spec fn offer_of_block(cats: Seq<(Seq<char>, Seq<char>)>, block: Seq<Ev>) -> OfferModel {
    let start = MachineModel {
        mode: ModeModel::InOffer {
            offer: fresh_offer(start_attrs(block[0])),
            child: Seq::empty(),
        },
        cats,
        offers: Seq::empty(),
    };
    match run_from(start, block.subrange(1, block.len() - 1)).mode {
        ModeModel::InOffer { offer, .. } => offer,
        _ => fresh_offer(start_attrs(block[0])),
    }
}

/// Law: one complete offer element, from the top state, finishes exactly
/// the offer its events build and returns to the top state; the category
/// index is untouched.
pub proof fn lemma_offer_block(m: MachineModel, block: Seq<Ev>)
    requires
        m.mode is Top,
        is_offer_block(block),
    ensures
        run_from(m, block).mode is Top,
        run_from(m, block).cats == m.cats,
        run_from(m, block).offers == m.offers.push(offer_of_block(m.cats, block)),
{
    let body = block.subrange(1, block.len() - 1);
    let head = block.take(1);
    let tail = block.skip(block.len() - 1);
    assert(block =~= head + body + tail);
    assert(head =~= seq![block[0]]);
    lemma_run_singleton(m, block[0]);
    let m1 = run_from(m, head);
    assert(m1 == step_model(m, block[0]));
    proof_literals_offer_category();
    assert(m1.mode == (ModeModel::InOffer {
        offer: fresh_offer(start_attrs(block[0])),
        child: Seq::empty(),
    }));
    lemma_run_concat(m, head + body, tail);
    lemma_run_concat(m, head, body);
    assert(run_from(m, head + body) == run_from(m1, body));
    assert forall|i: int| 0 <= i < body.len() implies !is_end_of(#[trigger] body[i], "offer"@) by {
        assert(body[i] == block[i + 1]);
    }
    lemma_in_offer_body(m1, body);
    let m2 = run_from(m1, body);
    let start = MachineModel {
        mode: ModeModel::InOffer {
            offer: fresh_offer(start_attrs(block[0])),
            child: Seq::empty(),
        },
        cats: m.cats,
        offers: Seq::empty(),
    };
    lemma_in_offer_mode_agrees(m1, start, body);
    assert(tail =~= seq![block.last()]);
    lemma_run_singleton(m2, block.last());
    assert(run_from(m2, tail) == step_model(m2, block.last()));
}

/// The concatenation of the character-data chunks of an event sequence.
pub open spec fn chunk_concat(es: Seq<Ev>) -> Seq<char>
    decreases es.len(),
{
    if es.len() == 0 {
        Seq::empty()
    } else {
        chunk_concat(es.drop_last()) + (match es.last() {
            Ev::Text { text } => text,
            _ => Seq::<char>::empty(),
        })
    }
}

/// Inside a category element, events other than a category end element keep
/// the traversal inside it and only append its character data to the buffer.
pub proof fn lemma_in_category_body(m: MachineModel, id: Seq<char>, buf: Seq<char>, body: Seq<Ev>)
    requires
        m.mode == (ModeModel::InCategory { id, buf }),
        forall|i: int| 0 <= i < body.len() ==> !is_end_of(#[trigger] body[i], "category"@),
    ensures
        run_from(m, body).mode == (ModeModel::InCategory { id, buf: buf + chunk_concat(body) }),
        run_from(m, body).offers == m.offers,
        run_from(m, body).cats == m.cats,
    decreases body.len(),
{
    if body.len() == 0 {
        assert(buf + chunk_concat(body) =~= buf);
        assert(run_from(m, body).mode =~~= (ModeModel::InCategory {
            id,
            buf: buf + chunk_concat(body),
        }));
    } else {
        assert(!is_end_of(body[body.len() - 1], "category"@));
        lemma_in_category_body(m, id, buf, body.drop_last());
        let pre = chunk_concat(body.drop_last());
        match body.last() {
            Ev::Text { text } => {
                assert((buf + pre) + text =~= buf + (pre + text));
            },
            _ => {
                assert(pre + Seq::<char>::empty() =~= pre);
            },
        }
        assert(run_from(m, body).mode =~~= (ModeModel::InCategory {
            id,
            buf: buf + chunk_concat(body),
        }));
    }
}

/// Law: one complete category element, from the top state, records exactly
/// one entry: its id attribute and its character data in document order.
pub proof fn lemma_category_block(m: MachineModel, block: Seq<Ev>)
    requires
        m.mode is Top,
        is_category_block(block),
    ensures
        run_from(m, block).mode is Top,
        run_from(m, block).offers == m.offers,
        run_from(m, block).cats == m.cats.push(
            (
                attr_first(start_attrs(block[0]), "id"@),
                chunk_concat(block.subrange(1, block.len() - 1)),
            ),
        ),
{
    let body = block.subrange(1, block.len() - 1);
    let head = block.take(1);
    let tail = block.skip(block.len() - 1);
    assert(block =~= head + body + tail);
    assert(head =~= seq![block[0]]);
    lemma_run_singleton(m, block[0]);
    let m1 = run_from(m, head);
    assert(m1 == step_model(m, block[0]));
    let id = attr_first(start_attrs(block[0]), "id"@);
    assert(m1.mode == (ModeModel::InCategory { id, buf: Seq::empty() }));
    lemma_run_concat(m, head + body, tail);
    lemma_run_concat(m, head, body);
    assert forall|i: int| 0 <= i < body.len() implies !is_end_of(
        #[trigger] body[i],
        "category"@,
    ) by {
        assert(body[i] == block[i + 1]);
    }
    lemma_in_category_body(m1, id, Seq::empty(), body);
    let m2 = run_from(m1, body);
    assert(tail =~= seq![block.last()]);
    lemma_run_singleton(m2, block.last());
    assert(run_from(m2, tail) == step_model(m2, block.last()));
    assert(Seq::empty() + chunk_concat(body) =~= chunk_concat(body));
}

/// A top-level unit: a complete offer element, a complete category element,
/// or one event the top state ignores.
pub open spec fn is_segment(s: Seq<Ev>) -> bool {
    ||| is_offer_block(s)
    ||| is_category_block(s)
    ||| s.len() == 1 && is_neutral_at_top(s[0])
}

/// The concatenation of a sequence of segments.
pub open spec fn concat_segs(segs: Seq<Seq<Ev>>) -> Seq<Ev>
    decreases segs.len(),
{
    if segs.len() == 0 {
        Seq::empty()
    } else {
        concat_segs(segs.drop_last()) + segs.last()
    }
}

/// How many of the segments are offer elements.
pub open spec fn offer_seg_count(segs: Seq<Seq<Ev>>) -> nat
    decreases segs.len(),
{
    if segs.len() == 0 {
        0
    } else {
        offer_seg_count(segs.drop_last()) + (if is_offer_block(segs.last()) {
            1nat
        } else {
            0nat
        })
    }
}

/// Running a sequence of segments from the top state ends at the top state
/// and finishes one offer per offer element.
pub proof fn lemma_segments_from(m: MachineModel, segs: Seq<Seq<Ev>>)
    requires
        m.mode is Top,
        forall|i: int| 0 <= i < segs.len() ==> is_segment(#[trigger] segs[i]),
    ensures
        run_from(m, concat_segs(segs)).mode is Top,
        run_from(m, concat_segs(segs)).offers.len() == m.offers.len() + offer_seg_count(segs),
    decreases segs.len(),
{
    if segs.len() > 0 {
        lemma_segments_from(m, segs.drop_last());
        lemma_run_concat(m, concat_segs(segs.drop_last()), segs.last());
        let mid = run_from(m, concat_segs(segs.drop_last()));
        assert(is_segment(segs[segs.len() - 1]));
        if is_offer_block(segs.last()) {
            lemma_offer_block(mid, segs.last());
        } else if is_category_block(segs.last()) {
            lemma_category_block(mid, segs.last());
        } else {
            assert(segs.last() =~= seq![segs.last()[0]]);
            lemma_run_singleton(mid, segs.last()[0]);
            assert(run_from(mid, segs.last()) == step_model(mid, segs.last()[0]));
        }
    }
}

/// Law: a document made of complete top-level elements and events the top
/// state ignores finishes exactly one offer, hence one row, per offer
/// element.
pub proof fn lemma_row_count(segs: Seq<Seq<Ev>>)
    requires
        forall|i: int| 0 <= i < segs.len() ==> is_segment(#[trigger] segs[i]),
    ensures
        run_model(concat_segs(segs)).offers.len() == offer_seg_count(segs),
        table_of(run_model(concat_segs(segs)).offers).len() == 1 + offer_seg_count(segs),
{
    lemma_segments_from(init_model(), segs);
}

/// The category index after a sequence of segments: every category element
/// appends its entry, nothing else touches the index.
pub open spec fn cats_after(cats: Seq<(Seq<char>, Seq<char>)>, segs: Seq<Seq<Ev>>) -> Seq<
    (Seq<char>, Seq<char>),
>
    decreases segs.len(),
{
    if segs.len() == 0 {
        cats
    } else {
        let prev = cats_after(cats, segs.drop_last());
        if is_category_block(segs.last()) {
            prev.push(
                (
                    attr_first(start_attrs(segs.last()[0]), "id"@),
                    chunk_concat(segs.last().subrange(1, segs.last().len() - 1)),
                ),
            )
        } else {
            prev
        }
    }
}

/// The offers a sequence of segments finishes, in document order: one per
/// offer element, each built against the category index in force when it
/// starts.
pub open spec fn offers_of_segs(cats: Seq<(Seq<char>, Seq<char>)>, segs: Seq<Seq<Ev>>) -> Seq<
    OfferModel,
>
    decreases segs.len(),
{
    if segs.len() == 0 {
        Seq::empty()
    } else {
        let prev = offers_of_segs(cats, segs.drop_last());
        if is_offer_block(segs.last()) {
            prev.push(offer_of_block(cats_after(cats, segs.drop_last()), segs.last()))
        } else {
            prev
        }
    }
}

/// No event sequence is both a complete offer element and a complete
/// category element.
proof fn lemma_blocks_disjoint(es: Seq<Ev>)
    ensures
        !(is_offer_block(es) && is_category_block(es)),
{
    proof_literals_offer_category();
}

/// Running a sequence of segments from the top state finishes exactly the
/// offers of its offer elements, in document order, and records exactly the
/// entries of its category elements, in document order.
pub proof fn lemma_segments_offers(m: MachineModel, segs: Seq<Seq<Ev>>)
    requires
        m.mode is Top,
        forall|i: int| 0 <= i < segs.len() ==> is_segment(#[trigger] segs[i]),
    ensures
        run_from(m, concat_segs(segs)).mode is Top,
        run_from(m, concat_segs(segs)).cats == cats_after(m.cats, segs),
        run_from(m, concat_segs(segs)).offers == m.offers + offers_of_segs(m.cats, segs),
    decreases segs.len(),
{
    if segs.len() == 0 {
        assert(m.offers + offers_of_segs(m.cats, segs) =~= m.offers);
    } else {
        lemma_segments_offers(m, segs.drop_last());
        lemma_run_concat(m, concat_segs(segs.drop_last()), segs.last());
        let mid = run_from(m, concat_segs(segs.drop_last()));
        assert(is_segment(segs[segs.len() - 1]));
        lemma_blocks_disjoint(segs.last());
        if is_offer_block(segs.last()) {
            lemma_offer_block(mid, segs.last());
            assert((m.offers + offers_of_segs(m.cats, segs.drop_last())).push(
                offer_of_block(mid.cats, segs.last()),
            ) =~= m.offers + offers_of_segs(m.cats, segs));
        } else if is_category_block(segs.last()) {
            lemma_category_block(mid, segs.last());
        } else {
            assert(segs.last() =~= seq![segs.last()[0]]);
            lemma_run_singleton(mid, segs.last()[0]);
        }
    }
}

/// Law: the i-th row of a document made of complete top-level elements and
/// ignored top-level events answers the i-th offer element, in document
/// order.
pub proof fn lemma_rows_in_document_order(segs: Seq<Seq<Ev>>)
    requires
        forall|i: int| 0 <= i < segs.len() ==> is_segment(#[trigger] segs[i]),
    ensures
        run_model(concat_segs(segs)).offers == offers_of_segs(Seq::empty(), segs),
{
    lemma_segments_offers(init_model(), segs);
    assert(Seq::<OfferModel>::empty() + offers_of_segs(Seq::empty(), segs) =~= offers_of_segs(
        Seq::empty(),
        segs,
    ));
}

/// Law: finished offers only accumulate: whatever events follow, the offers
/// already finished keep their places, so the i-th row answers the i-th
/// offer end element.
pub proof fn lemma_order_preservation(m: MachineModel, events: Seq<Ev>)
    ensures
        run_from(m, events).offers.len() >= m.offers.len(),
        run_from(m, events).offers.take(m.offers.len() as int) == m.offers,
    decreases events.len(),
{
    if events.len() == 0 {
        assert(m.offers.take(m.offers.len() as int) =~= m.offers);
    } else {
        lemma_order_preservation(m, events.drop_last());
        let mid = run_from(m, events.drop_last());
        let fin = run_from(m, events);
        assert(fin == step_model(mid, events.last()));
        assert(fin.offers == mid.offers || fin.offers == mid.offers.push(
            mid.mode->InOffer_offer,
        ));
        assert(fin.offers.take(m.offers.len() as int) =~= mid.offers.take(
            m.offers.len() as int,
        ));
    }
}

/// Inside an offer, events without character data and other than the
/// offer's end element leave the offer in progress unchanged.
pub proof fn lemma_in_offer_no_text(m: MachineModel, body: Seq<Ev>)
    requires
        m.mode is InOffer,
        forall|i: int| 0 <= i < body.len() ==> !((#[trigger] body[i]) is Text) && !is_end_of(
            body[i],
            "offer"@,
        ),
    ensures
        run_from(m, body).mode is InOffer,
        run_from(m, body).mode->InOffer_offer == m.mode->InOffer_offer,
    decreases body.len(),
{
    if body.len() > 0 {
        assert(!(body[body.len() - 1] is Text) && !is_end_of(body[body.len() - 1], "offer"@));
        lemma_in_offer_no_text(m, body.drop_last());
    }
}

/// Law: character data under the `categoryId` child resolves the offer's
/// category name to the index's answer for that data, and events without
/// character data that follow leave it resolved.
pub proof fn lemma_category_resolution(
    m: MachineModel,
    offer: OfferModel,
    text: Seq<char>,
    rest: Seq<Ev>,
)
    requires
        m.mode == (ModeModel::InOffer { offer, child: "categoryId"@ }),
        forall|i: int| 0 <= i < rest.len() ==> !((#[trigger] rest[i]) is Text) && !is_end_of(
            rest[i],
            "offer"@,
        ),
    ensures
        run_from(step_model(m, Ev::Text { text }), rest).mode is InOffer,
        run_from(step_model(m, Ev::Text { text }), rest).mode->InOffer_offer.category_name
            == cat_lookup(m.cats, text),
{
    let m1 = step_model(m, Ev::Text { text });
    assert(m1.mode->InOffer_offer.category_name == cat_lookup(m.cats, text));
    lemma_in_offer_no_text(m1, rest);
}

/// Law: an offer element that names a category id through its `categoryId`
/// child, with no character data after that, finishes with the index's
/// answer for that id as its category name.
pub proof fn lemma_block_resolution(
    cats: Seq<(Seq<char>, Seq<char>)>,
    block: Seq<Ev>,
    ca: Seq<(Seq<char>, Seq<char>)>,
    k: Seq<char>,
    rest: Seq<Ev>,
)
    requires
        is_offer_block(block),
        block.subrange(1, block.len() - 1) == seq![
            Ev::Start { name: "categoryId"@, attrs: ca },
            Ev::Text { text: k },
        ] + rest,
        forall|i: int| 0 <= i < rest.len() ==> !((#[trigger] rest[i]) is Text),
    ensures
        offer_of_block(cats, block).category_name == cat_lookup(cats, k),
{
    let body = block.subrange(1, block.len() - 1);
    let e1 = Ev::Start { name: "categoryId"@, attrs: ca };
    let e2 = Ev::Text { text: k };
    let start = MachineModel {
        mode: ModeModel::InOffer {
            offer: fresh_offer(start_attrs(block[0])),
            child: Seq::empty(),
        },
        cats,
        offers: Seq::empty(),
    };
    assert(body =~= seq![e1, e2] + rest);
    assert(seq![e1, e2] =~= seq![e1] + seq![e2]);
    lemma_run_concat(start, seq![e1, e2], rest);
    lemma_run_concat(start, seq![e1], seq![e2]);
    lemma_run_singleton(start, e1);
    let s1 = step_model(start, e1);
    assert(s1.mode == (ModeModel::InOffer {
        offer: fresh_offer(start_attrs(block[0])),
        child: "categoryId"@,
    }));
    lemma_run_singleton(s1, e2);
    assert forall|i: int| 0 <= i < rest.len() implies !((#[trigger] rest[i]) is Text)
        && !is_end_of(rest[i], "offer"@) by {
        assert(rest[i] == body[i + 2]);
        assert(body[i + 2] == block[i + 3]);
    }
    lemma_category_resolution(s1, fresh_offer(start_attrs(block[0])), k, rest);
    assert(run_from(start, body) == run_from(step_model(s1, e2), rest));
}

} // verus!
