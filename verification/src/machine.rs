//! The traversal state machine: categories first, then offers.

use vstd::prelude::*;
use vstd::string::StringExecFns;
use crate::events::{Event, Ev};
use crate::text::{sanitize, sanitize_chars, str_eq};

verus! {

/// A finished offer: its id, resolved category name, the dynamic attribute
/// bag in insertion order (later entries override earlier ones), and the
/// always-present pictures field.
pub struct Offer {
    pub id: String,
    pub category_name: String,
    pub extra: Vec<(String, String)>,
    pub pictures: String,
}

/// The mathematical form of an offer.
#[verifier::ext_equal]
pub struct OfferModel {
    pub id: Seq<char>,
    pub category_name: Seq<char>,
    pub extra: Seq<(Seq<char>, Seq<char>)>,
    pub pictures: Seq<char>,
}

impl View for Offer {
    type V = OfferModel;

    open spec fn view(&self) -> OfferModel {
        OfferModel {
            id: self.id@,
            category_name: self.category_name@,
            extra: self.extra.deep_view(),
            pictures: self.pictures@,
        }
    }
}

impl DeepView for Offer {
    type V = OfferModel;

    open spec fn deep_view(&self) -> OfferModel {
        self.view()
    }
}

/// Where the traversal stands: at the top level, inside a `category`
/// element, or inside an `offer` element.
pub enum Mode {
    Top,
    InCategory { id: String, buf: String },
    InOffer { offer: Offer, child: String },
}

/// The mathematical form of a mode.
#[verifier::ext_equal]
pub enum ModeModel {
    Top,
    InCategory { id: Seq<char>, buf: Seq<char> },
    InOffer { offer: OfferModel, child: Seq<char> },
}

impl View for Mode {
    type V = ModeModel;

    open spec fn view(&self) -> ModeModel {
        match self {
            Mode::Top => ModeModel::Top,
            Mode::InCategory { id, buf } => ModeModel::InCategory { id: id@, buf: buf@ },
            Mode::InOffer { offer, child } => ModeModel::InOffer { offer: offer@, child: child@ },
        }
    }
}

/// The whole traversal state: the mode, the category index in insertion
/// order (later entries win), and the offers finished so far.
pub struct Machine {
    pub mode: Mode,
    pub cats: Vec<(String, String)>,
    pub offers: Vec<Offer>,
}

/// The mathematical form of the traversal state.
#[verifier::ext_equal]
pub struct MachineModel {
    pub mode: ModeModel,
    pub cats: Seq<(Seq<char>, Seq<char>)>,
    pub offers: Seq<OfferModel>,
}

impl View for Machine {
    type V = MachineModel;

    open spec fn view(&self) -> MachineModel {
        MachineModel {
            mode: self.mode@,
            cats: self.cats.deep_view(),
            offers: self.offers.deep_view(),
        }
    }
}

/// The value of the first attribute with the given name, or the empty
/// string when no attribute has it.
pub open spec fn attr_first(attrs: Seq<(Seq<char>, Seq<char>)>, name: Seq<char>) -> Seq<char>
    decreases attrs.len(),
{
    if attrs.len() == 0 {
        Seq::empty()
    } else if attrs[0].0 == name {
        attrs[0].1
    } else {
        attr_first(attrs.drop_first(), name)
    }
}

/// Last-wins lookup in an association list.
pub open spec fn assoc_last(entries: Seq<(Seq<char>, Seq<char>)>, key: Seq<char>) -> Option<
    Seq<char>,
>
    decreases entries.len(),
{
    if entries.len() == 0 {
        None
    } else if entries.last().0 == key {
        Some(entries.last().1)
    } else {
        assoc_last(entries.drop_last(), key)
    }
}

/// Category lookup: the name of the last category inserted under the id,
/// or the sentinel when the id was never inserted.
pub open spec fn cat_lookup(cats: Seq<(Seq<char>, Seq<char>)>, id: Seq<char>) -> Seq<char> {
    match assoc_last(cats, id) {
        Some(name) => name,
        None => "Undefined"@,
    }
}

/// The state the traversal starts in.
pub open spec fn init_model() -> MachineModel {
    MachineModel { mode: ModeModel::Top, cats: Seq::empty(), offers: Seq::empty() }
}

/// A fresh offer as created on an `offer` start element: the id attribute
/// (empty when absent), everything else empty.
pub open spec fn fresh_offer(attrs: Seq<(Seq<char>, Seq<char>)>) -> OfferModel {
    OfferModel {
        id: attr_first(attrs, "id"@),
        category_name: Seq::empty(),
        extra: Seq::empty(),
        pictures: Seq::empty(),
    }
}

/// How character data inside an offer changes it: `categoryId` text resolves
/// the category name; `picture` and `param` children are ignored; any other
/// child stores the chunk under its sanitized name, last write winning.
pub open spec fn offer_text(
    cats: Seq<(Seq<char>, Seq<char>)>,
    offer: OfferModel,
    child: Seq<char>,
    text: Seq<char>,
) -> OfferModel {
    if child == "categoryId"@ {
        OfferModel { category_name: cat_lookup(cats, text), ..offer }
    } else if child == "picture"@ || child == "param"@ {
        offer
    } else {
        OfferModel { extra: offer.extra.push((sanitize_chars(child), text)), ..offer }
    }
}

/// One transition of the traversal.
pub open spec fn step_model(m: MachineModel, e: Ev) -> MachineModel {
    match m.mode {
        ModeModel::Top => match e {
            Ev::Start { name, attrs } => if name == "category"@ {
                MachineModel {
                    mode: ModeModel::InCategory { id: attr_first(attrs, "id"@), buf: Seq::empty() },
                    ..m
                }
            } else if name == "offer"@ {
                MachineModel {
                    mode: ModeModel::InOffer { offer: fresh_offer(attrs), child: Seq::empty() },
                    ..m
                }
            } else {
                m
            },
            _ => m,
        },
        ModeModel::InCategory { id, buf } => match e {
            Ev::Text { text } => MachineModel {
                mode: ModeModel::InCategory { id, buf: buf + text },
                ..m
            },
            Ev::End { name } => if name == "category"@ {
                MachineModel { mode: ModeModel::Top, cats: m.cats.push((id, buf)), ..m }
            } else {
                m
            },
            _ => m,
        },
        ModeModel::InOffer { offer, child } => match e {
            Ev::Start { name, attrs } => MachineModel {
                mode: ModeModel::InOffer { offer, child: name },
                ..m
            },
            Ev::Text { text } => MachineModel {
                mode: ModeModel::InOffer {
                    offer: offer_text(m.cats, offer, child, text),
                    child,
                },
                ..m
            },
            Ev::End { name } => if name == "offer"@ {
                MachineModel { mode: ModeModel::Top, offers: m.offers.push(offer), ..m }
            } else {
                m
            },
            _ => m,
        },
    }
}

/// The traversal over a whole event sequence, from a given state.
pub open spec fn run_from(m: MachineModel, events: Seq<Ev>) -> MachineModel
    decreases events.len(),
{
    if events.len() == 0 {
        m
    } else {
        step_model(run_from(m, events.drop_last()), events.last())
    }
}

/// The traversal over a whole event sequence, from the start state.
pub open spec fn run_model(events: Seq<Ev>) -> MachineModel {
    run_from(init_model(), events)
}

/// The value of the first attribute with the given name, or the empty
/// string when no attribute has it.
pub fn attr_get(attrs: &Vec<(String, String)>, name: &str) -> (r: String)
    ensures
        r@ == attr_first(attrs.deep_view(), name@),
{
    let n = attrs.len();
    let mut i: usize = 0;
    proof {
        assert(attrs.deep_view().skip(0) =~= attrs.deep_view());
    }
    while i < n
        invariant
            n == attrs.len(),
            i <= n,
            attrs.deep_view().len() == n,
            attr_first(attrs.deep_view(), name@) == attr_first(
                attrs.deep_view().skip(i as int),
                name@,
            ),
        decreases n - i,
    {
        proof {
            assert(attrs.deep_view().skip(i as int)[0] == attrs.deep_view()[i as int]);
            assert(attrs.deep_view().skip(i as int).drop_first() =~= attrs.deep_view().skip(
                i + 1 as int,
            ));
        }
        if str_eq(attrs[i].0.as_str(), name) {
            return attrs[i].1.clone();
        }
        i += 1;
    }
    proof {
        assert(attrs.deep_view().skip(n as int) =~= Seq::<(Seq<char>, Seq<char>)>::empty());
    }
    String::new()
}

/// Category lookup: the name of the last category inserted under the id,
/// or `"Undefined"` when the id was never inserted.
pub fn cat_get(cats: &Vec<(String, String)>, id: &str) -> (r: String)
    ensures
        r@ == cat_lookup(cats.deep_view(), id@),
{
    let mut i: usize = cats.len();
    proof {
        assert(cats.deep_view().take(cats.len() as int) =~= cats.deep_view());
    }
    while i > 0
        invariant
            i <= cats.len(),
            cats.deep_view().len() == cats.len(),
            assoc_last(cats.deep_view(), id@) == assoc_last(
                cats.deep_view().take(i as int),
                id@,
            ),
        decreases i,
    {
        i = i - 1;
        proof {
            assert(cats.deep_view().take(i + 1 as int).last() == cats.deep_view()[i as int]);
            assert(cats.deep_view().take(i + 1 as int).drop_last() =~= cats.deep_view().take(
                i as int,
            ));
        }
        if str_eq(cats[i].0.as_str(), id) {
            return cats[i].1.clone();
        }
    }
    proof {
        assert(cats.deep_view().take(0) =~= Seq::<(Seq<char>, Seq<char>)>::empty());
    }
    String::from_str("Undefined")
}

impl Machine {
    /// A machine in the start state.
    pub fn new() -> (m: Machine)
        ensures
            m@ == init_model(),
    {
        let m = Machine { mode: Mode::Top, cats: Vec::new(), offers: Vec::new() };
        proof {
            assert(m@ =~~= init_model());
        }
        m
    }

    /// One transition of the traversal.
    pub fn step(&mut self, e: &Event)
        ensures
            final(self)@ == step_model(old(self)@, e@),
    {
        let mut mode = Mode::Top;
        core::mem::swap(&mut mode, &mut self.mode);
        match mode {
            Mode::Top => {
                match e {
                    Event::Start { name, attrs } => {
                        if str_eq(name.as_str(), "category") {
                            self.mode = Mode::InCategory {
                                id: attr_get(attrs, "id"),
                                buf: String::new(),
                            };
                        } else if str_eq(name.as_str(), "offer") {
                            self.mode = Mode::InOffer {
                                offer: Offer {
                                    id: attr_get(attrs, "id"),
                                    category_name: String::new(),
                                    extra: Vec::new(),
                                    pictures: String::new(),
                                },
                                child: String::new(),
                            };
                        } else {
                            self.mode = Mode::Top;
                        }
                    },
                    _ => {
                        self.mode = Mode::Top;
                    },
                }
                proof {
                    assert(self@ =~~= step_model(old(self)@, e@));
                }
            },
            Mode::InCategory { id, buf } => {
                match e {
                    Event::Text { text } => {
                        let mut buf2 = buf;
                        buf2.append(text.as_str());
                        self.mode = Mode::InCategory { id, buf: buf2 };
                    },
                    Event::End { name } => {
                        if str_eq(name.as_str(), "category") {
                            let ghost pre = self.cats.deep_view();
                            let ghost idv = id@;
                            let ghost bufv = buf@;
                            self.cats.push((id, buf));
                            self.mode = Mode::Top;
                            proof {
                                assert(self.cats.deep_view() =~= pre.push((idv, bufv)));
                            }
                        } else {
                            self.mode = Mode::InCategory { id, buf };
                        }
                    },
                    _ => {
                        self.mode = Mode::InCategory { id, buf };
                    },
                }
                proof {
                    assert(self@ =~~= step_model(old(self)@, e@));
                }
            },
            Mode::InOffer { offer, child } => {
                match e {
                    Event::Start { name, .. } => {
                        self.mode = Mode::InOffer { offer, child: name.clone() };
                    },
                    Event::Text { text } => {
                        let mut offer2 = offer;
                        if str_eq(child.as_str(), "categoryId") {
                            offer2.category_name = cat_get(&self.cats, text.as_str());
                        } else if str_eq(child.as_str(), "picture") || str_eq(
                            child.as_str(),
                            "param",
                        ) {
                        } else {
                            let ghost pre = offer2.extra.deep_view();
                            let key = sanitize(child.as_str());
                            let ghost keyv = key@;
                            offer2.extra.push((key, text.clone()));
                            proof {
                                assert(offer2.extra.deep_view() =~= pre.push((keyv, text@)));
                            }
                        }
                        self.mode = Mode::InOffer { offer: offer2, child };
                    },
                    Event::End { name } => {
                        if str_eq(name.as_str(), "offer") {
                            let ghost pre = self.offers.deep_view();
                            let ghost ov = offer@;
                            self.offers.push(offer);
                            self.mode = Mode::Top;
                            proof {
                                assert(self.offers.deep_view() =~= pre.push(ov));
                            }
                        } else {
                            self.mode = Mode::InOffer { offer, child };
                        }
                    },
                    _ => {
                        self.mode = Mode::InOffer { offer, child };
                    },
                }
                proof {
                    assert(self@ =~~= step_model(old(self)@, e@));
                }
            },
        }
    }
}

/// Runs the traversal over a whole event sequence and hands back the offers
/// it finished, in document order of their end elements.
pub fn process_events(events: &Vec<Event>) -> (offers: Vec<Offer>)
    ensures
        offers.deep_view() == run_model(events.deep_view()).offers,
{
    let mut m = Machine::new();
    let n = events.len();
    let mut i: usize = 0;
    while i < n
        invariant
            n == events.len(),
            i <= n,
            events.deep_view().len() == n,
            m@ == run_from(init_model(), events.deep_view().take(i as int)),
        decreases n - i,
    {
        proof {
            assert(events.deep_view().take(i + 1 as int).drop_last() =~= events.deep_view().take(
                i as int,
            ));
            assert(events.deep_view().take(i + 1 as int).last() == events.deep_view()[i as int]);
            assert(events.deep_view()[i as int] == events@[i as int]@);
        }
        m.step(&events[i]);
        i += 1;
    }
    proof {
        assert(events.deep_view().take(n as int) =~= events.deep_view());
    }
    let mut offers: Vec<Offer> = Vec::new();
    core::mem::swap(&mut offers, &mut m.offers);
    offers
}

} // verus!
