//! The per-document mutable state of the transformation pass.

use vstd::prelude::*;

use crate::bytes::views_of;
use crate::md_event::event::{Event, EventView, event_views};

verus! {

/// The metadata recorded from special comments.
///
/// Writes are appended in order; the abstract value keeps, for every key, the
/// value written last, so a later write for the same key overwrites the
/// earlier one.
pub struct MetaMap {
    pub entries: Vec<(Vec<u8>, Vec<u8>)>,
}

/// The mapping an entry list stands for: later entries win.
pub open spec fn map_of(entries: Seq<(Vec<u8>, Vec<u8>)>) -> Map<Seq<u8>, Seq<u8>>
    decreases entries.len(),
{
    if entries.len() == 0 {
        Map::empty()
    } else {
        map_of(entries.drop_last()).insert(entries.last().0@, entries.last().1@)
    }
}

impl View for MetaMap {
    type V = Map<Seq<u8>, Seq<u8>>;

    open spec fn view(&self) -> Map<Seq<u8>, Seq<u8>> {
        map_of(self.entries@)
    }
}

impl MetaMap {
    pub fn new() -> (r: MetaMap)
        ensures
            r@ == Map::<Seq<u8>, Seq<u8>>::empty(),
            r.entries@.len() == 0,
    {
        MetaMap { entries: Vec::new() }
    }

    /// Records `value` under `key`, overwriting any earlier value.
    pub fn insert(&mut self, key: Vec<u8>, value: Vec<u8>)
        ensures
            final(self)@ == old(self)@.insert(key@, value@),
            final(self).entries@ == old(self).entries@.push((key, value)),
    {
        let ghost before = self.entries@;
        self.entries.push((key, value));
        proof {
            assert(self.entries@.drop_last() =~= before);
        }
    }
}

/// The shape of the whole per-document state.
#[verifier::ext_equal]
pub struct WorkareaView {
    pub events: Seq<EventView>,
    pub contents: Seq<Seq<u8>>,
    pub meta: Map<Seq<u8>, Seq<u8>>,
    pub is_comment: bool,
    pub is_code: bool,
    pub is_html: bool,
}

/// The per-document state container: the output event list, the raw-text
/// accumulator filled while inside a code block, the metadata map, and the
/// three fragment flags.
pub struct Workarea {
    pub events: Vec<Event>,
    pub contents: Vec<Vec<u8>>,
    pub meta: MetaMap,
    pub is_comment: bool,
    pub is_code: bool,
    pub is_html: bool,
}

impl View for Workarea {
    type V = WorkareaView;

    open spec fn view(&self) -> WorkareaView {
        WorkareaView {
            events: event_views(self.events@),
            contents: views_of(self.contents@),
            meta: self.meta@,
            is_comment: self.is_comment,
            is_code: self.is_code,
            is_html: self.is_html,
        }
    }
}

impl Workarea {
    pub fn new() -> (r: Workarea)
        ensures
            r@.events.len() == 0,
            r@.contents.len() == 0,
            r@.meta == Map::<Seq<u8>, Seq<u8>>::empty(),
            !r@.is_comment,
            !r@.is_code,
            !r@.is_html,
    {
        let r = Workarea {
            events: Vec::new(),
            contents: Vec::new(),
            meta: MetaMap::new(),
            is_comment: false,
            is_code: false,
            is_html: false,
        };
        proof {
            assert(event_views(r.events@) =~= Seq::<EventView>::empty());
            assert(views_of(r.contents@) =~= Seq::<Seq<u8>>::empty());
        }
        r
    }

    /// Clears all three fragment flags.
    pub fn break_frags(&mut self)
        ensures
            final(self)@ == (WorkareaView { is_comment: false, is_code: false, is_html: false,
                ..old(self)@ }),
    {
        self.is_comment = false;
        self.is_code = false;
        self.is_html = false;
    }

    /// Drops the accumulated raw text.
    pub fn clear_content(&mut self)
        ensures
            final(self)@ == (WorkareaView { contents: Seq::empty(), ..old(self)@ }),
    {
        self.contents = Vec::new();
        proof {
            assert(views_of(self.contents@) =~= Seq::<Seq<u8>>::empty());
        }
    }

    /// Appends `ev` to the output event list.
    pub fn push_event(&mut self, ev: Event)
        ensures
            final(self)@ == (WorkareaView { events: old(self)@.events.push(ev@), ..old(self)@ }),
    {
        let ghost before = self.events@;
        self.events.push(ev);
        proof {
            assert(event_views(self.events@) =~= event_views(before).push(self.events@.last()@));
        }
    }

    /// Appends `content` to the raw-text accumulator.
    pub fn push_content(&mut self, content: Vec<u8>)
        ensures
            final(self)@ == (WorkareaView { contents: old(self)@.contents.push(content@),
                ..old(self)@ }),
    {
        let ghost before = self.contents@;
        self.contents.push(content);
        proof {
            assert(views_of(self.contents@) =~= views_of(before).push(self.contents@.last()@));
        }
    }
}

} // verus!
