//! The workspace's bookkeeping of singleton panels (AI Chat, Position,
//! Execution): at most one live instance of each, tracked in one slot per
//! kind, adopted from restored layouts and toggled from the toolbar. The
//! panel handles themselves are opaque here (`E`).
use vstd::prelude::*;

use crate::panels::{Kind, kind_for_id, kind_is_singleton};

verus! {

/// One slot per singleton kind.
pub struct SingletonSlots<E> {
    ai_chat: Option<E>,
    position: Option<E>,
    execution: Option<E>,
}

/// What the trading toggle does.
pub enum TradingToggle<E> {
    /// Panels were open: close these (Position first, then Execution).
    Close(Vec<E>),
    /// Nothing was open: open the Position + Execution row.
    Open,
}

impl<E> SingletonSlots<E> {
    /// The panel tracked for singleton kind `k` (none for other kinds).
    pub closed spec fn slot(self, k: Kind) -> Option<E> {
        match k {
            Kind::AiChat => self.ai_chat,
            Kind::Position => self.position,
            Kind::Execution => self.execution,
            _ => None,
        }
    }

    /// No panel tracked.
    pub fn new() -> (r: Self)
        ensures
            forall|k: Kind| #[trigger] r.slot(k) is None,
    {
        SingletonSlots { ai_chat: None, position: None, execution: None }
    }

    /// Forget every tracked panel (before re-adopting from a new layout).
    pub fn clear(&mut self)
        ensures
            forall|k: Kind| #[trigger] final(self).slot(k) is None,
    {
        self.ai_chat = None;
        self.position = None;
        self.execution = None;
    }

    /// The panel tracked for `k`.
    pub fn get(&self, k: Kind) -> (r: &Option<E>)
        requires
            kind_is_singleton(k),
        ensures
            *r == self.slot(k),
    {
        match k {
            Kind::AiChat => &self.ai_chat,
            Kind::Position => &self.position,
            _ => &self.execution,
        }
    }

    /// Stop tracking the panel for `k`, handing it back.
    pub fn take(&mut self, k: Kind) -> (r: Option<E>)
        requires
            kind_is_singleton(k),
        ensures
            r == old(self).slot(k),
            final(self).slot(k) is None,
            forall|j: Kind| j != k ==> #[trigger] final(self).slot(j) == old(self).slot(j),
    {
        match k {
            Kind::AiChat => self.ai_chat.take(),
            Kind::Position => self.position.take(),
            _ => self.execution.take(),
        }
    }

    /// Track `e` as the panel for `k`, replacing any previous one.
    pub fn put(&mut self, k: Kind, e: E)
        requires
            kind_is_singleton(k),
        ensures
            final(self).slot(k) == Some(e),
            forall|j: Kind| j != k ==> #[trigger] final(self).slot(j) == old(self).slot(j),
    {
        match k {
            Kind::AiChat => self.ai_chat = Some(e),
            Kind::Position => self.position = Some(e),
            _ => self.execution = Some(e),
        }
    }

    /// Adopt a panel of kind `k` found in a restored layout: a singleton
    /// whose slot is empty is tracked; otherwise (not a singleton, or a
    /// duplicate of one already adopted) the panel is handed back untracked,
    /// so the first one met wins.
    pub fn adopt(&mut self, k: Kind, e: E) -> (r: Option<E>)
        ensures
            kind_is_singleton(k) && old(self).slot(k) is None ==> r is None && final(self).slot(k)
                == Some(e),
            !(kind_is_singleton(k) && old(self).slot(k) is None) ==> r == Some(e) && final(self).slot(k)
                == old(self).slot(k),
            forall|j: Kind| j != k ==> #[trigger] final(self).slot(j) == old(self).slot(j),
    {
        if !k.is_singleton() {
            return Some(e);
        }
        if self.get(k).is_some() {
            return Some(e);
        }
        self.put(k, e);
        None
    }

    /// The toolbar's trading toggle: if Position or Execution is open, both
    /// are released for closing; otherwise the pair is to be opened. Either
    /// way both slots end empty (the caller tracks newly opened panels).
    pub fn toggle_trading(&mut self) -> (r: TradingToggle<E>)
        ensures
            final(self).slot(Kind::Position) is None,
            final(self).slot(Kind::Execution) is None,
            final(self).slot(Kind::AiChat) == old(self).slot(Kind::AiChat),
            old(self).slot(Kind::Position) is None && old(self).slot(Kind::Execution) is None
                <==> r is Open,
            r matches TradingToggle::Close(v) ==> v@ == (match old(self).slot(Kind::Position) {
                Some(p) => seq![p],
                None => Seq::<E>::empty(),
            }) + (match old(self).slot(Kind::Execution) {
                Some(x) => seq![x],
                None => Seq::<E>::empty(),
            }),
    {
        let p = self.position.take();
        let x = self.execution.take();
        if p.is_none() && x.is_none() {
            return TradingToggle::Open;
        }
        let mut v: Vec<E> = Vec::new();
        let ghost pp = p;
        let ghost xx = x;
        if let Some(e) = p {
            v.push(e);
        }
        if let Some(e) = x {
            v.push(e);
        }
        proof {
            let a = match pp {
                Some(q) => seq![q],
                None => Seq::<E>::empty(),
            };
            let b = match xx {
                Some(q) => seq![q],
                None => Seq::<E>::empty(),
            };
            assert(v@ =~= a + b);
        }
        TradingToggle::Close(v)
    }
}

/// What the "+ Panel" action does for a requested kind identifier.
pub enum AddPanelPlan<'a, E> {
    /// Unknown identifier: nothing.
    Ignore,
    /// A singleton that is already open: bring this panel's tab forward.
    FocusExisting(&'a E),
    /// Create a panel of this kind; `track` says whether it must be recorded
    /// in its singleton slot afterwards.
    Create { kind: Kind, track: bool },
}

/// Decide the "+ Panel" action for `id` (slots must already be refreshed):
/// unknown identifiers are ignored, an open singleton is focused instead of
/// duplicated, anything else is created and, if a singleton, tracked.
pub fn plan_add_panel<'a, E>(slots: &'a SingletonSlots<E>, id: &str) -> (r: AddPanelPlan<'a, E>)
    ensures
        match r {
            AddPanelPlan::Ignore => kind_for_id(id@) is None,
            AddPanelPlan::FocusExisting(e) => kind_for_id(id@) matches Some(k) && kind_is_singleton(k)
                && slots.slot(k) == Some(*e),
            AddPanelPlan::Create { kind, track } => kind_for_id(id@) == Some(kind) && track
                == kind_is_singleton(kind) && (track ==> slots.slot(kind) is None),
        },
{
    let kind = match Kind::from_id(id) {
        Some(k) => k,
        None => return AddPanelPlan::Ignore,
    };
    if kind.is_singleton() {
        if let Some(e) = slots.get(kind) {
            return AddPanelPlan::FocusExisting(e);
        }
    }
    AddPanelPlan::Create { kind, track: kind.is_singleton() }
}

} // verus!
