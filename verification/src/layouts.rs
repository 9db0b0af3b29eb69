//! Named layouts: the user's saved layouts (kept in alphabetical order so the
//! layout menu lists them stably), the predefined presets, and the pointer to
//! the currently active layout that drives the toolbar's label and Save
//! button.
use vstd::prelude::*;

use crate::panels::{Kind, kind_is_singleton};

use crate::text::{
    lemma_seq_lt_asymmetric, lemma_seq_lt_irreflexive, lemma_seq_lt_total,
    lemma_seq_lt_transitive, seq_lt, str_eq, str_lt, strictly_sorted, trim, trim_spec,
};

verus! {

/// User-named layouts, keyed by name and kept in the order of `String`.
pub struct SavedLayouts<V> {
    entries: Vec<(String, V)>,
}

/// The names of a sequence of entries.
pub open spec fn entry_names<V>(es: Seq<(String, V)>) -> Seq<Seq<char>> {
    Seq::new(es.len(), |i: int| es[i].0@)
}

/// A strictly sorted sequence holds `k` at index `j` only.
proof fn lemma_sorted_index(s: Seq<Seq<char>>, j: int)
    requires
        strictly_sorted(s),
        0 <= j < s.len(),
    ensures
        s.contains(s[j]),
        s.index_of(s[j]) == j,
{
    assert(s[j] == s[j]);
    let i = s.index_of(s[j]);
    if i != j {
        if i < j {
            assert(seq_lt(s[i], s[j]));
        } else {
            assert(seq_lt(s[j], s[i]));
        }
        lemma_seq_lt_irreflexive(s[j]);
    }
}

impl<V> SavedLayouts<V> {
    /// Names in the order they are listed.
    pub closed spec fn names(self) -> Seq<Seq<char>> {
        entry_names(self.entries@)
    }

    /// The layouts, by name.
    pub closed spec fn view(self) -> Map<Seq<char>, V> {
        Map::new(
            |k: Seq<char>| self.names().contains(k),
            |k: Seq<char>| self.entries@[self.names().index_of(k)].1,
        )
    }

    /// Names are strictly increasing, hence unique.
    pub closed spec fn wf(self) -> bool {
        strictly_sorted(self.names())
    }

    /// The listed names are exactly the stored ones, each once, in order.
    pub proof fn lemma_names_are_keys(self)
        requires
            self.wf(),
        ensures
            strictly_sorted(self.names()),
            self.names().to_set() == self.view().dom(),
            self.names().len() == self.view().dom().len(),
    {
        assert(self.names().to_set() =~= self.view().dom());
        lemma_sorted_no_duplicates(self.names());
        self.names().unique_seq_to_set();
    }

    /// No layouts.
    pub fn new() -> (r: Self)
        ensures
            r.wf(),
            r.view() == Map::<Seq<char>, V>::empty(),
            r.names() == Seq::<Seq<char>>::empty(),
    {
        let r = SavedLayouts { entries: Vec::new() };
        assert(r.names() =~= Seq::<Seq<char>>::empty());
        assert(r.view() =~= Map::<Seq<char>, V>::empty());
        r
    }

    /// Number of saved layouts.
    pub fn len(&self) -> (r: usize)
        ensures
            r == self.names().len(),
    {
        self.entries.len()
    }

    /// Whether no layout is saved.
    pub fn is_empty(&self) -> (r: bool)
        ensures
            r == (self.names().len() == 0),
    {
        self.entries.len() == 0
    }

    /// Index of `name` among the entries, if saved.
    fn find(&self, name: &str) -> (r: Option<usize>)
        requires
            self.wf(),
        ensures
            r matches Some(i) ==> i < self.names().len() && self.names()[i as int] == name@,
            r is None ==> !self.names().contains(name@),
    {
        let mut i: usize = 0;
        while i < self.entries.len()
            invariant
                i <= self.entries@.len(),
                forall|j: int| 0 <= j < i ==> self.names()[j] != name@,
            decreases self.entries@.len() - i,
        {
            if str_eq(self.entries[i].0.as_str(), name) {
                return Some(i);
            }
            i = i + 1;
        }
        None
    }

    /// The layout saved under `name`.
    pub fn get(&self, name: &str) -> (r: Option<&V>)
        requires
            self.wf(),
        ensures
            r matches Some(v) ==> self.view().dom().contains(name@) && *v == self.view()[name@],
            r is None ==> !self.view().dom().contains(name@),
    {
        match self.find(name) {
            Some(i) => {
                proof {
                    lemma_sorted_index(self.names(), i as int);
                }
                Some(&self.entries[i].1)
            },
            None => None,
        }
    }

    /// Name and layout at position `i` of the listing.
    pub fn entry(&self, i: usize) -> (r: (&String, &V))
        requires
            self.wf(),
            i < self.names().len(),
        ensures
            r.0@ == self.names()[i as int],
            *r.1 == self.view()[self.names()[i as int]],
    {
        proof {
            lemma_sorted_index(self.names(), i as int);
        }
        let e = &self.entries[i];
        (&e.0, &e.1)
    }

    /// The names, in listing (alphabetical) order.
    pub fn names_list(&self) -> (r: Vec<String>)
        requires
            self.wf(),
        ensures
            r@.len() == self.names().len(),
            forall|i: int| 0 <= i < r@.len() ==> #[trigger] r@[i]@ == self.names()[i],
            strictly_sorted(self.names()),
    {
        let mut r: Vec<String> = Vec::new();
        let mut i: usize = 0;
        while i < self.entries.len()
            invariant
                i <= self.entries@.len(),
                r@.len() == i,
                forall|j: int| 0 <= j < i ==> #[trigger] r@[j]@ == self.names()[j],
            decreases self.entries@.len() - i,
        {
            r.push(self.entries[i].0.clone());
            i = i + 1;
        }
        r
    }

    /// Save `value` under `name`, replacing any layout of that name.
    pub fn insert(&mut self, name: String, value: V)
        requires
            old(self).wf(),
        ensures
            final(self).wf(),
            final(self).view() == old(self).view().insert(name@, value),
            final(self).names().to_set() == old(self).names().to_set().insert(name@),
    {
        let ghost old_names = self.names();
        let mut i: usize = 0;
        while i < self.entries.len()
            invariant
                self.names() == old_names,
                self.wf(),
                i <= self.entries@.len(),
                forall|j: int| 0 <= j < i ==> seq_lt(#[trigger] old_names[j], name@),
            ensures
                self.names() == old_names,
                self.wf(),
                i <= self.entries@.len(),
                forall|j: int| 0 <= j < i ==> seq_lt(#[trigger] old_names[j], name@),
                i < self.entries@.len() ==> !seq_lt(old_names[i as int], name@),
            decreases self.entries@.len() - i,
        {
            if !str_lt(self.entries[i].0.as_str(), name.as_str()) {
                break;
            }
            i = i + 1;
        }
        let replace = i < self.entries.len() && str_eq(self.entries[i].0.as_str(), name.as_str());
        let ghost old_entries = self.entries@;
        let ghost old_view = self.view();
        if replace {
            let _ = self.entries.remove(i);
            self.entries.insert(i, (name, value));
            proof {
                assert(self.entries@ =~= old_entries.update(i as int, (name, value)));
                assert(self.names() =~= old_names.update(i as int, name@));
                assert(self.names() =~= old_names);
                lemma_sorted_index(old_names, i as int);
                assert forall|k: Seq<char>| #[trigger] self.view().dom().contains(k) == old_view.insert(name@, value).dom().contains(k) by {}
                assert forall|k: Seq<char>| self.view().dom().contains(k) implies #[trigger] self.view()[k] == old_view.insert(name@, value)[k] by {
                    let j = old_names.index_of(k);
                    assert(old_names.contains(k));
                    assert(0 <= j < old_names.len() && old_names[j] == k);
                    lemma_sorted_index(old_names, j);
                }
                assert(self.view() =~= old_view.insert(name@, value));
                assert(self.names().to_set() =~= old_names.to_set().insert(name@));
            }
        } else {
            proof {
                if i < old_names.len() {
                    lemma_seq_lt_total(old_names[i as int], name@);
                    assert(!seq_lt(old_names[i as int], name@));
                    assert(seq_lt(name@, old_names[i as int]));
                }
                assert(!old_names.contains(name@)) by {
                    if old_names.contains(name@) {
                        let j = old_names.index_of(name@);
                        assert(old_names[j] == name@);
                        if j < i {
                            lemma_seq_lt_irreflexive(name@);
                        } else {
                            if j > i {
                                assert(seq_lt(old_names[i as int], old_names[j]));
                                lemma_seq_lt_asymmetric(name@, old_names[i as int]);
                            }
                            lemma_seq_lt_irreflexive(name@);
                        }
                    }
                }
            }
            self.entries.insert(i, (name, value));
            proof {
                let nn = old_names.insert(i as int, name@);
                assert(self.names() =~= nn);
                assert forall|a: int, b: int| 0 <= a < b < nn.len() implies seq_lt(#[trigger] nn[a], #[trigger] nn[b]) by {
                    if a < i && b == i {
                    } else if a < i && b > i {
                        assert(nn[b] == old_names[b - 1]);
                        if i < old_names.len() {
                            if b - 1 > i {
                                assert(seq_lt(old_names[i as int], old_names[b - 1]));
                                lemma_seq_lt_transitive(name@, old_names[i as int], old_names[b - 1]);
                            }
                        }
                        lemma_seq_lt_transitive(nn[a], name@, nn[b]);
                    } else if a == i {
                        assert(nn[b] == old_names[b - 1]);
                        if b - 1 > i {
                            assert(seq_lt(old_names[i as int], old_names[b - 1]));
                            lemma_seq_lt_transitive(name@, old_names[i as int], old_names[b - 1]);
                        }
                    } else if a > i {
                        assert(nn[a] == old_names[a - 1]);
                        assert(nn[b] == old_names[b - 1]);
                    } else {
                        assert(nn[a] == old_names[a]);
                        assert(nn[b] == old_names[b]);
                    }
                }
                assert forall|k: Seq<char>| #[trigger] self.view().dom().contains(k) == old_view.insert(name@, value).dom().contains(k) by {
                    if old_names.contains(k) {
                        let j = old_names.index_of(k);
                        if j < i {
                            assert(nn[j] == k);
                        } else {
                            assert(nn[j + 1] == k);
                        }
                    }
                    if nn.contains(k) && k != name@ {
                        let j = nn.index_of(k);
                        if j < i {
                            assert(old_names[j] == k);
                        } else {
                            assert(old_names[j - 1] == k);
                        }
                    }
                    assert(nn[i as int] == name@);
                }
                assert forall|k: Seq<char>| self.view().dom().contains(k) implies #[trigger] self.view()[k] == old_view.insert(name@, value)[k] by {
                    let j = nn.index_of(k);
                    lemma_sorted_index(nn, j);
                    if k == name@ {
                        lemma_sorted_index(nn, i as int);
                    } else if j < i {
                        assert(old_names[j] == k);
                        lemma_sorted_index(old_names, j);
                    } else {
                        assert(j != i);
                        assert(old_names[j - 1] == k);
                        lemma_sorted_index(old_names, j - 1);
                    }
                }
                assert(self.view() =~= old_view.insert(name@, value));
                assert(self.names().to_set() =~= old_names.to_set().insert(name@)) by {
                    assert forall|k: Seq<char>| #[trigger] nn.contains(k) == old_names.to_set().insert(name@).contains(k) by {
                        assert(self.view().dom().contains(k) == nn.contains(k));
                        assert(old_view.dom().contains(k) == old_names.contains(k));
                    }
                }
            }
        }
    }

    /// Remove the layout saved under `name`, returning it.
    pub fn remove(&mut self, name: &str) -> (r: Option<V>)
        requires
            old(self).wf(),
        ensures
            final(self).wf(),
            final(self).view() == old(self).view().remove(name@),
            final(self).names().to_set() == old(self).names().to_set().remove(name@),
            r matches Some(v) ==> old(self).view().dom().contains(name@) && v == old(self).view()[name@],
            r is None ==> !old(self).view().dom().contains(name@),
    {
        let ghost old_names = self.names();
        let ghost old_view = self.view();
        match self.find(name) {
            Some(i) => {
                proof {
                    lemma_sorted_index(old_names, i as int);
                }
                let e = self.entries.remove(i);
                proof {
                    let nn = old_names.remove(i as int);
                    assert(self.names() =~= nn);
                    assert forall|a: int, b: int| 0 <= a < b < nn.len() implies seq_lt(#[trigger] nn[a], #[trigger] nn[b]) by {
                        if a < i && b < i {
                        } else if a < i {
                            assert(nn[b] == old_names[b + 1]);
                        } else {
                            assert(nn[a] == old_names[a + 1]);
                            assert(nn[b] == old_names[b + 1]);
                        }
                    }
                    assert forall|k: Seq<char>| #[trigger] self.view().dom().contains(k) == old_view.remove(name@).dom().contains(k) by {
                        if nn.contains(k) {
                            let j = nn.index_of(k);
                            if j < i {
                                assert(old_names[j] == k);
                                assert(k != name@) by {
                                    lemma_sorted_index(old_names, j);
                                }
                            } else {
                                assert(old_names[j + 1] == k);
                                assert(k != name@) by {
                                    lemma_sorted_index(old_names, j + 1);
                                }
                            }
                        }
                        if old_names.contains(k) && k != name@ {
                            let j = old_names.index_of(k);
                            if j < i {
                                assert(nn[j] == k);
                            } else {
                                assert(j != i);
                                assert(nn[j - 1] == k);
                            }
                        }
                    }
                    assert forall|k: Seq<char>| self.view().dom().contains(k) implies #[trigger] self.view()[k] == old_view.remove(name@)[k] by {
                        let j = nn.index_of(k);
                        lemma_sorted_index(nn, j);
                        if j < i {
                            assert(old_names[j] == k);
                            lemma_sorted_index(old_names, j);
                        } else {
                            assert(old_names[j + 1] == k);
                            lemma_sorted_index(old_names, j + 1);
                        }
                    }
                    assert(self.view() =~= old_view.remove(name@));
                    assert(self.names().to_set() =~= old_names.to_set().remove(name@)) by {
                        assert forall|k: Seq<char>| #[trigger] nn.contains(k) == old_names.to_set().remove(name@).contains(k) by {
                            assert(self.view().dom().contains(k) == nn.contains(k));
                            assert(old_view.dom().contains(k) == old_names.contains(k));
                        }
                    }
                }
                Some(e.1)
            },
            None => {
                proof {
                    assert(self.view() =~= old_view.remove(name@));
                    assert(self.names().to_set() =~= old_names.to_set().remove(name@));
                }
                None
            },
        }
    }
}


// ---------------------------------------------------------------------------
// Presets
// ---------------------------------------------------------------------------

/// Identifier of the General preset (Watchlist | Chart | Details).
pub const PRESET_GENERAL: &'static str = "__preset_general";
/// Identifier of the Fundamental preset (Watchlist | Portfolio + Calendar | News).
pub const PRESET_FUNDAMENTAL: &'static str = "__preset_fundamental";
/// Identifier of the Technical preset (Watchlist | Chart | Smart Money + Details).
pub const PRESET_TECHNICAL: &'static str = "__preset_technical";

/// The predefined, read-only layouts.
#[derive(Clone, Copy, Debug, PartialEq, Eq, Structural)]
pub enum Preset {
    General,
    Fundamental,
    Technical,
}

pub open spec fn preset_id(p: Preset) -> Seq<char> {
    match p {
        Preset::General => PRESET_GENERAL@,
        Preset::Fundamental => PRESET_FUNDAMENTAL@,
        Preset::Technical => PRESET_TECHNICAL@,
    }
}

pub open spec fn preset_label(p: Preset) -> Seq<char> {
    match p {
        Preset::General => "General"@,
        Preset::Fundamental => "Fundamental"@,
        Preset::Technical => "Technical"@,
    }
}

/// The preset with identifier `id`, if any.
pub open spec fn preset_for_id(id: Seq<char>) -> Option<Preset> {
    if id == PRESET_GENERAL@ {
        Some(Preset::General)
    } else if id == PRESET_FUNDAMENTAL@ {
        Some(Preset::Fundamental)
    } else if id == PRESET_TECHNICAL@ {
        Some(Preset::Technical)
    } else {
        None
    }
}

/// Preset identifiers are distinct, so an identifier names one preset.
pub proof fn lemma_preset_ids_round_trip(p: Preset)
    ensures
        preset_for_id(preset_id(p)) == Some(p),
{
    reveal_strlit("__preset_general");
    reveal_strlit("__preset_fundamental");
    reveal_strlit("__preset_technical");
    assert(PRESET_GENERAL@.len() != PRESET_FUNDAMENTAL@.len());
    assert(PRESET_GENERAL@.len() != PRESET_TECHNICAL@.len());
    assert(PRESET_FUNDAMENTAL@.len() != PRESET_TECHNICAL@.len());
}

impl Preset {
    /// The presets in menu order.
    pub fn all() -> (r: Vec<Preset>)
        ensures
            r@ == seq![Preset::General, Preset::Fundamental, Preset::Technical],
    {
        let r = vec![Preset::General, Preset::Fundamental, Preset::Technical];
        assert(r@ =~= seq![Preset::General, Preset::Fundamental, Preset::Technical]);
        r
    }

    /// Identifier passed around when the preset is applied.
    pub fn id(self) -> (r: &'static str)
        ensures
            r@ == preset_id(self),
    {
        match self {
            Preset::General => PRESET_GENERAL,
            Preset::Fundamental => PRESET_FUNDAMENTAL,
            Preset::Technical => PRESET_TECHNICAL,
        }
    }

    /// Menu and toolbar label.
    pub fn label(self) -> (r: &'static str)
        ensures
            r@ == preset_label(self),
    {
        match self {
            Preset::General => "General",
            Preset::Fundamental => "Fundamental",
            Preset::Technical => "Technical",
        }
    }

    /// The preset with identifier `id`, if any.
    pub fn from_id(id: &str) -> (r: Option<Preset>)
        ensures
            r == preset_for_id(id@),
    {
        if str_eq(id, PRESET_GENERAL) {
            Some(Preset::General)
        } else if str_eq(id, PRESET_FUNDAMENTAL) {
            Some(Preset::Fundamental)
        } else if str_eq(id, PRESET_TECHNICAL) {
            Some(Preset::Technical)
        } else {
            None
        }
    }
}

/// Human-readable label for a preset identifier; an unknown identifier is
/// shown as itself so that it stays diagnosable on the toolbar.
pub fn preset_display(id: &str) -> (r: String)
    ensures
        r@ == match preset_for_id(id@) {
            Some(p) => preset_label(p),
            None => id@,
        },
{
    match Preset::from_id(id) {
        Some(p) => p.label().to_owned(),
        None => id.to_owned(),
    }
}

// ---------------------------------------------------------------------------
// The currently active layout
// ---------------------------------------------------------------------------

/// Which layout is active: none in particular, a preset (read-only) or a
/// user-saved layout (overwritable in place).
#[derive(Debug)]
pub enum CurrentLayoutKind {
    Unnamed,
    Predefined { id: String },
    Saved { name: String },
}

/// Mathematical model of [`CurrentLayoutKind`].
pub enum CurrentLayoutModel {
    Unnamed,
    Predefined(Seq<char>),
    Saved(Seq<char>),
}

impl View for CurrentLayoutKind {
    type V = CurrentLayoutModel;

    open spec fn view(&self) -> CurrentLayoutModel {
        match self {
            CurrentLayoutKind::Unnamed => CurrentLayoutModel::Unnamed,
            CurrentLayoutKind::Predefined { id } => CurrentLayoutModel::Predefined(id@),
            CurrentLayoutKind::Saved { name } => CurrentLayoutModel::Saved(name@),
        }
    }
}

impl PartialEq for CurrentLayoutKind {
    fn eq(&self, other: &Self) -> (r: bool) {
        match (self, other) {
            (CurrentLayoutKind::Unnamed, CurrentLayoutKind::Unnamed) => true,
            (CurrentLayoutKind::Predefined { id: a }, CurrentLayoutKind::Predefined { id: b }) => str_eq(a.as_str(), b.as_str()),
            (CurrentLayoutKind::Saved { name: a }, CurrentLayoutKind::Saved { name: b }) => str_eq(a.as_str(), b.as_str()),
            _ => false,
        }
    }
}

impl vstd::std_specs::cmp::PartialEqSpecImpl for CurrentLayoutKind {
    open spec fn obeys_eq_spec() -> bool {
        true
    }

    open spec fn eq_spec(&self, other: &CurrentLayoutKind) -> bool {
        self@ == other@
    }
}

impl Eq for CurrentLayoutKind {}

impl Clone for CurrentLayoutKind {
    fn clone(&self) -> (r: Self)
        ensures
            r@ == self@,
    {
        match self {
            CurrentLayoutKind::Unnamed => CurrentLayoutKind::Unnamed,
            CurrentLayoutKind::Predefined { id } => CurrentLayoutKind::Predefined { id: id.clone() },
            CurrentLayoutKind::Saved { name } => CurrentLayoutKind::Saved { name: name.clone() },
        }
    }
}

impl Default for CurrentLayoutKind {
    fn default() -> (r: Self)
        ensures
            r@ == CurrentLayoutModel::Unnamed,
    {
        CurrentLayoutKind::Unnamed
    }
}

/// The active layout restored at start-up: the stored one when it could be
/// read and parsed, otherwise none in particular.
pub fn load_current_layout(stored: Option<CurrentLayoutKind>) -> (r: CurrentLayoutKind)
    ensures
        r@ == match stored {
            Some(c) => c@,
            None => CurrentLayoutModel::Unnamed,
        },
{
    match stored {
        Some(c) => c,
        None => CurrentLayoutKind::Unnamed,
    }
}

/// Make `layout` the active one. Returns whether it differs from the
/// previously active layout, i.e. whether the pointer must be persisted and
/// the toolbar refreshed.
pub fn set_current_layout(current: &mut CurrentLayoutKind, layout: CurrentLayoutKind) -> (changed:
    bool)
    ensures
        changed == (old(current)@ != layout@),
        final(current)@ == layout@,
{
    if *current == layout {
        return false;
    }
    *current = layout;
    true
}

/// Label of the toolbar's layout button, and whether Save overwrites the
/// active layout in place (only user-saved layouts are overwritable).
pub fn layout_label(current: &CurrentLayoutKind) -> (r: (String, bool))
    ensures
        r.0@ == match current@ {
            CurrentLayoutModel::Unnamed => "Layout"@,
            CurrentLayoutModel::Predefined(id) => match preset_for_id(id) {
                Some(p) => preset_label(p),
                None => id,
            },
            CurrentLayoutModel::Saved(name) => name,
        },
        r.1 == (current@ is Saved),
{
    match current {
        CurrentLayoutKind::Unnamed => ("Layout".to_owned(), false),
        CurrentLayoutKind::Predefined { id } => (preset_display(id.as_str()), false),
        CurrentLayoutKind::Saved { name } => (name.clone(), true),
    }
}

/// Label and tooltip of the toolbar's Save button.
pub fn save_button_text(overwritable: bool) -> (r: (&'static str, &'static str))
    ensures
        overwritable ==> r.0@ == "Save"@ && r.1@ == "Save changes to current layout"@,
        !overwritable ==> r.0@ == "Save As"@ && r.1@
            == "Save current layout under a new name (presets are read-only)"@,
{
    if overwritable {
        ("Save", "Save changes to current layout")
    } else {
        ("Save As", "Save current layout under a new name (presets are read-only)")
    }
}

/// The saved layout that "Save" overwrites in place: only a user-saved active
/// layout; anything else falls back to Save-As so presets stay read-only.
pub fn overwrite_target(current: &CurrentLayoutKind) -> (r: Option<String>)
    ensures
        r matches Some(n) ==> current@ == CurrentLayoutModel::Saved(n@),
        r is None ==> !(current@ is Saved),
{
    match current {
        CurrentLayoutKind::Saved { name } => Some(name.clone()),
        _ => None,
    }
}

/// Whether deleting the saved layout `deleted` clears the active-layout
/// pointer: exactly when that layout is the active one.
pub fn clears_current(current: &CurrentLayoutKind, deleted: &str) -> (r: bool)
    ensures
        r == (current@ == CurrentLayoutModel::Saved(deleted@)),
{
    match current {
        CurrentLayoutKind::Saved { name } => str_eq(name.as_str(), deleted),
        _ => false,
    }
}

// ---------------------------------------------------------------------------
// Saved-layout operations
// ---------------------------------------------------------------------------

/// Save `state` under `name`, replacing any layout of that name.
pub fn upsert_layout<V>(layouts: &mut SavedLayouts<V>, name: &str, state: V)
    requires
        old(layouts).wf(),
    ensures
        final(layouts).wf(),
        final(layouts).view() == old(layouts).view().insert(name@, state),
{
    layouts.insert(name.to_owned(), state);
}

/// Delete the layout saved under `name`. Returns whether one was removed,
/// i.e. whether the saved layouts must be written back.
pub fn delete_layout<V>(layouts: &mut SavedLayouts<V>, name: &str) -> (changed: bool)
    requires
        old(layouts).wf(),
    ensures
        final(layouts).wf(),
        final(layouts).view() == old(layouts).view().remove(name@),
        changed == old(layouts).view().dom().contains(name@),
{
    layouts.remove(name).is_some()
}

/// Where an applied layout comes from.
pub enum LayoutSource<'a, V> {
    Preset(Preset),
    Saved(&'a V),
}

/// What an "apply layout" request for `id` selects: a preset identifier
/// selects that preset, any other identifier the saved layout of that name,
/// if there is one.
pub enum LayoutRequest<V> {
    Preset(Preset),
    Saved(V),
    Missing,
}

pub open spec fn layout_request<V>(id: Seq<char>, saved: Map<Seq<char>, V>) -> LayoutRequest<V> {
    match preset_for_id(id) {
        Some(p) => LayoutRequest::Preset(p),
        None => if saved.dom().contains(id) {
            LayoutRequest::Saved(saved[id])
        } else {
            LayoutRequest::Missing
        },
    }
}

/// The active layout after applying a preset or saved layout named `id`.
pub open spec fn applied_current<V>(id: Seq<char>, request: LayoutRequest<V>) -> CurrentLayoutModel {
    match request {
        LayoutRequest::Preset(_) => CurrentLayoutModel::Predefined(id),
        _ => CurrentLayoutModel::Saved(id),
    }
}

/// Resolve an "apply layout" request (see [`layout_request`]). `None` when
/// no such saved layout exists; otherwise the source to apply and the new
/// active layout.
pub fn resolve_layout_request<'a, V>(id: &str, layouts: &'a SavedLayouts<V>) -> (r: Option<
    (LayoutSource<'a, V>, CurrentLayoutKind),
>)
    requires
        layouts.wf(),
    ensures
        match r {
            Some((LayoutSource::Preset(p), cur)) => layout_request(id@, layouts.view())
                == LayoutRequest::<V>::Preset(p) && cur@ == applied_current(
                id@,
                layout_request(id@, layouts.view()),
            ),
            Some((LayoutSource::Saved(v), cur)) => layout_request(id@, layouts.view())
                == LayoutRequest::Saved(*v) && cur@ == applied_current(
                id@,
                layout_request(id@, layouts.view()),
            ),
            None => layout_request(id@, layouts.view()) is Missing,
        },
{
    if let Some(p) = Preset::from_id(id) {
        return Some((LayoutSource::Preset(p), CurrentLayoutKind::Predefined { id: id.to_owned() }));
    }
    match layouts.get(id) {
        Some(v) => Some((LayoutSource::Saved(v), CurrentLayoutKind::Saved { name: id.to_owned() })),
        None => None,
    }
}

/// Applying a name right after saving a layout under it brings back that
/// layout and makes it the active, overwritable layout, unless the name is a
/// preset identifier: those always select the preset.
pub proof fn lemma_apply_after_save<V>(
    before: SavedLayouts<V>,
    after: SavedLayouts<V>,
    name: Seq<char>,
    state: V,
)
    requires
        after.view() == before.view().insert(name, state),
        preset_for_id(name) is None,
    ensures
        layout_request(name, after.view()) == LayoutRequest::Saved(state),
        applied_current(name, layout_request(name, after.view())) == CurrentLayoutModel::Saved(name),
{
}

/// After deleting a saved layout, applying its name finds nothing (unless
/// the name is a preset identifier).
pub proof fn lemma_apply_after_delete<V>(before: SavedLayouts<V>, after: SavedLayouts<V>, name: Seq<char>)
    requires
        after.view() == before.view().remove(name),
        preset_for_id(name) is None,
    ensures
        layout_request(name, after.view()) is Missing,
{
}

/// A preset identifier selects its preset whatever layouts are saved.
pub proof fn lemma_presets_win<V>(saved: Map<Seq<char>, V>, p: Preset)
    ensures
        layout_request(preset_id(p), saved) == LayoutRequest::<V>::Preset(p),
{
    lemma_preset_ids_round_trip(p);
}

/// The name under which "Save current layout as" stores the layout: the
/// entered text without surrounding whitespace; `None` when that is empty.
pub fn layout_name_from_input(input: &str) -> (r: Option<String>)
    ensures
        r matches Some(n) ==> n@ == trim_spec(input@) && n@.len() > 0,
        r is None <==> trim_spec(input@).len() == 0,
{
    let t = trim(input);
    if t.unicode_len() == 0 {
        None
    } else {
        Some(t.to_owned())
    }
}


/// The columns of a preset, left to right: the kinds tabbed in each column
/// and the column's fixed width in pixels (`None` takes the remaining space).
pub open spec fn preset_columns_spec(p: Preset) -> Seq<(Seq<Kind>, Option<u32>)> {
    match p {
        Preset::General => seq![
            (seq![Kind::Watchlist], Some(280u32)),
            (seq![Kind::Chart], None),
            (seq![Kind::Details], Some(320u32)),
        ],
        Preset::Fundamental => seq![
            (seq![Kind::Watchlist], Some(260u32)),
            (seq![Kind::Portfolio, Kind::EconomicCalendar], None),
            (seq![Kind::NewsFeed], Some(360u32)),
        ],
        Preset::Technical => seq![
            (seq![Kind::Watchlist], Some(240u32)),
            (seq![Kind::Chart], None),
            (seq![Kind::SmartMoney, Kind::Details], Some(320u32)),
        ],
    }
}

/// No preset places a singleton panel: those are only opened by the toolbar.
pub proof fn lemma_presets_have_no_singletons(p: Preset, c: int, k: int)
    requires
        0 <= c < preset_columns_spec(p).len(),
        0 <= k < preset_columns_spec(p)[c].0.len(),
    ensures
        !kind_is_singleton(preset_columns_spec(p)[c].0[k]),
{
}

impl Preset {
    /// See [`preset_columns_spec`].
    pub fn columns(self) -> (r: Vec<(Vec<Kind>, Option<u32>)>)
        ensures
            r@.len() == preset_columns_spec(self).len(),
            forall|i: int| 0 <= i < r@.len() ==> (#[trigger] r@[i]).0@ == preset_columns_spec(self)[i].0
                && r@[i].1 == preset_columns_spec(self)[i].1,
            self is General ==> r@.len() == 3 && r@[0].0@ == seq![Kind::Watchlist] && r@[0].1 == Some(
                280u32,
            ) && r@[1].0@ == seq![Kind::Chart] && r@[1].1 is None && r@[2].0@ == seq![Kind::Details]
                && r@[2].1 == Some(320u32),
            self is Fundamental ==> r@.len() == 3 && r@[0].0@ == seq![Kind::Watchlist] && r@[0].1
                == Some(260u32) && r@[1].0@ == seq![Kind::Portfolio, Kind::EconomicCalendar]
                && r@[1].1 is None && r@[2].0@ == seq![Kind::NewsFeed] && r@[2].1 == Some(360u32),
            self is Technical ==> r@.len() == 3 && r@[0].0@ == seq![Kind::Watchlist] && r@[0].1 == Some(
                240u32,
            ) && r@[1].0@ == seq![Kind::Chart] && r@[1].1 is None && r@[2].0@ == seq![
                Kind::SmartMoney,
                Kind::Details,
            ] && r@[2].1 == Some(320u32),
    {
        let r = match self {
            Preset::General => vec![
                (vec![Kind::Watchlist], Some(280u32)),
                (vec![Kind::Chart], None),
                (vec![Kind::Details], Some(320u32)),
            ],
            Preset::Fundamental => vec![
                (vec![Kind::Watchlist], Some(260u32)),
                (vec![Kind::Portfolio, Kind::EconomicCalendar], None),
                (vec![Kind::NewsFeed], Some(360u32)),
            ],
            Preset::Technical => vec![
                (vec![Kind::Watchlist], Some(240u32)),
                (vec![Kind::Chart], None),
                (vec![Kind::SmartMoney, Kind::Details], Some(320u32)),
            ],
        };
        proof {
            assert forall|i: int| 0 <= i < r@.len() implies (#[trigger] r@[i]).0@ =~= preset_columns_spec(self)[i].0 by {}
            assert(r@[0].0@ =~= preset_columns_spec(self)[0].0);
            assert(r@[1].0@ =~= preset_columns_spec(self)[1].0);
            assert(r@[2].0@ =~= preset_columns_spec(self)[2].0);
        }
        r
    }
}

/// The active layout after "Reset Layout": the General preset, which is also
/// the default layout when nothing usable is persisted.
pub fn reset_layout_kind() -> (r: CurrentLayoutKind)
    ensures
        r@ == CurrentLayoutModel::Predefined(PRESET_GENERAL@),
{
    CurrentLayoutKind::Predefined { id: PRESET_GENERAL.to_owned() }
}

// ---------------------------------------------------------------------------
// Laws of saved layouts and the active-layout pointer
// ---------------------------------------------------------------------------

/// Reading a layout back after saving it under a name gives that layout, and
/// every other name keeps what it had.
pub proof fn lemma_read_after_upsert<V>(
    before: SavedLayouts<V>,
    after: SavedLayouts<V>,
    name: Seq<char>,
    state: V,
    other: Seq<char>,
)
    requires
        after.view() == before.view().insert(name, state),
    ensures
        after.view().dom().contains(name),
        after.view()[name] == state,
        other != name ==> after.view().dom().contains(other) == before.view().dom().contains(other),
        other != name && before.view().dom().contains(other) ==> after.view()[other]
            == before.view()[other],
{
}

/// After deleting a name nothing is saved under it, and every other name
/// keeps what it had.
pub proof fn lemma_read_after_delete<V>(
    before: SavedLayouts<V>,
    after: SavedLayouts<V>,
    name: Seq<char>,
    other: Seq<char>,
)
    requires
        after.view() == before.view().remove(name),
    ensures
        !after.view().dom().contains(name),
        other != name ==> after.view().dom().contains(other) == before.view().dom().contains(other),
        other != name && before.view().dom().contains(other) ==> after.view()[other]
            == before.view()[other],
{
}

/// Saving a layout under a new name and deleting it again restores the saved
/// layouts.
pub proof fn lemma_delete_undoes_new_upsert<V>(
    before: SavedLayouts<V>,
    mid: SavedLayouts<V>,
    after: SavedLayouts<V>,
    name: Seq<char>,
    state: V,
)
    requires
        !before.view().dom().contains(name),
        mid.view() == before.view().insert(name, state),
        after.view() == mid.view().remove(name),
    ensures
        after.view() == before.view(),
{
    assert(after.view() =~= before.view());
}

/// Making the same layout active twice reports a change at most once: the
/// second call finds it already active, so nothing is persisted again.
pub proof fn lemma_set_current_layout_settles(
    first_before: CurrentLayoutModel,
    first_after: CurrentLayoutModel,
    second_after: CurrentLayoutModel,
    layout: CurrentLayoutModel,
    second_changed: bool,
)
    requires
        first_after == layout,
        second_after == layout,
        second_changed == (first_after != layout),
    ensures
        !second_changed,
        second_after == first_after,
{
}

proof fn lemma_sorted_no_duplicates(s: Seq<Seq<char>>)
    requires
        strictly_sorted(s),
    ensures
        s.no_duplicates(),
{
    assert forall|i: int, j: int| 0 <= i < s.len() && 0 <= j < s.len() && i != j implies s[i] != s[j] by {
        if i < j {
            assert(seq_lt(s[i], s[j]));
            lemma_seq_lt_irreflexive(s[i]);
        } else {
            assert(seq_lt(s[j], s[i]));
            lemma_seq_lt_irreflexive(s[j]);
        }
    }
}

} // verus!
