//! Persisted dock layouts and the removal of toolbar-managed (singleton)
//! panels from them before they are written out.
//!
//! A layout is a tree of panel states. Containers are horizontal/vertical
//! stacks (with one size per child) and tab groups (with an active tab);
//! leaves are individual panels identified by their kind's identifier. Pixel
//! sizes, panel payloads and tile metadata are carried through unchanged, so
//! they are type parameters here.
use vstd::prelude::*;

use crate::panels::{Kind, kind_for_id, kind_is_singleton};

verus! {

/// Layout format version written with every persisted dock layout.
pub const LAYOUT_VERSION: usize = 1;

/// What a node of the layout tree is.
pub enum PanelInfo<S, P, T> {
    /// A split container; `sizes` holds the sizes of (a prefix of) its children.
    Stack { sizes: Vec<S>, axis: usize },
    /// A tab group showing child `active_index`.
    Tabs { active_index: usize },
    /// A single panel with its serialized payload.
    Panel(P),
    /// A free-form tiles area.
    Tiles(T),
}

/// One node of a persisted layout tree.
pub struct PanelState<S, P, T> {
    pub panel_name: String,
    pub children: Vec<PanelState<S, P, T>>,
    pub info: PanelInfo<S, P, T>,
}

/// A whole persisted dock area: format version, the center tree and the side
/// docks (carried through untouched).
pub struct DockAreaState<S, P, T, D> {
    pub version: Option<usize>,
    pub center: PanelState<S, P, T>,
    pub docks: D,
}

/// Mathematical model of [`PanelInfo`].
pub enum InfoModel<S, P, T> {
    Stack { sizes: Seq<S>, axis: usize },
    Tabs { active_index: usize },
    Panel(P),
    Tiles(T),
}

/// Mathematical model of a layout tree node.
pub struct PanelNode<S, P, T> {
    pub name: Seq<char>,
    pub children: Seq<PanelNode<S, P, T>>,
    pub info: InfoModel<S, P, T>,
}

pub open spec fn info_model<S, P, T>(info: PanelInfo<S, P, T>) -> InfoModel<S, P, T> {
    match info {
        PanelInfo::Stack { sizes, axis } => InfoModel::Stack { sizes: sizes@, axis },
        PanelInfo::Tabs { active_index } => InfoModel::Tabs { active_index },
        PanelInfo::Panel(p) => InfoModel::Panel(p),
        PanelInfo::Tiles(t) => InfoModel::Tiles(t),
    }
}

impl<S, P, T> PanelState<S, P, T> {
    pub open spec fn model(self) -> PanelNode<S, P, T>
        decreases self,
    {
        PanelNode {
            name: self.panel_name@,
            children: models(self.children@),
            info: info_model(self.info),
        }
    }
}

/// Models of a sequence of nodes.
pub open spec fn models<S, P, T>(cs: Seq<PanelState<S, P, T>>) -> Seq<PanelNode<S, P, T>>
    decreases cs,
{
    if cs.len() == 0 {
        Seq::empty()
    } else {
        models(cs.drop_last()).push(cs.last().model())
    }
}

proof fn lemma_models<S, P, T>(cs: Seq<PanelState<S, P, T>>)
    ensures
        models(cs).len() == cs.len(),
        forall|i: int| 0 <= i < cs.len() ==> #[trigger] models(cs)[i] == cs[i].model(),
    decreases cs.len(),
{
    if cs.len() > 0 {
        lemma_models(cs.drop_last());
    }
}

/// Model of an optional node.
pub open spec fn option_model<S, P, T>(o: Option<PanelState<S, P, T>>) -> Option<PanelNode<S, P, T>> {
    match o {
        Some(s) => Some(s.model()),
        None => None,
    }
}

/// The name is the identifier of a singleton kind.
pub open spec fn name_is_singleton(name: Seq<char>) -> bool {
    match kind_for_id(name) {
        Some(k) => kind_is_singleton(k),
        None => false,
    }
}

/// A leaf panel of a singleton kind: exactly what pruning removes.
pub open spec fn is_singleton_leaf<S, P, T>(n: PanelNode<S, P, T>) -> bool {
    &&& n.children.len() == 0
    &&& n.info is Panel
    &&& name_is_singleton(n.name)
}

/// Stack and tab containers.
pub open spec fn is_container<S, P, T>(n: PanelNode<S, P, T>) -> bool {
    n.info is Stack || n.info is Tabs
}

/// The sizes a node carries for its children (none unless it is a stack).
pub open spec fn node_sizes<S, P, T>(n: PanelNode<S, P, T>) -> Seq<S> {
    match n.info {
        InfoModel::Stack { sizes, .. } => sizes,
        _ => Seq::empty(),
    }
}

/// The pruned children that survive, in order.
pub open spec fn kept_children<S, P, T>(cs: Seq<PanelNode<S, P, T>>) -> Seq<PanelNode<S, P, T>>
    decreases cs, 0int,
{
    if cs.len() == 0 {
        Seq::empty()
    } else {
        let prev = kept_children(cs.drop_last());
        match pruned(cs.last()) {
            Some(p) => prev.push(p),
            None => prev,
        }
    }
}

/// The sizes of the surviving children: child `i` keeps `sizes[i]` when the
/// given sizes reach that far.
pub open spec fn kept_sizes<S, P, T>(cs: Seq<PanelNode<S, P, T>>, sizes: Seq<S>) -> Seq<S>
    decreases cs, 0int,
{
    if cs.len() == 0 {
        Seq::empty()
    } else {
        let prev = kept_sizes(cs.drop_last(), sizes);
        if pruned(cs.last()) is Some && cs.len() - 1 < sizes.len() {
            prev.push(sizes[cs.len() - 1])
        } else {
            prev
        }
    }
}

/// Remove every singleton leaf panel from a layout tree. Stacks and tab
/// groups left without children disappear too; stacks keep the sizes of
/// their surviving children and tab groups clamp their active tab.
pub open spec fn pruned<S, P, T>(n: PanelNode<S, P, T>) -> Option<PanelNode<S, P, T>>
    decreases n, 1int,
{
    if is_singleton_leaf(n) {
        None
    } else {
        let kids = kept_children(n.children);
        if is_container(n) && kids.len() == 0 {
            None
        } else {
            let info = match n.info {
                InfoModel::Stack { sizes, axis } => InfoModel::Stack {
                    sizes: kept_sizes(n.children, sizes),
                    axis,
                },
                InfoModel::Tabs { active_index } => InfoModel::Tabs {
                    active_index: if active_index < kids.len() {
                        active_index
                    } else {
                        (kids.len() - 1) as usize
                    },
                },
                other => other,
            };
            Some(PanelNode { name: n.name, children: kids, info })
        }
    }
}

/// Some panel node in the tree (at any depth) is of a singleton kind.
pub open spec fn has_singleton<S, P, T>(n: PanelNode<S, P, T>) -> bool
    decreases n,
{
    ||| (n.info is Panel && name_is_singleton(n.name))
    ||| exists|i: int| 0 <= i < n.children.len() && has_singleton(#[trigger] n.children[i])
}

/// Whether pruning the node leaves nothing at all.
pub open spec fn vanishes<S, P, T>(n: PanelNode<S, P, T>) -> bool {
    pruned(n) is None
}

proof fn lemma_kept_children_empty<S, P, T>(cs: Seq<PanelNode<S, P, T>>)
    ensures
        kept_children(cs).len() == 0 <==> forall|i: int| 0 <= i < cs.len() ==> #[trigger] pruned(cs[i]) is None,
    decreases cs.len(),
{
    if cs.len() > 0 {
        lemma_kept_children_empty(cs.drop_last());
        if kept_children(cs).len() == 0 {
            assert forall|i: int| 0 <= i < cs.len() implies #[trigger] pruned(cs[i]) is None by {
                if i < cs.len() - 1 {
                    assert(cs.drop_last()[i] == cs[i]);
                }
            }
        } else {
            if forall|i: int| 0 <= i < cs.len() ==> #[trigger] pruned(cs[i]) is None {
                assert forall|i: int| 0 <= i < cs.drop_last().len() implies #[trigger] pruned(cs.drop_last()[i]) is None by {
                    assert(cs.drop_last()[i] == cs[i]);
                }
                assert(pruned(cs[cs.len() - 1]) is None);
            }
        }
    }
}


// ---------------------------------------------------------------------------
// Shape predicates and the laws of pruning
// ---------------------------------------------------------------------------

/// Every panel node is a leaf, as in layouts written by a dock area.
pub open spec fn panels_are_leaves<S, P, T>(n: PanelNode<S, P, T>) -> bool
    decreases n,
{
    &&& (n.info is Panel ==> n.children.len() == 0)
    &&& forall|i: int| 0 <= i < n.children.len() ==> panels_are_leaves(#[trigger] n.children[i])
}

/// No node of the tree is a singleton leaf panel.
pub open spec fn no_singleton_leaf<S, P, T>(n: PanelNode<S, P, T>) -> bool
    decreases n,
{
    &&& !is_singleton_leaf(n)
    &&& forall|i: int| 0 <= i < n.children.len() ==> no_singleton_leaf(#[trigger] n.children[i])
}

/// Containers are non-empty, tab groups point at an existing tab and stacks
/// carry at most one size per child, at every depth.
pub open spec fn containers_sound<S, P, T>(n: PanelNode<S, P, T>) -> bool
    decreases n,
{
    &&& (is_container(n) ==> n.children.len() > 0)
    &&& (n.info matches InfoModel::Tabs { active_index } ==> active_index < n.children.len())
    &&& (n.info matches InfoModel::Stack { sizes, .. } ==> sizes.len() <= n.children.len())
    &&& forall|i: int| 0 <= i < n.children.len() ==> containers_sound(#[trigger] n.children[i])
}

/// Names of the panel nodes of a tree, in pre-order.
pub open spec fn panel_names<S, P, T>(n: PanelNode<S, P, T>) -> Seq<Seq<char>>
    decreases n, 1int,
{
    let own = if n.info is Panel {
        seq![n.name]
    } else {
        Seq::<Seq<char>>::empty()
    };
    own + panel_names_of(n.children)
}

/// Names of the panel nodes of a sequence of trees, in order.
pub open spec fn panel_names_of<S, P, T>(cs: Seq<PanelNode<S, P, T>>) -> Seq<Seq<char>>
    decreases cs, 0int,
{
    if cs.len() == 0 {
        Seq::empty()
    } else {
        panel_names_of(cs.drop_last()) + panel_names(cs.last())
    }
}

/// Panel names of an optional tree (none for an absent one).
pub open spec fn panel_names_opt<S, P, T>(o: Option<PanelNode<S, P, T>>) -> Seq<Seq<char>> {
    match o {
        Some(n) => panel_names(n),
        None => Seq::empty(),
    }
}

/// The names that are not identifiers of singleton kinds, in order.
pub open spec fn regular_names(s: Seq<Seq<char>>) -> Seq<Seq<char>>
    decreases s.len(),
{
    if s.len() == 0 {
        s
    } else if name_is_singleton(s.last()) {
        regular_names(s.drop_last())
    } else {
        regular_names(s.drop_last()).push(s.last())
    }
}

proof fn lemma_regular_names_add(a: Seq<Seq<char>>, b: Seq<Seq<char>>)
    ensures
        regular_names(a + b) == regular_names(a) + regular_names(b),
    decreases b.len(),
{
    if b.len() == 0 {
        assert(a + b =~= a);
        assert(regular_names(a) + regular_names(b) =~= regular_names(a));
    } else {
        lemma_regular_names_add(a, b.drop_last());
        assert((a + b).drop_last() =~= a + b.drop_last());
        assert((a + b).last() == b.last());
        if name_is_singleton(b.last()) {
        } else {
            assert(regular_names(a) + regular_names(b.drop_last()).push(b.last()) =~= (
            regular_names(a) + regular_names(b.drop_last())).push(b.last()));
        }
    }
}

pub proof fn lemma_regular_names_idempotent(s: Seq<Seq<char>>)
    ensures
        regular_names(regular_names(s)) == regular_names(s),
    decreases s.len(),
{
    if s.len() > 0 {
        lemma_regular_names_idempotent(s.drop_last());
        if !name_is_singleton(s.last()) {
            let r = regular_names(s.drop_last()).push(s.last());
            assert(r.drop_last() =~= regular_names(s.drop_last()));
        }
    }
}

/// Every surviving child is the pruning of some input child.
proof fn lemma_kept_children_from<S, P, T>(cs: Seq<PanelNode<S, P, T>>)
    ensures
        forall|k: int|
            0 <= k < kept_children(cs).len() ==> exists|j: int|
                0 <= j < cs.len() && pruned(#[trigger] cs[j]) == Some(
                    #[trigger] kept_children(cs)[k],
                ),
    decreases cs.len(),
{
    if cs.len() > 0 {
        lemma_kept_children_from(cs.drop_last());
        let prev = kept_children(cs.drop_last());
        assert forall|k: int| 0 <= k < kept_children(cs).len() implies exists|j: int|
            0 <= j < cs.len() && pruned(#[trigger] cs[j]) == Some(
                #[trigger] kept_children(cs)[k],
            ) by {
            if k < prev.len() {
                let j = choose|j: int|
                    0 <= j < cs.drop_last().len() && pruned(#[trigger] cs.drop_last()[j]) == Some(
                        #[trigger] prev[k],
                    );
                assert(cs[j] == cs.drop_last()[j]);
                assert(kept_children(cs)[k] == prev[k]);
            } else {
                assert(pruned(cs[cs.len() - 1]) == Some(kept_children(cs)[k]));
            }
        }
    }
}

proof fn lemma_kept_sizes_len<S, P, T>(cs: Seq<PanelNode<S, P, T>>, sizes: Seq<S>)
    ensures
        kept_sizes(cs, sizes).len() <= kept_children(cs).len(),
    decreases cs.len(),
{
    if cs.len() > 0 {
        lemma_kept_sizes_len(cs.drop_last(), sizes);
    }
}

/// Pruning leaves a sound tree: no stack or tab group is empty, every tab
/// group's active tab exists and no stack has more sizes than children. When
/// every panel node of the input is a leaf, the same holds of the output and
/// no singleton panel is left at all.
pub proof fn lemma_pruned_is_clean<S, P, T>(n: PanelNode<S, P, T>)
    ensures
        pruned(n) matches Some(r) ==> containers_sound(r),
        pruned(n) matches Some(r) ==> (panels_are_leaves(n) ==> panels_are_leaves(r)
            && no_singleton_leaf(r) && !has_singleton(r)),
    decreases n,
{
    if let Some(r) = pruned(n) {
        let kids = kept_children(n.children);
        lemma_kept_children_from(n.children);
        lemma_kept_sizes_len(n.children, node_sizes(n));
        assert forall|k: int| 0 <= k < kids.len() implies {
            &&& containers_sound(#[trigger] kids[k])
            &&& (panels_are_leaves(n) ==> panels_are_leaves(kids[k]) && no_singleton_leaf(kids[k])
                && !has_singleton(kids[k]))
        } by {
            let j = choose|j: int|
                0 <= j < n.children.len() && pruned(#[trigger] n.children[j]) == Some(
                    #[trigger] kids[k],
                );
            lemma_pruned_is_clean(n.children[j]);
        }
        assert(r.children == kids);
        if panels_are_leaves(n) {
            if r.info is Panel {
                assert(n.info is Panel);
                assert(n.children.len() == 0);
                assert(!name_is_singleton(n.name));
            }
            assert(!has_singleton(r));
        }
    }
}

/// Pruning a pruned layout changes nothing more (for layouts whose panel nodes
/// are leaves).
pub proof fn lemma_prune_idempotent<S, P, T>(n: PanelNode<S, P, T>)
    requires
        panels_are_leaves(n),
    ensures
        pruned(n) matches Some(r) ==> pruned(r) == Some(r),
    decreases n,
{
    if let Some(r) = pruned(n) {
        let kids = kept_children(n.children);
        lemma_kept_children_from(n.children);
        lemma_kept_sizes_len(n.children, node_sizes(n));
        assert forall|k: int| 0 <= k < kids.len() implies pruned(#[trigger] kids[k]) == Some(
            kids[k],
        ) by {
            let j = choose|j: int|
                0 <= j < n.children.len() && pruned(#[trigger] n.children[j]) == Some(
                    #[trigger] kids[k],
                );
            lemma_prune_idempotent(n.children[j]);
        }
        lemma_kept_all(kids, node_sizes(r));
        lemma_pruned_is_clean(n);
        assert(!is_singleton_leaf(r));
        assert(kept_children(r.children) == r.children);
        match r.info {
            InfoModel::Stack { sizes, axis } => {
                assert(kept_sizes(r.children, sizes) =~= sizes);
            },
            InfoModel::Tabs { active_index } => {},
            _ => {},
        }
        assert(pruned(r) =~= Some(r));
    }
}


/// A sound layout without singleton leaves is its own pruning: pruning only
/// ever removes singleton leaves and what they leave empty.
pub proof fn lemma_prune_identity_on_clean<S, P, T>(n: PanelNode<S, P, T>)
    requires
        containers_sound(n),
        no_singleton_leaf(n),
    ensures
        pruned(n) == Some(n),
    decreases n,
{
    assert forall|k: int| 0 <= k < n.children.len() implies pruned(#[trigger] n.children[k]) == Some(
        n.children[k],
    ) by {
        lemma_prune_identity_on_clean(n.children[k]);
    }
    lemma_kept_all(n.children, node_sizes(n));
    match n.info {
        InfoModel::Stack { sizes, axis } => {
            assert(kept_sizes(n.children, sizes) == sizes);
        },
        _ => {},
    }
    assert(pruned(n) =~= Some(n));
}

/// When every node survives pruning unchanged, the children and the leading
/// sizes are all kept.
proof fn lemma_kept_all<S, P, T>(cs: Seq<PanelNode<S, P, T>>, sizes: Seq<S>)
    requires
        forall|k: int| 0 <= k < cs.len() ==> pruned(#[trigger] cs[k]) == Some(cs[k]),
    ensures
        kept_children(cs) == cs,
        sizes.len() <= cs.len() ==> kept_sizes(cs, sizes) == sizes,
        kept_sizes(cs, sizes) == sizes.take(if sizes.len() <= cs.len() { sizes.len() as int } else { cs.len() as int }),
    decreases cs.len(),
{
    if cs.len() == 0 {
        assert(kept_children(cs) =~= cs);
        assert(sizes.take(0) =~= Seq::<S>::empty());
    } else {
        assert forall|k: int| 0 <= k < cs.drop_last().len() implies pruned(#[trigger] cs.drop_last()[k]) == Some(cs.drop_last()[k]) by {
            assert(cs.drop_last()[k] == cs[k]);
        }
        lemma_kept_all(cs.drop_last(), sizes);
        assert(pruned(cs[cs.len() - 1]) == Some(cs.last()));
        assert(cs.drop_last().push(cs.last()) =~= cs);
        if cs.len() - 1 < sizes.len() {
            assert(sizes.take(cs.len() - 1).push(sizes[cs.len() - 1]) =~= sizes.take(cs.len() as int));
        }
        if sizes.len() <= cs.len() {
            assert(sizes.take(sizes.len() as int) =~= sizes);
        }
    }
}

/// Pruning keeps exactly the panels that are not singletons, in their
/// input order (for layouts whose panel nodes are leaves).
pub proof fn lemma_prune_keeps_regular_panels<S, P, T>(n: PanelNode<S, P, T>)
    requires
        panels_are_leaves(n),
    ensures
        panel_names_opt(pruned(n)) == regular_names(panel_names(n)),
    decreases n,
{
    let own = if n.info is Panel {
        seq![n.name]
    } else {
        Seq::<Seq<char>>::empty()
    };
    if is_singleton_leaf(n) {
        assert(panel_names_of(n.children) =~= Seq::<Seq<char>>::empty());
        assert(panel_names(n) =~= seq![n.name]);
        assert(seq![n.name].drop_last() =~= Seq::<Seq<char>>::empty());
        assert(regular_names(panel_names(n)) =~= Seq::<Seq<char>>::empty());
    } else {
        assert forall|k: int| 0 <= k < n.children.len() implies panel_names_opt(
            pruned(#[trigger] n.children[k]),
        ) == regular_names(panel_names(n.children[k])) by {
            lemma_prune_keeps_regular_panels(n.children[k]);
        }
        lemma_kept_names(n.children);
        lemma_regular_names_add(own, panel_names_of(n.children));
        if n.info is Panel {
            assert(n.children.len() == 0);
            assert(!name_is_singleton(n.name));
            assert(own.drop_last() =~= Seq::<Seq<char>>::empty());
            assert(regular_names(own) =~= own);
        } else {
            assert(regular_names(own) =~= own);
        }
        let kids = kept_children(n.children);
        if is_container(n) && kids.len() == 0 {
            assert(panel_names_of(kids) =~= Seq::<Seq<char>>::empty());
            assert(regular_names(panel_names(n)) =~= Seq::<Seq<char>>::empty());
        } else {
            let r = pruned(n)->0;
            assert(r.children == kids);
            assert(r.info is Panel <==> n.info is Panel);
            assert(panel_names(r) =~= own + panel_names_of(kids));
        }
    }
}

/// The panel names of the surviving children are the regular names of the
/// input children, given that this holds child by child.
proof fn lemma_kept_names<S, P, T>(cs: Seq<PanelNode<S, P, T>>)
    requires
        forall|k: int| 0 <= k < cs.len() ==> panel_names_opt(pruned(#[trigger] cs[k])) == regular_names(
            panel_names(cs[k]),
        ),
    ensures
        panel_names_of(kept_children(cs)) == regular_names(panel_names_of(cs)),
    decreases cs.len(),
{
    if cs.len() == 0 {
        assert(regular_names(Seq::<Seq<char>>::empty()) =~= Seq::<Seq<char>>::empty());
    } else {
        assert forall|k: int| 0 <= k < cs.drop_last().len() implies panel_names_opt(
            pruned(#[trigger] cs.drop_last()[k]),
        ) == regular_names(panel_names(cs.drop_last()[k])) by {
            assert(cs.drop_last()[k] == cs[k]);
        }
        lemma_kept_names(cs.drop_last());
        lemma_regular_names_add(panel_names_of(cs.drop_last()), panel_names(cs.last()));
        assert(panel_names_opt(pruned(cs[cs.len() - 1])) == regular_names(panel_names(cs.last())));
        let prev = kept_children(cs.drop_last());
        match pruned(cs.last()) {
            Some(p) => {
                assert(prev.push(p).drop_last() =~= prev);
            },
            None => {
                assert(regular_names(panel_names(cs.last())) =~= Seq::<Seq<char>>::empty());
                assert(panel_names_of(prev) + Seq::<Seq<char>>::empty() =~= panel_names_of(prev));
            },
        }
    }
}

/// What is persisted never loses a panel that is not a singleton, and keeps
/// their order: the regular panels of the persisted center are those of the
/// live center.
pub proof fn lemma_persisted_center_keeps_regular_panels<S, P, T>(c: PanelNode<S, P, T>)
    requires
        panels_are_leaves(c),
    ensures
        regular_names(panel_names(center_without_singletons(c))) == regular_names(panel_names(c)),
        pruned(c) is Some ==> !has_singleton(center_without_singletons(c)),
{
    lemma_pruned_is_clean(c);
    if has_singleton(c) {
        if let Some(p) = pruned(c) {
            lemma_prune_keeps_regular_panels(c);
            lemma_regular_names_idempotent(panel_names(c));
        }
    }
}

/// Some name of the sequence is the identifier of a singleton kind.
pub open spec fn names_have_singleton(names: Seq<Seq<char>>) -> bool {
    exists|i: int| 0 <= i < names.len() && name_is_singleton(#[trigger] names[i])
}

proof fn lemma_names_have_singleton_add(a: Seq<Seq<char>>, b: Seq<Seq<char>>)
    ensures
        names_have_singleton(a + b) == (names_have_singleton(a) || names_have_singleton(b)),
{
    if names_have_singleton(a + b) {
        let i = choose|i: int| 0 <= i < (a + b).len() && name_is_singleton(#[trigger] (a + b)[i]);
        if i < a.len() {
            assert(a[i] == (a + b)[i]);
        } else {
            assert(b[i - a.len()] == (a + b)[i]);
        }
    }
    if names_have_singleton(a) {
        let i = choose|i: int| 0 <= i < a.len() && name_is_singleton(#[trigger] a[i]);
        assert((a + b)[i] == a[i]);
    }
    if names_have_singleton(b) {
        let i = choose|i: int| 0 <= i < b.len() && name_is_singleton(#[trigger] b[i]);
        assert((a + b)[a.len() + i] == b[i]);
    }
}

/// The names of a sequence of trees hold a singleton identifier exactly when
/// some tree does, given that this holds tree by tree.
proof fn lemma_names_of_have_singleton<S, P, T>(cs: Seq<PanelNode<S, P, T>>)
    requires
        forall|k: int| 0 <= k < cs.len() ==> has_singleton(#[trigger] cs[k]) == names_have_singleton(
            panel_names(cs[k]),
        ),
    ensures
        names_have_singleton(panel_names_of(cs)) == exists|k: int| 0 <= k < cs.len() && has_singleton(
            #[trigger] cs[k],
        ),
    decreases cs.len(),
{
    if cs.len() == 0 {
        assert(!names_have_singleton(Seq::<Seq<char>>::empty()));
    } else {
        let front = cs.drop_last();
        assert forall|k: int| 0 <= k < front.len() implies has_singleton(#[trigger] front[k])
            == names_have_singleton(panel_names(front[k])) by {
            assert(front[k] == cs[k]);
        }
        lemma_names_of_have_singleton(front);
        lemma_names_have_singleton_add(panel_names_of(front), panel_names(cs.last()));
        assert(has_singleton(cs[cs.len() - 1]) == names_have_singleton(panel_names(cs.last())));
        if exists|k: int| 0 <= k < cs.len() && has_singleton(#[trigger] cs[k]) {
            let k = choose|k: int| 0 <= k < cs.len() && has_singleton(#[trigger] cs[k]);
            if k < cs.len() - 1 {
                assert(front[k] == cs[k]);
            }
        }
        if exists|k: int| 0 <= k < front.len() && has_singleton(#[trigger] front[k]) {
            let k = choose|k: int| 0 <= k < front.len() && has_singleton(#[trigger] front[k]);
            assert(front[k] == cs[k]);
        }
    }
}

/// A tree holds a singleton panel at some depth exactly when one of its panel
/// names is the identifier of a singleton kind.
pub proof fn lemma_has_singleton_iff_names<S, P, T>(n: PanelNode<S, P, T>)
    ensures
        has_singleton(n) == names_have_singleton(panel_names(n)),
    decreases n,
{
    assert forall|k: int| 0 <= k < n.children.len() implies has_singleton(#[trigger] n.children[k])
        == names_have_singleton(panel_names(n.children[k])) by {
        lemma_has_singleton_iff_names(n.children[k]);
    }
    lemma_names_of_have_singleton(n.children);
    let own = if n.info is Panel {
        seq![n.name]
    } else {
        Seq::<Seq<char>>::empty()
    };
    lemma_names_have_singleton_add(own, panel_names_of(n.children));
    if n.info is Panel {
        assert(own[0] == n.name);
        if names_have_singleton(own) {
            let i = choose|i: int| 0 <= i < own.len() && name_is_singleton(#[trigger] own[i]);
            assert(i == 0);
        }
    } else {
        assert(!names_have_singleton(own));
    }
}

/// No regular name is the identifier of a singleton kind, and a sequence
/// without such identifiers is its own regular part.
pub proof fn lemma_regular_names_have_no_singleton(s: Seq<Seq<char>>)
    ensures
        !names_have_singleton(regular_names(s)),
        !names_have_singleton(s) ==> regular_names(s) == s,
    decreases s.len(),
{
    if s.len() == 0 {
        assert(!names_have_singleton(regular_names(s)));
    } else {
        lemma_regular_names_have_no_singleton(s.drop_last());
        let prev = regular_names(s.drop_last());
        if !name_is_singleton(s.last()) {
            let r = prev.push(s.last());
            if names_have_singleton(r) {
                let i = choose|i: int| 0 <= i < r.len() && name_is_singleton(#[trigger] r[i]);
                if i < prev.len() {
                    assert(r[i] == prev[i]);
                }
            }
        }
        if !names_have_singleton(s) {
            assert forall|i: int| 0 <= i < s.drop_last().len() implies !name_is_singleton(
                #[trigger] s.drop_last()[i],
            ) by {
                assert(s.drop_last()[i] == s[i]);
            }
            assert(!name_is_singleton(s[s.len() - 1]));
            assert(s.drop_last().push(s.last()) =~= s);
        }
    }
}

/// What is persisted holds no singleton panel at any depth whenever pruning
/// leaves anything of the live center: all of its panel names are regular,
/// and they are the regular names of the live center, in order.
pub proof fn lemma_persisted_center_has_no_singleton<S, P, T>(c: PanelNode<S, P, T>)
    requires
        panels_are_leaves(c),
        pruned(c) is Some,
    ensures
        !names_have_singleton(panel_names(center_without_singletons(c))),
        regular_names(panel_names(center_without_singletons(c))) == panel_names(
            center_without_singletons(c),
        ),
        panel_names(center_without_singletons(c)) == regular_names(panel_names(c)),
{
    lemma_has_singleton_iff_names(c);
    lemma_prune_keeps_regular_panels(c);
    lemma_regular_names_have_no_singleton(panel_names(c));
    lemma_regular_names_have_no_singleton(panel_names(center_without_singletons(c)));
}

/// Whether `name` is the identifier of a singleton kind.
fn is_singleton_name(name: &String) -> (r: bool)
    ensures
        r == name_is_singleton(name@),
{
    match Kind::from_id(name.as_str()) {
        Some(k) => k.is_singleton(),
        None => false,
    }
}

/// Whether pruning `state` would leave nothing at all.
pub fn prunes_to_nothing<S, P, T>(state: &PanelState<S, P, T>) -> (r: bool)
    ensures
        r == vanishes(state.model()),
    decreases state,
{
    let leaf = state.children.len() == 0 && matches!(state.info, PanelInfo::Panel(_))
        && is_singleton_name(&state.panel_name);
    proof {
        lemma_models(state.children@);
    }
    if leaf {
        return true;
    }
    let container = matches!(state.info, PanelInfo::Stack { .. } | PanelInfo::Tabs { .. });
    if !container {
        return false;
    }
    let mut i: usize = 0;
    while i < state.children.len()
        invariant
            i <= state.children@.len(),
            models(state.children@).len() == state.children@.len(),
            forall|j: int| 0 <= j < state.children@.len() ==> #[trigger] models(state.children@)[j] == state.children@[j].model(),
            forall|j: int| 0 <= j < i ==> #[trigger] pruned(models(state.children@)[j]) is None,
        decreases state.children@.len() - i,
    {
        if !prunes_to_nothing(&state.children[i]) {
            proof {
                lemma_kept_children_empty(models(state.children@));
                assert(pruned(models(state.children@)[i as int]) is Some);
                assert(kept_children(state.model().children).len() > 0);
            }
            return false;
        }
        i = i + 1;
    }
    proof {
        lemma_kept_children_empty(models(state.children@));
    }
    true
}

/// Drop singleton panel leaves from a layout tree (see [`pruned`]). `None`
/// when nothing of the tree survives.
pub fn prune_singletons_from_state<S: Copy, P, T>(state: PanelState<S, P, T>) -> (r: Option<
    PanelState<S, P, T>,
>)
    ensures
        option_model(r) == pruned(state.model()),
    decreases state,
{
    let ghost n = state.model();
    let ghost st = state;
    proof {
        lemma_models(state.children@);
        assert forall|j: int| 0 <= j < state.children@.len() implies decreases_to!(st => #[trigger] st.children@[j]) by {
            assert(decreases_to!(st => st.children));
            assert(decreases_to!(st.children => st.children@));
            assert(decreases_to!(st.children@ => st.children@[j]));
        }
    }
    if state.children.len() == 0 && matches!(state.info, PanelInfo::Panel(_))
        && is_singleton_name(&state.panel_name) {
        return None;
    }
    let PanelState { panel_name, children, info } = state;
    let ghost orig = children@;
    let ghost sizes_model = node_sizes(n);
    let mut kept: Vec<PanelState<S, P, T>> = Vec::new();
    let mut kept_szs: Vec<S> = Vec::new();
    let mut rest = children;
    let n_children: usize = rest.len();
    let mut i: usize = 0;
    while rest.len() > 0
        invariant
            rest@ == orig.skip(i as int),
            i <= orig.len(),
            orig.len() == n_children,
            n.children == models(orig),
            models(orig).len() == orig.len(),
            forall|j: int| 0 <= j < orig.len() ==> #[trigger] models(orig)[j] == orig[j].model(),
            orig == st.children@,
            st == state,
            forall|j: int| 0 <= j < orig.len() ==> decreases_to!(st => #[trigger] orig[j]),
            sizes_model == node_sizes(n),
            sizes_model == match info {
                PanelInfo::Stack { sizes, .. } => sizes@,
                _ => Seq::<S>::empty(),
            },
            models(kept@) == kept_children(models(orig).take(i as int)),
            kept_szs@ == kept_sizes(models(orig).take(i as int), sizes_model),
        decreases rest.len(),
    {
        assert(i < orig.len());
        let child = rest.remove(0);
        assert(child == orig[i as int]);
        assert(decreases_to!(st => child));
        let r = prune_singletons_from_state(child);
        proof {
            let cs = models(orig).take(i as int + 1);
            assert(cs.drop_last() =~= models(orig).take(i as int));
            assert(cs.last() == orig[i as int].model());
            lemma_models(kept@);
        }
        match r {
            Some(p) => {
                let ghost old_kept = kept@;
                kept.push(p);
                proof {
                    lemma_models(kept@);
                    assert(kept@.drop_last() =~= old_kept);
                }
                match &info {
                    PanelInfo::Stack { sizes, .. } => {
                        if i < sizes.len() {
                            kept_szs.push(sizes[i]);
                        }
                    },
                    _ => {},
                }
            },
            None => {},
        }
        i = i + 1;
        proof {
            assert(rest@ =~= orig.skip(i as int));
        }
    }
    proof {
        assert(models(orig).take(i as int) =~= models(orig));
        lemma_models(kept@);
    }
    let container = matches!(info, PanelInfo::Stack { .. } | PanelInfo::Tabs { .. });
    if container && kept.len() == 0 {
        return None;
    }
    let new_info = match info {
        PanelInfo::Stack { axis, .. } => PanelInfo::Stack { sizes: kept_szs, axis },
        PanelInfo::Tabs { active_index } => {
            let max_ix: usize = if kept.len() > 0 { kept.len() - 1 } else { 0 };
            PanelInfo::Tabs { active_index: if active_index < max_ix { active_index } else { max_ix } }
        },
        other => other,
    };
    Some(PanelState { panel_name, children: kept, info: new_info })
}

/// Whether any panel node in the tree is of a singleton kind.
pub fn panel_tree_has_singleton<S, P, T>(state: &PanelState<S, P, T>) -> (r: bool)
    ensures
        r == has_singleton(state.model()),
        r == names_have_singleton(panel_names(state.model())),
    decreases state,
{
    proof {
        lemma_models(state.children@);
        lemma_has_singleton_iff_names(state.model());
    }
    if matches!(state.info, PanelInfo::Panel(_)) && is_singleton_name(&state.panel_name) {
        return true;
    }
    let mut i: usize = 0;
    while i < state.children.len()
        invariant
            i <= state.children@.len(),
            models(state.children@).len() == state.children@.len(),
            forall|j: int| 0 <= j < state.children@.len() ==> #[trigger] models(state.children@)[j] == state.children@[j].model(),
            forall|j: int| 0 <= j < i ==> !#[trigger] has_singleton(models(state.children@)[j]),
            !(state.model().info is Panel && name_is_singleton(state.model().name)),
            has_singleton(state.model()) == names_have_singleton(panel_names(state.model())),
        decreases state.children@.len() - i,
    {
        if panel_tree_has_singleton(&state.children[i]) {
            assert(state.model().children[i as int] == state.children@[i as int].model());
            assert(has_singleton(state.model().children[i as int]));
            return true;
        }
        i = i + 1;
    }
    assert(forall|j: int| 0 <= j < state.model().children.len() ==> !#[trigger] has_singleton(state.model().children[j]));
    assert(!(exists|j: int| 0 <= j < state.model().children.len() && has_singleton(#[trigger] state.model().children[j])));
    assert(!(state.model().info is Panel && name_is_singleton(state.model().name)));
    assert(!has_singleton(state.model()));
    false
}

/// The center tree that is persisted for `c`: unchanged when it holds no
/// singleton panel or when pruning would leave nothing, otherwise pruned.
pub open spec fn center_without_singletons<S, P, T>(c: PanelNode<S, P, T>) -> PanelNode<S, P, T> {
    if !has_singleton(c) {
        c
    } else {
        match pruned(c) {
            Some(p) => p,
            None => c,
        }
    }
}

/// A copy of `state` with all singleton panels removed from its center. An
/// empty result is never produced: if nothing would survive, the input is
/// returned untouched.
pub fn dock_state_without_singletons<S: Copy, P, T, D>(state: DockAreaState<S, P, T, D>) -> (r:
    DockAreaState<S, P, T, D>)
    ensures
        r.version == state.version,
        r.docks == state.docks,
        r.center.model() == center_without_singletons(state.center.model()),
        !names_have_singleton(panel_names(state.center.model())) ==> r.center.model()
            == state.center.model(),
        pruned(state.center.model()) is None ==> r.center.model() == state.center.model(),
        panels_are_leaves(state.center.model()) && pruned(state.center.model()) is Some
            ==> !names_have_singleton(panel_names(r.center.model())) && panel_names(r.center.model())
            == regular_names(panel_names(state.center.model())),
{
    proof {
        lemma_has_singleton_iff_names(state.center.model());
        if panels_are_leaves(state.center.model()) && pruned(state.center.model()) is Some {
            lemma_persisted_center_has_no_singleton(state.center.model());
        }
    }
    if !panel_tree_has_singleton(&state.center) {
        return state;
    }
    if prunes_to_nothing(&state.center) {
        return state;
    }
    let DockAreaState { version, center, docks } = state;
    let pruned_center = prune_singletons_from_state(center);
    DockAreaState { version, center: pruned_center.unwrap(), docks }
}

/// Whether a persisted layout was written in the current format version and
/// may be restored.
pub fn is_current_version<S, P, T, D>(state: &DockAreaState<S, P, T, D>) -> (r: bool)
    ensures
        r == (state.version == Some(LAYOUT_VERSION)),
{
    match state.version {
        Some(v) => v == LAYOUT_VERSION,
        None => false,
    }
}

} // verus!
