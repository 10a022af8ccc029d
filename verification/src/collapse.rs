use vstd::prelude::*;

verus! {

/// A scene entity as the collapse fade reads it.
#[derive(Debug, Clone)]
pub struct SceneEntity {
    /// The scene entity (its bits), carried for the caller.
    pub entity: u64,
    /// Whether the entity has a material that can fade.
    pub has_material: bool,
    /// Its children in the scene hierarchy, if it has a list of them.
    pub children: Option<Vec<usize>>,
    /// Its subclasses, if it is a class with a list of them.
    pub subclasses: Option<Vec<usize>>,
}

/// The mathematical value of a [`SceneEntity`].
pub struct SceneEntityView {
    pub entity: u64,
    pub has_material: bool,
    pub children: Option<Seq<usize>>,
    pub subclasses: Option<Seq<usize>>,
}

/// The view of an optional list of indices.
pub open spec fn opt_indices_view(o: Option<Vec<usize>>) -> Option<Seq<usize>> {
    match o {
        Some(v) => Some(v@),
        None => None,
    }
}

impl View for SceneEntity {
    type V = SceneEntityView;

    open spec fn view(&self) -> SceneEntityView {
        SceneEntityView {
            entity: self.entity,
            has_material: self.has_material,
            children: opt_indices_view(self.children),
            subclasses: opt_indices_view(self.subclasses),
        }
    }
}

/// The entities of a scene, referring to each other by index. Children and
/// subclasses always stand after the entity that lists them.
#[derive(Debug, Clone)]
pub struct FadeGraph {
    pub nodes: Vec<SceneEntity>,
}

impl View for FadeGraph {
    type V = Seq<SceneEntityView>;

    open spec fn view(&self) -> Seq<SceneEntityView> {
        self.nodes@.map_values(|n: SceneEntity| n@)
    }
}

/// The children of `e` (empty without a list).
pub open spec fn children_of(g: Seq<SceneEntityView>, e: int) -> Seq<usize> {
    if 0 <= e < g.len() && g[e].children is Some {
        g[e].children.unwrap()
    } else {
        Seq::empty()
    }
}

/// The subclasses of `e` (empty without a list).
pub open spec fn subclasses_of(g: Seq<SceneEntityView>, e: int) -> Seq<usize> {
    if 0 <= e < g.len() && g[e].subclasses is Some {
        g[e].subclasses.unwrap()
    } else {
        Seq::empty()
    }
}

/// Every child and subclass index lies after its entity and inside the graph.
pub open spec fn fade_graph_wf(g: Seq<SceneEntityView>) -> bool {
    &&& forall|e: int, k: int|
        0 <= e < g.len() && 0 <= k < children_of(g, e).len() ==> e < #[trigger] children_of(g, e)[k]
            < g.len()
    &&& forall|e: int, k: int|
        0 <= e < g.len() && 0 <= k < subclasses_of(g, e).len() ==> e < #[trigger] subclasses_of(
            g,
            e,
        )[k] < g.len()
}

impl FadeGraph {
    pub open spec fn wf(&self) -> bool {
        fade_graph_wf(self@)
    }
}

/// Entity `e` exists and has a material.
pub open spec fn has_material(g: Seq<SceneEntityView>, e: int) -> bool {
    0 <= e < g.len() && g[e].has_material
}

/// `e` itself when it has a material.
pub open spec fn own_material(g: Seq<SceneEntityView>, e: int) -> Seq<usize> {
    if has_material(g, e) {
        seq![e as usize]
    } else {
        Seq::empty()
    }
}

/// What fades with class `e`: itself if it has a material, then for each
/// child the child (if it has a material) followed by everything under it,
/// then everything under each subclass.
pub open spec fn class_fade_spec(g: Seq<SceneEntityView>, e: int) -> Seq<usize>
    decreases g.len() - e, children_of(g, e).len() + subclasses_of(g, e).len() + 1,
{
    if !(0 <= e < g.len()) {
        Seq::empty()
    } else {
        own_material(g, e) + children_fade_spec(g, e, children_of(g, e).len() as int)
            + subclasses_fade_spec(g, e, subclasses_of(g, e).len() as int)
    }
}

/// What the first `k` children of `e` contribute to its fade.
pub open spec fn children_fade_spec(g: Seq<SceneEntityView>, e: int, k: int) -> Seq<usize>
    decreases g.len() - e, k,
{
    if k <= 0 || k > children_of(g, e).len() || !(0 <= e < g.len()) {
        Seq::empty()
    } else {
        let c = children_of(g, e)[k - 1] as int;
        children_fade_spec(g, e, k - 1) + own_material(g, c) + if e < c < g.len() {
            class_fade_spec(g, c)
        } else {
            Seq::empty()
        }
    }
}

/// What the first `k` subclasses of `e` contribute to its fade.
pub open spec fn subclasses_fade_spec(g: Seq<SceneEntityView>, e: int, k: int) -> Seq<usize>
    decreases g.len() - e, k,
{
    if k <= 0 || k > subclasses_of(g, e).len() || !(0 <= e < g.len()) {
        Seq::empty()
    } else {
        let c = subclasses_of(g, e)[k - 1] as int;
        subclasses_fade_spec(g, e, k - 1) + if e < c < g.len() {
            class_fade_spec(g, c)
        } else {
            Seq::empty()
        }
    }
}

/// What fades when class `e` collapses or expands: everything under each of
/// its subclasses, but nothing of `e`'s own pieces.
pub open spec fn fadeable_descendants_spec(g: Seq<SceneEntityView>, e: int) -> Seq<usize> {
    subclasses_fade_spec(g, e, subclasses_of(g, e).len() as int)
}

proof fn lemma_entity_view(g: &FadeGraph, e: int)
    requires
        0 <= e < g.nodes.len(),
    ensures
        g@.len() == g.nodes.len(),
        g@[e] == g.nodes[e]@,
{
}

/// Every index in `s` names an entity with a material, at index `lo` or later.
pub open spec fn fades_from(g: Seq<SceneEntityView>, s: Seq<usize>, lo: int) -> bool {
    forall|k: int| 0 <= k < s.len() ==> has_material(g, #[trigger] s[k] as int) && lo <= s[k]
}

proof fn lemma_fades_concat(g: Seq<SceneEntityView>, a: Seq<usize>, b: Seq<usize>, lo: int)
    requires
        fades_from(g, a, lo),
        fades_from(g, b, lo),
    ensures
        fades_from(g, a + b, lo),
{
    assert forall|k: int| 0 <= k < (a + b).len() implies has_material(g, #[trigger] (a + b)[k] as int)
        && lo <= (a + b)[k] by {
        if k < a.len() {
            assert((a + b)[k] == a[k]);
        } else {
            assert((a + b)[k] == b[k - a.len()]);
        }
    }
}

proof fn lemma_own_material(g: Seq<SceneEntityView>, x: int, lo: int)
    requires
        lo <= x,
        0 <= x <= usize::MAX,
    ensures
        fades_from(g, own_material(g, x), lo),
{
    if has_material(g, x) {
        assert(own_material(g, x)[0] == x as usize);
    } else {
        assert(own_material(g, x) =~= Seq::<usize>::empty());
    }
}

proof fn lemma_fades_weaken(g: Seq<SceneEntityView>, a: Seq<usize>, lo: int, lower: int)
    requires
        fades_from(g, a, lo),
        lower <= lo,
    ensures
        fades_from(g, a, lower),
{
}

proof fn lemma_class_fade(g: Seq<SceneEntityView>, e: int)
    requires
        fade_graph_wf(g),
        e <= usize::MAX,
    ensures
        fades_from(g, class_fade_spec(g, e), e),
    decreases g.len() - e, children_of(g, e).len() + subclasses_of(g, e).len() + 1,
{
    if 0 <= e < g.len() {
        lemma_children_fade(g, e, children_of(g, e).len() as int);
        lemma_subclasses_fade(g, e, subclasses_of(g, e).len() as int);
        lemma_fades_weaken(g, children_fade_spec(g, e, children_of(g, e).len() as int), e + 1, e);
        lemma_fades_weaken(
            g,
            subclasses_fade_spec(g, e, subclasses_of(g, e).len() as int),
            e + 1,
            e,
        );
        lemma_own_material(g, e, e);
        lemma_fades_concat(
            g,
            own_material(g, e),
            children_fade_spec(g, e, children_of(g, e).len() as int),
            e,
        );
        lemma_fades_concat(
            g,
            own_material(g, e) + children_fade_spec(g, e, children_of(g, e).len() as int),
            subclasses_fade_spec(g, e, subclasses_of(g, e).len() as int),
            e,
        );
    } else {
        assert(class_fade_spec(g, e) =~= Seq::<usize>::empty());
    }
}

proof fn lemma_children_fade(g: Seq<SceneEntityView>, e: int, k: int)
    requires
        fade_graph_wf(g),
    ensures
        fades_from(g, children_fade_spec(g, e, k), e + 1),
    decreases g.len() - e, k,
{
    if k <= 0 || k > children_of(g, e).len() || !(0 <= e < g.len()) {
        assert(children_fade_spec(g, e, k) =~= Seq::<usize>::empty());
    } else {
        let c = children_of(g, e)[k - 1] as int;
        assert(e < c < g.len());
        lemma_children_fade(g, e, k - 1);
        lemma_class_fade(g, c);
        lemma_fades_weaken(g, class_fade_spec(g, c), c, e + 1);
        lemma_own_material(g, c, e + 1);
        lemma_fades_concat(g, children_fade_spec(g, e, k - 1), own_material(g, c), e + 1);
        lemma_fades_concat(
            g,
            children_fade_spec(g, e, k - 1) + own_material(g, c),
            class_fade_spec(g, c),
            e + 1,
        );
    }
}

proof fn lemma_subclasses_fade(g: Seq<SceneEntityView>, e: int, k: int)
    requires
        fade_graph_wf(g),
    ensures
        fades_from(g, subclasses_fade_spec(g, e, k), e + 1),
    decreases g.len() - e, k,
{
    if k <= 0 || k > subclasses_of(g, e).len() || !(0 <= e < g.len()) {
        assert(subclasses_fade_spec(g, e, k) =~= Seq::<usize>::empty());
    } else {
        let c = subclasses_of(g, e)[k - 1] as int;
        assert(e < c < g.len());
        lemma_subclasses_fade(g, e, k - 1);
        lemma_class_fade(g, c);
        lemma_fades_weaken(g, class_fade_spec(g, c), c, e + 1);
        lemma_fades_concat(g, subclasses_fade_spec(g, e, k - 1), class_fade_spec(g, c), e + 1);
    }
}

/// Collapsing or expanding a class fades only entities that have a material,
/// and never the class itself: everything it fades lies after it.
pub proof fn law_fade_only_materials_below(g: Seq<SceneEntityView>, e: int)
    requires
        fade_graph_wf(g),
    ensures
        forall|k: int|
            0 <= k < fadeable_descendants_spec(g, e).len() ==> has_material(
                g,
                #[trigger] fadeable_descendants_spec(g, e)[k] as int,
            ) && e < fadeable_descendants_spec(g, e)[k],
{
    lemma_subclasses_fade(g, e, subclasses_of(g, e).len() as int);
}

fn indices_after(list: &Vec<usize>, e: usize, n: usize) -> (ok: bool)
    ensures
        ok == (forall|k: int| 0 <= k < list@.len() ==> e < #[trigger] list@[k] < n),
{
    let mut k: usize = 0;
    while k < list.len()
        invariant
            k <= list.len(),
            forall|m: int| 0 <= m < k ==> e < #[trigger] list@[m] < n,
        decreases list.len() - k,
    {
        if list[k] <= e || list[k] >= n {
            return false;
        }
        k = k + 1;
    }
    true
}

/// `x` can be reached from `s` by following children and subclasses
/// (every entity reaches itself).
pub open spec fn reaches(g: Seq<SceneEntityView>, s: int, x: int) -> bool
    decreases g.len() - s,
{
    if !(0 <= s < g.len()) {
        false
    } else if s == x {
        true
    } else {
        (exists|k: int|
            0 <= k < children_of(g, s).len() && s < children_of(g, s)[k] < g.len() && reaches(
                g,
                #[trigger] children_of(g, s)[k] as int,
                x,
            )) || (exists|k: int|
            0 <= k < subclasses_of(g, s).len() && s < subclasses_of(g, s)[k] < g.len() && reaches(
                g,
                #[trigger] subclasses_of(g, s)[k] as int,
                x,
            ))
    }
}

/// `x` lies under one of the subclasses of `e` (or is one).
pub open spec fn under_a_subclass(g: Seq<SceneEntityView>, e: int, x: int) -> bool {
    exists|k: int|
        0 <= k < subclasses_of(g, e).len() && reaches(g, #[trigger] subclasses_of(g, e)[k] as int, x)
}

proof fn lemma_reach_child(g: Seq<SceneEntityView>, s: int, k: int, x: int)
    requires
        fade_graph_wf(g),
        0 <= s < g.len(),
        0 <= k < children_of(g, s).len(),
        reaches(g, children_of(g, s)[k] as int, x),
    ensures
        reaches(g, s, x),
{
    if s != x {
        assert(s < children_of(g, s)[k] < g.len());
    }
}

proof fn lemma_reach_subclass(g: Seq<SceneEntityView>, s: int, k: int, x: int)
    requires
        fade_graph_wf(g),
        0 <= s < g.len(),
        0 <= k < subclasses_of(g, s).len(),
        reaches(g, subclasses_of(g, s)[k] as int, x),
    ensures
        reaches(g, s, x),
{
    if s != x {
        assert(s < subclasses_of(g, s)[k] < g.len());
    }
}

proof fn lemma_class_fade_reached(g: Seq<SceneEntityView>, e: int)
    requires
        fade_graph_wf(g),
        e <= usize::MAX,
    ensures
        forall|m: int| 0 <= m < class_fade_spec(g, e).len() ==> reaches(g, e, #[trigger] class_fade_spec(g, e)[m] as int),
    decreases g.len() - e, children_of(g, e).len() + subclasses_of(g, e).len() + 1,
{
    if 0 <= e < g.len() {
        let own = own_material(g, e);
        let ch = children_fade_spec(g, e, children_of(g, e).len() as int);
        let sub = subclasses_fade_spec(g, e, subclasses_of(g, e).len() as int);
        lemma_children_fade_reached(g, e, children_of(g, e).len() as int);
        lemma_subclasses_fade_reached(g, e, subclasses_of(g, e).len() as int);
        assert forall|m: int| 0 <= m < (own + ch + sub).len() implies reaches(g, e, #[trigger] (own + ch + sub)[m] as int) by {
            if m < own.len() {
                assert((own + ch + sub)[m] == own[m]);
                assert(own[m] == e as usize);
            } else if m < own.len() + ch.len() {
                assert((own + ch + sub)[m] == ch[m - own.len()]);
            } else {
                let x = sub[m - own.len() - ch.len()];
                assert((own + ch + sub)[m] == x);
                assert(under_a_subclass(g, e, x as int));
                let j = choose|j: int|
                    0 <= j < subclasses_of(g, e).len() && reaches(
                        g,
                        #[trigger] subclasses_of(g, e)[j] as int,
                        x as int,
                    );
                lemma_reach_subclass(g, e, j, x as int);
            }
        }
    }
}

proof fn lemma_children_fade_reached(g: Seq<SceneEntityView>, e: int, k: int)
    requires
        fade_graph_wf(g),
    ensures
        forall|m: int| 0 <= m < children_fade_spec(g, e, k).len() ==> reaches(g, e, #[trigger] children_fade_spec(g, e, k)[m] as int),
    decreases g.len() - e, k,
{
    if !(k <= 0 || k > children_of(g, e).len() || !(0 <= e < g.len())) {
        let c = children_of(g, e)[k - 1] as int;
        assert(e < c < g.len());
        lemma_children_fade_reached(g, e, k - 1);
        lemma_class_fade_reached(g, c);
        let prev = children_fade_spec(g, e, k - 1);
        let own = own_material(g, c);
        let below = class_fade_spec(g, c);
        assert(children_fade_spec(g, e, k) == prev + own + below);
        assert forall|m: int| 0 <= m < (prev + own + below).len() implies reaches(g, e, #[trigger] (prev + own + below)[m] as int) by {
            if m < prev.len() {
                assert((prev + own + below)[m] == prev[m]);
            } else if m < prev.len() + own.len() {
                assert((prev + own + below)[m] == own[m - prev.len()]);
                assert(own[m - prev.len()] == c as usize);
                assert(reaches(g, c, c));
                lemma_reach_child(g, e, k - 1, c);
            } else {
                let x = below[m - prev.len() - own.len()];
                assert((prev + own + below)[m] == x);
                assert(reaches(g, c, x as int));
                lemma_reach_child(g, e, k - 1, x as int);
            }
        }
    }
}

proof fn lemma_subclasses_fade_reached(g: Seq<SceneEntityView>, e: int, k: int)
    requires
        fade_graph_wf(g),
    ensures
        forall|m: int| 0 <= m < subclasses_fade_spec(g, e, k).len() ==> under_a_subclass(g, e, #[trigger] subclasses_fade_spec(g, e, k)[m] as int),
    decreases g.len() - e, k,
{
    if !(k <= 0 || k > subclasses_of(g, e).len() || !(0 <= e < g.len())) {
        let c = subclasses_of(g, e)[k - 1] as int;
        assert(e < c < g.len());
        lemma_subclasses_fade_reached(g, e, k - 1);
        lemma_class_fade_reached(g, c);
        let prev = subclasses_fade_spec(g, e, k - 1);
        let below = class_fade_spec(g, c);
        assert(subclasses_fade_spec(g, e, k) == prev + below);
        assert forall|m: int| 0 <= m < (prev + below).len() implies under_a_subclass(g, e, #[trigger] (prev + below)[m] as int) by {
            if m < prev.len() {
                assert((prev + below)[m] == prev[m]);
            } else {
                let x = below[m - prev.len()];
                assert((prev + below)[m] == x);
                assert(reaches(g, subclasses_of(g, e)[k - 1] as int, x as int));
            }
        }
    }
}

/// What fades when a class collapses or expands lies under one of its
/// subclasses: the class's own pieces that hang directly below it, and are
/// not reached from a subclass, stay as they are.
pub proof fn law_fade_stays_under_subclasses(g: Seq<SceneEntityView>, e: int)
    requires
        fade_graph_wf(g),
    ensures
        forall|m: int|
            0 <= m < fadeable_descendants_spec(g, e).len() ==> under_a_subclass(
                g,
                e,
                #[trigger] fadeable_descendants_spec(g, e)[m] as int,
            ),
{
    lemma_subclasses_fade_reached(g, e, subclasses_of(g, e).len() as int);
}

/// Some index in `s` names `x`.
pub open spec fn lists(s: Seq<usize>, x: int) -> bool {
    exists|m: int| 0 <= m < s.len() && #[trigger] s[m] as int == x
}

proof fn lemma_lists_concat(a: Seq<usize>, b: Seq<usize>, x: int)
    requires
        lists(a, x) || lists(b, x),
    ensures
        lists(a + b, x),
{
    if lists(a, x) {
        let m = choose|m: int| 0 <= m < a.len() && #[trigger] a[m] as int == x;
        assert((a + b)[m] == a[m]);
    } else {
        let m = choose|m: int| 0 <= m < b.len() && #[trigger] b[m] as int == x;
        assert((a + b)[a.len() + m] == b[m]);
    }
}

proof fn lemma_class_fade_complete(g: Seq<SceneEntityView>, c: int, x: int)
    requires
        fade_graph_wf(g),
        c <= usize::MAX,
        reaches(g, c, x),
        has_material(g, x),
    ensures
        lists(class_fade_spec(g, c), x),
    decreases g.len() - c, children_of(g, c).len() + subclasses_of(g, c).len() + 1,
{
    let own = own_material(g, c);
    let ch = children_fade_spec(g, c, children_of(g, c).len() as int);
    let sub = subclasses_fade_spec(g, c, subclasses_of(g, c).len() as int);
    assert(class_fade_spec(g, c) == own + ch + sub);
    if c == x {
        assert(own[0] as int == x);
        lemma_lists_concat(own, ch, x);
    } else if exists|k: int|
        0 <= k < children_of(g, c).len() && c < children_of(g, c)[k] < g.len() && reaches(
            g,
            #[trigger] children_of(g, c)[k] as int,
            x,
        ) {
        let k = choose|k: int|
            0 <= k < children_of(g, c).len() && c < children_of(g, c)[k] < g.len() && reaches(
                g,
                #[trigger] children_of(g, c)[k] as int,
                x,
            );
        lemma_children_fade_complete(g, c, children_of(g, c).len() as int, k, x);
        lemma_lists_concat(own, ch, x);
    } else {
        let k = choose|k: int|
            0 <= k < subclasses_of(g, c).len() && c < subclasses_of(g, c)[k] < g.len() && reaches(
                g,
                #[trigger] subclasses_of(g, c)[k] as int,
                x,
            );
        lemma_subclasses_fade_complete(g, c, subclasses_of(g, c).len() as int, k, x);
    }
    lemma_lists_concat(own + ch, sub, x);
}

proof fn lemma_children_fade_complete(g: Seq<SceneEntityView>, e: int, k: int, j: int, x: int)
    requires
        fade_graph_wf(g),
        0 <= e < g.len(),
        0 <= j < k <= children_of(g, e).len(),
        reaches(g, children_of(g, e)[j] as int, x),
        has_material(g, x),
    ensures
        lists(children_fade_spec(g, e, k), x),
    decreases g.len() - e, k,
{
    let c = children_of(g, e)[k - 1] as int;
    assert(e < c < g.len());
    let prev = children_fade_spec(g, e, k - 1);
    let own = own_material(g, c);
    let below = class_fade_spec(g, c);
    assert(children_fade_spec(g, e, k) == prev + own + below);
    if j == k - 1 {
        lemma_class_fade_complete(g, c, x);
    } else {
        lemma_children_fade_complete(g, e, k - 1, j, x);
        lemma_lists_concat(prev, own, x);
    }
    lemma_lists_concat(prev + own, below, x);
}

proof fn lemma_subclasses_fade_complete(g: Seq<SceneEntityView>, e: int, k: int, j: int, x: int)
    requires
        fade_graph_wf(g),
        0 <= e < g.len(),
        0 <= j < k <= subclasses_of(g, e).len(),
        reaches(g, subclasses_of(g, e)[j] as int, x),
        has_material(g, x),
    ensures
        lists(subclasses_fade_spec(g, e, k), x),
    decreases g.len() - e, k,
{
    let c = subclasses_of(g, e)[k - 1] as int;
    assert(e < c < g.len());
    let prev = subclasses_fade_spec(g, e, k - 1);
    let below = class_fade_spec(g, c);
    assert(subclasses_fade_spec(g, e, k) == prev + below);
    if j == k - 1 {
        lemma_class_fade_complete(g, c, x);
    } else {
        lemma_subclasses_fade_complete(g, e, k - 1, j, x);
    }
    lemma_lists_concat(prev, below, x);
}

/// Collapsing or expanding a class fades every entity with a material that
/// lies under one of its subclasses (or is one).
pub proof fn law_fade_reaches_all_under_subclasses(g: Seq<SceneEntityView>, e: int, x: int)
    requires
        fade_graph_wf(g),
        under_a_subclass(g, e, x),
        has_material(g, x),
    ensures
        lists(fadeable_descendants_spec(g, e), x),
{
    let j = choose|j: int|
        0 <= j < subclasses_of(g, e).len() && reaches(g, #[trigger] subclasses_of(g, e)[j] as int, x);
    lemma_subclasses_fade_complete(g, e, subclasses_of(g, e).len() as int, j, x);
}

impl FadeGraph {
    /// Whether every child and subclass stands after the entity that lists it
    /// (see [`fade_graph_wf`]).
    pub fn check_wf(&self) -> (ok: bool)
        ensures
            ok == self.wf(),
    {
        let n = self.nodes.len();
        let mut e: usize = 0;
        while e < n
            invariant
                n == self.nodes.len(),
                n == self@.len(),
                e <= n,
                forall|a: int, k: int|
                    0 <= a < e && 0 <= k < children_of(self@, a).len() ==> a < #[trigger] children_of(
                        self@,
                        a,
                    )[k] < n,
                forall|a: int, k: int|
                    0 <= a < e && 0 <= k < subclasses_of(self@, a).len() ==> a
                        < #[trigger] subclasses_of(self@, a)[k] < n,
            decreases n - e,
        {
            proof {
                lemma_entity_view(self, e as int);
            }
            match &self.nodes[e].children {
                Some(ch) => {
                    if !indices_after(ch, e, n) {
                        assert(children_of(self@, e as int) == ch@);
                        return false;
                    }
                },
                None => {},
            }
            match &self.nodes[e].subclasses {
                Some(subs) => {
                    if !indices_after(subs, e, n) {
                        assert(subclasses_of(self@, e as int) == subs@);
                        return false;
                    }
                },
                None => {},
            }
            e = e + 1;
        }
        true
    }

    /// Whether entity `e` exists and has a material.
    pub fn has_material_at(&self, e: usize) -> (b: bool)
        ensures
            b == has_material(self@, e as int),
    {
        if e < self.nodes.len() {
            proof {
                lemma_entity_view(self, e as int);
            }
            self.nodes[e].has_material
        } else {
            false
        }
    }

    /// Appends to `out` what fades with class `e` (see [`class_fade_spec`]).
    pub fn collect_class_and_descendants(&self, e: usize, out: &mut Vec<usize>)
        requires
            self.wf(),
        ensures
            final(out)@ == old(out)@ + class_fade_spec(self@, e as int),
        decreases self.nodes.len() - e,
    {
        let ghost g = self@;
        let ghost start = out@;
        if e >= self.nodes.len() {
            assert(out@ =~= start + class_fade_spec(g, e as int));
            return;
        }
        proof {
            lemma_entity_view(self, e as int);
        }
        if self.nodes[e].has_material {
            out.push(e);
        }
        let ghost after_own = out@;
        assert(after_own =~= start + own_material(g, e as int));
        match &self.nodes[e].children {
            Some(ch) => {
                assert(children_of(g, e as int) == ch@);
                let mut k: usize = 0;
                assert(children_fade_spec(g, e as int, 0) =~= Seq::<usize>::empty());
                while k < ch.len()
                    invariant
                        self.wf(),
                        g == self@,
                        e < g.len(),
                        children_of(g, e as int) == ch@,
                        k <= ch.len(),
                        out@ =~= after_own + children_fade_spec(g, e as int, k as int),
                    decreases ch.len() - k,
                {
                    let c = ch[k];
                    assert(e < c < g.len());
                    if self.has_material_at(c) {
                        out.push(c);
                    }
                    self.collect_class_and_descendants(c, out);
                    k = k + 1;
                }
            },
            None => {
                assert(children_of(g, e as int) =~= Seq::<usize>::empty());
            },
        }
        let ghost after_children = out@;
        assert(after_children =~= after_own + children_fade_spec(
            g,
            e as int,
            children_of(g, e as int).len() as int,
        ));
        match &self.nodes[e].subclasses {
            Some(subs) => {
                assert(subclasses_of(g, e as int) == subs@);
                let mut k: usize = 0;
                assert(subclasses_fade_spec(g, e as int, 0) =~= Seq::<usize>::empty());
                while k < subs.len()
                    invariant
                        self.wf(),
                        g == self@,
                        e < g.len(),
                        subclasses_of(g, e as int) == subs@,
                        k <= subs.len(),
                        out@ =~= after_children + subclasses_fade_spec(g, e as int, k as int),
                    decreases subs.len() - k,
                {
                    let c = subs[k];
                    assert(e < c < g.len());
                    self.collect_class_and_descendants(c, out);
                    k = k + 1;
                }
            },
            None => {
                assert(subclasses_of(g, e as int) =~= Seq::<usize>::empty());
            },
        }
        assert(out@ =~= start + class_fade_spec(g, e as int));
    }

    /// What fades when class `e` collapses or expands: everything under each
    /// of its subclasses (see [`fadeable_descendants_spec`]).
    pub fn collect_fadeable_descendants(&self, e: usize) -> (out: Vec<usize>)
        requires
            self.wf(),
        ensures
            out@ == fadeable_descendants_spec(self@, e as int),
    {
        let ghost g = self@;
        let mut out: Vec<usize> = Vec::new();
        if e >= self.nodes.len() {
            assert(out@ =~= fadeable_descendants_spec(g, e as int));
            return out;
        }
        proof {
            lemma_entity_view(self, e as int);
        }
        match &self.nodes[e].subclasses {
            Some(subs) => {
                assert(subclasses_of(g, e as int) == subs@);
                let mut k: usize = 0;
                assert(subclasses_fade_spec(g, e as int, 0) =~= Seq::<usize>::empty());
                while k < subs.len()
                    invariant
                        self.wf(),
                        g == self@,
                        e < g.len(),
                        subclasses_of(g, e as int) == subs@,
                        k <= subs.len(),
                        out@ =~= subclasses_fade_spec(g, e as int, k as int),
                    decreases subs.len() - k,
                {
                    let c = subs[k];
                    assert(e < c < g.len());
                    self.collect_class_and_descendants(c, &mut out);
                    k = k + 1;
                }
            },
            None => {
                assert(out@ =~= fadeable_descendants_spec(g, e as int));
            },
        }
        out
    }
}


/// How a class's subtree changes when its collapsed flag changes.
#[derive(Debug, Clone, Copy, PartialEq, Eq, Structural)]
pub struct FadeTransition {
    /// Fade out (opacity 1 to 0) rather than in (0 to 1).
    pub fade_out: bool,
    /// Make the faded entities visible before the fade starts.
    pub reveal_first: bool,
    /// The colour key for the class's collapse sphere: `"happy"` when
    /// collapsed, `"unhappy"` when expanded.
    pub sphere_happy: bool,
}

impl FadeTransition {
    /// The transition for a class whose collapsed flag has just become `collapsed`.
    pub fn for_collapsed(collapsed: bool) -> (t: FadeTransition)
        ensures
            t.fade_out == collapsed,
            t.reveal_first == !collapsed,
            t.sphere_happy == collapsed,
    {
        FadeTransition { fade_out: collapsed, reveal_first: !collapsed, sphere_happy: collapsed }
    }

    /// The colour-map key of the collapse sphere for this transition.
    pub fn sphere_color_key(&self) -> (key: &'static str)
        ensures
            self.sphere_happy ==> key@ == "happy"@,
            !self.sphere_happy ==> key@ == "unhappy"@,
    {
        if self.sphere_happy {
            "happy"
        } else {
            "unhappy"
        }
    }
}

} // verus!
