use vstd::prelude::*;

verus! {

/// One class of the diagram as the layout reads it. Classes are held in a
/// [`ClassTree`] and refer to each other by their index there.
#[derive(Debug, Clone)]
pub struct ClassNode {
    /// The scene entity of the class (its bits), carried for the caller.
    pub entity: u64,
    /// The class it is a subclass of, if any.
    pub parent: Option<usize>,
    /// Its direct subclasses, in order; `None` when it has no subclass list.
    pub subclasses: Option<Vec<usize>>,
    /// Whether the class is collapsed (a missing flag counts as not collapsed).
    pub collapsed: bool,
    /// Whether the class has a position and class data, so that it can be laid out.
    pub laid_out: bool,
}

/// The mathematical value of a [`ClassNode`].
pub struct ClassNodeView {
    pub entity: u64,
    pub parent: Option<usize>,
    pub subclasses: Option<Seq<usize>>,
    pub collapsed: bool,
    pub laid_out: bool,
}

impl View for ClassNode {
    type V = ClassNodeView;

    open spec fn view(&self) -> ClassNodeView {
        ClassNodeView {
            entity: self.entity,
            parent: self.parent,
            subclasses: match self.subclasses {
                Some(v) => Some(v@),
                None => None,
            },
            collapsed: self.collapsed,
            laid_out: self.laid_out,
        }
    }
}

/// The classes of a diagram. A subclass always stands after the class it
/// belongs to, which is what [`ClassTree::wf`] states.
#[derive(Debug, Clone)]
pub struct ClassTree {
    pub nodes: Vec<ClassNode>,
}

impl View for ClassTree {
    type V = Seq<ClassNodeView>;

    open spec fn view(&self) -> Seq<ClassNodeView> {
        self.nodes@.map_values(|n: ClassNode| n@)
    }
}

/// Every subclass index lies after its class and inside the tree, and every
/// parent index lies before its class.
pub open spec fn tree_wf(t: Seq<ClassNodeView>) -> bool {
    &&& forall|i: int, k: int|
        #![trigger t[i].subclasses.unwrap()[k]]
        0 <= i < t.len() && t[i].subclasses is Some && 0 <= k < t[i].subclasses.unwrap().len()
            ==> i < t[i].subclasses.unwrap()[k] < t.len()
    &&& forall|i: int|
        0 <= i < t.len() && #[trigger] t[i].parent is Some ==> t[i].parent.unwrap() < i
}

impl ClassTree {
    pub open spec fn wf(&self) -> bool {
        tree_wf(self@)
    }
}

/// The number of subclasses listed for class `i` (0 without a list).
pub open spec fn child_count(t: Seq<ClassNodeView>, i: int) -> nat {
    if 0 <= i < t.len() && t[i].subclasses is Some {
        t[i].subclasses.unwrap().len()
    } else {
        0
    }
}

/// Class `i` shows its subclasses: it has at least one and is not collapsed.
pub open spec fn shows_children(t: Seq<ClassNodeView>, i: int) -> bool {
    &&& 0 <= i < t.len()
    &&& t[i].subclasses is Some
    &&& t[i].subclasses.unwrap().len() > 0
    &&& !t[i].collapsed
}

/// The width that the `k`-th subclass of `i` takes: its own subtree width,
/// but never less than `spacing`.
pub open spec fn slot_width(t: Seq<ClassNodeView>, i: int, k: int, spacing: nat) -> nat
    decreases t.len() - i, 0int,
{
    if 0 <= i < t.len() && t[i].subclasses is Some && 0 <= k < t[i].subclasses.unwrap().len() {
        let c = t[i].subclasses.unwrap()[k] as int;
        if i < c < t.len() {
            let w = subtree_width_spec(t, c, spacing);
            if w > spacing {
                w
            } else {
                spacing
            }
        } else {
            spacing
        }
    } else {
        spacing
    }
}

/// The widths of the first `k` subclass slots of `i`, added up.
pub open spec fn slots_sum(t: Seq<ClassNodeView>, i: int, k: int, spacing: nat) -> nat
    decreases t.len() - i, k + 1,
{
    if k <= 0 || !(0 <= i < t.len()) {
        0
    } else {
        slots_sum(t, i, k - 1, spacing) + slot_width(t, i, k - 1, spacing)
    }
}

/// The width of the subtree under class `i`: 0 when it shows no subclasses,
/// else the sum of its subclass slots.
pub open spec fn subtree_width_spec(t: Seq<ClassNodeView>, i: int, spacing: nat) -> nat
    decreases t.len() - i, child_count(t, i) + 2,
{
    if shows_children(t, i) {
        slots_sum(t, i, child_count(t, i) as int, spacing)
    } else {
        0
    }
}


/// Slot sums only grow: the first `j` slots never add up to more than the
/// first `k`, and every slot before `k` fits inside the first `k`.
pub proof fn lemma_slots_sum_monotone(t: Seq<ClassNodeView>, i: int, j: int, k: int, spacing: nat)
    requires
        0 <= i < t.len(),
        0 <= j <= k,
    ensures
        slots_sum(t, i, j, spacing) <= slots_sum(t, i, k, spacing),
        j < k ==> slots_sum(t, i, j, spacing) + slot_width(t, i, j, spacing) <= slots_sum(
            t,
            i,
            k,
            spacing,
        ),
    decreases k - j,
{
    if j < k {
        lemma_slots_sum_monotone(t, i, j, k - 1, spacing);
        if j < k - 1 {
            lemma_slots_sum_monotone(t, i, j + 1, k - 1, spacing);
        }
    }
}

/// The node at `i` in the view is the view of the node at `i`.
pub proof fn lemma_node_view(tree: &ClassTree, i: int)
    requires
        0 <= i < tree.nodes.len(),
    ensures
        tree@.len() == tree.nodes.len(),
        tree@[i] == tree.nodes[i]@,
{
}

impl ClassTree {
    /// The width of the subtree under class `i` (0 for an index outside the
    /// tree), or `None` when it does not fit in a `u64`.
    pub fn subtree_width(&self, i: usize, spacing: u64) -> (res: Option<u64>)
        requires
            self.wf(),
        ensures
            res == (if subtree_width_spec(self@, i as int, spacing as nat) <= u64::MAX {
                Some(subtree_width_spec(self@, i as int, spacing as nat) as u64)
            } else {
                None
            }),
        decreases self.nodes.len() - i,
    {
        if i >= self.nodes.len() {
            return Some(0);
        }
        proof {
            lemma_node_view(self, i as int);
        }
        let node = &self.nodes[i];
        match &node.subclasses {
            None => Some(0),
            Some(ch) => {
                let n = ch.len();
                if n == 0 || node.collapsed {
                    return Some(0);
                }
                let ghost t = self@;
                assert(t[i as int].subclasses.unwrap() == ch@);
                assert(child_count(t, i as int) == n);
                let mut total: u64 = 0;
                let mut k: usize = 0;
                while k < n
                    invariant
                        self.wf(),
                        t == self@,
                        i < t.len(),
                        t[i as int].subclasses is Some,
                        t[i as int].subclasses.unwrap() == ch@,
                        n == ch@.len(),
                        shows_children(t, i as int),
                        child_count(t, i as int) == n,
                        k <= n,
                        total as nat == slots_sum(t, i as int, k as int, spacing as nat),
                    decreases n - k,
                {
                    let c = ch[k];
                    assert(i < c < t.len());
                    proof {
                        lemma_slots_sum_monotone(t, i as int, k as int, n as int, spacing as nat);
                    }
                    let w = match self.subtree_width(c, spacing) {
                        Some(w) => w,
                        None => {
                            return None;
                        },
                    };
                    let slot = if w > spacing {
                        w
                    } else {
                        spacing
                    };
                    assert(slot as nat == slot_width(t, i as int, k as int, spacing as nat));
                    total = match total.checked_add(slot) {
                        Some(v) => v,
                        None => {
                            return None;
                        },
                    };
                    k = k + 1;
                }
                Some(total)
            },
        }
    }
}


/// One change that laying out a class asks of the scene. Horizontal positions
/// are given in quarter units (`x4` is four times the position along x) so
/// that they stay exact integers for any integer spacing.
#[derive(Debug, Clone, Copy, PartialEq, Eq, Structural)]
pub enum LayoutAction {
    /// Show or hide the horizontal beam of class `class`.
    BeamVisibility { class: usize, visible: bool },
    /// Move subclass `child` to `x4 / 4` along x, relative to its class.
    MoveChild { child: usize, x4: i128 },
    /// Stretch the horizontal beam of `class` to `span4 / 4` and centre it at `midpoint4 / 4`.
    ResizeBeam { class: usize, span4: i128, midpoint4: i128 },
}

/// Where (in quarter units) the centre of the `k`-th subclass slot of `i`
/// lies when the slots are packed left to right, centred on the class.
pub open spec fn slot_center4(t: Seq<ClassNodeView>, i: int, k: int, spacing: nat) -> int {
    -2 * slots_sum(t, i, child_count(t, i) as int, spacing) + 4 * slots_sum(t, i, k, spacing) + 2
        * slot_width(t, i, k, spacing)
}

/// The changes that laying out the subtree under class `i` makes, in order.
pub open spec fn layout_spec(t: Seq<ClassNodeView>, i: int, spacing: nat) -> Seq<LayoutAction>
    decreases t.len() - i, child_count(t, i) + 2,
{
    if !(0 <= i < t.len()) || !t[i].laid_out || t[i].subclasses is None {
        Seq::empty()
    } else if !shows_children(t, i) {
        seq![LayoutAction::BeamVisibility { class: i as usize, visible: false }]
    } else {
        let n = child_count(t, i) as int;
        let first4 = slot_center4(t, i, 0, spacing);
        let last4 = slot_center4(t, i, n - 1, spacing);
        seq![LayoutAction::BeamVisibility { class: i as usize, visible: true }] + children_layout_spec(
            t,
            i,
            n,
            spacing,
        ) + seq![
            LayoutAction::ResizeBeam {
                class: i as usize,
                span4: (last4 - first4) as i128,
                midpoint4: ((first4 + last4) / 2) as i128,
            },
        ]
    }
}

/// The changes for the first `k` subclasses of `i`: each is moved to its
/// slot centre, then its own subtree is laid out.
pub open spec fn children_layout_spec(t: Seq<ClassNodeView>, i: int, k: int, spacing: nat) -> Seq<
    LayoutAction,
>
    decreases t.len() - i, k + 1,
{
    if k <= 0 || !(0 <= i < t.len()) || t[i].subclasses is None || k > t[i].subclasses.unwrap().len() {
        Seq::empty()
    } else {
        let c = t[i].subclasses.unwrap()[k - 1] as int;
        children_layout_spec(t, i, k - 1, spacing) + seq![
            LayoutAction::MoveChild { child: c as usize, x4: slot_center4(t, i, k - 1, spacing) as i128 },
        ] + if i < c < t.len() {
            layout_spec(t, c, spacing)
        } else {
            Seq::empty()
        }
    }
}

impl ClassTree {
    /// Appends to `out` the changes that laying out the subtree under class
    /// `i` makes: the visibility of its horizontal beam, then for each shown
    /// subclass its new position followed by its own layout, then the new
    /// length and centre of the beam.
    pub fn layout_subtree(&self, i: usize, spacing: u64, out: &mut Vec<LayoutAction>)
        requires
            self.wf(),
            subtree_width_spec(self@, i as int, spacing as nat) <= u64::MAX,
        ensures
            final(out)@ == old(out)@ + layout_spec(self@, i as int, spacing as nat),
        decreases self.nodes.len() - i,
    {
        let ghost t = self@;
        let ghost start = out@;
        if i >= self.nodes.len() {
            assert(out@ =~= start + layout_spec(t, i as int, spacing as nat));
            return;
        }
        proof {
            lemma_node_view(self, i as int);
        }
        let node = &self.nodes[i];
        if !node.laid_out {
            assert(out@ =~= start + layout_spec(t, i as int, spacing as nat));
            return;
        }
        match &node.subclasses {
            None => {
                assert(out@ =~= start + layout_spec(t, i as int, spacing as nat));
            },
            Some(ch) => {
                let n = ch.len();
                assert(t[i as int].subclasses.unwrap() == ch@);
                let visible = n > 0 && !node.collapsed;
                out.push(LayoutAction::BeamVisibility { class: i, visible });
                if !visible {
                    assert(out@ =~= start + layout_spec(t, i as int, spacing as nat));
                    return;
                }
                assert(child_count(t, i as int) == n);
                let ghost total_spec = slots_sum(t, i as int, n as int, spacing as nat);
                // Slot widths, as the subtree widths of the subclasses but at least `spacing`.
                let mut widths: Vec<u64> = Vec::new();
                let mut total: u64 = 0;
                let mut k: usize = 0;
                while k < n
                    invariant
                        self.wf(),
                        t == self@,
                        i < t.len(),
                        t[i as int].subclasses is Some,
                        t[i as int].subclasses.unwrap() == ch@,
                        n == ch@.len(),
                        shows_children(t, i as int),
                        child_count(t, i as int) == n,
                        total_spec == slots_sum(t, i as int, n as int, spacing as nat),
                        total_spec == subtree_width_spec(t, i as int, spacing as nat),
                        total_spec <= u64::MAX,
                        k <= n,
                        widths@.len() == k,
                        forall|j: int|
                            0 <= j < k ==> #[trigger] widths@[j] as nat == slot_width(
                                t,
                                i as int,
                                j,
                                spacing as nat,
                            ),
                        total as nat == slots_sum(t, i as int, k as int, spacing as nat),
                    decreases n - k,
                {
                    let c = ch[k];
                    assert(i < c < t.len());
                    proof {
                        lemma_slots_sum_monotone(t, i as int, k as int, n as int, spacing as nat);
                    }
                    let w = match self.subtree_width(c, spacing) {
                        Some(w) => w,
                        None => 0,
                    };
                    let slot = if w > spacing {
                        w
                    } else {
                        spacing
                    };
                    widths.push(slot);
                    total = total + slot;
                    k = k + 1;
                }
                let total4: i128 = 4 * (total as i128);
                let mut cursor4: i128 = -2 * (total as i128);
                let mut first4: i128 = 0;
                let mut last4: i128 = 0;
                let mut k: usize = 0;
                let ghost mid = out@;
                assert(children_layout_spec(t, i as int, 0, spacing as nat) =~= Seq::<LayoutAction>::empty());
                while k < n
                    invariant
                        self.wf(),
                        t == self@,
                        i < t.len(),
                        t[i as int].subclasses is Some,
                        t[i as int].subclasses.unwrap() == ch@,
                        n == ch@.len(),
                        n > 0,
                        shows_children(t, i as int),
                        child_count(t, i as int) == n,
                        total_spec == slots_sum(t, i as int, n as int, spacing as nat),
                        total_spec <= u64::MAX,
                        total as nat == total_spec,
                        k <= n,
                        widths@.len() == n,
                        forall|j: int|
                            0 <= j < n ==> #[trigger] widths@[j] as nat == slot_width(
                                t,
                                i as int,
                                j,
                                spacing as nat,
                            ),
                        cursor4 == -2 * total_spec + 4 * slots_sum(t, i as int, k as int, spacing as nat),
                        k > 0 ==> first4 == slot_center4(t, i as int, 0, spacing as nat),
                        k > 0 ==> last4 == slot_center4(t, i as int, k - 1, spacing as nat),
                        out@ == mid + children_layout_spec(t, i as int, k as int, spacing as nat),
                    decreases n - k,
                {
                    let c = ch[k];
                    assert(i < c < t.len());
                    proof {
                        lemma_slots_sum_monotone(t, i as int, k as int, n as int, spacing as nat);
                    }
                    let x4 = cursor4 + 2 * (widths[k] as i128);
                    if k == 0 {
                        first4 = x4;
                    }
                    last4 = x4;
                    let ghost before = out@;
                    out.push(LayoutAction::MoveChild { child: c, x4 });
                    self.layout_subtree(c, spacing, out);
                    assert(out@ =~= mid + children_layout_spec(t, i as int, k + 1, spacing as nat));
                    cursor4 = cursor4 + 4 * (widths[k] as i128);
                    k = k + 1;
                }
                proof {
                    if n >= 2 {
                        lemma_slots_sum_monotone(t, i as int, 0, n - 1, spacing as nat);
                    }
                }
                let span4 = last4 - first4;
                assert(span4 >= 0);
                let midpoint4 = first4 + span4 / 2;
                out.push(LayoutAction::ResizeBeam { class: i, span4, midpoint4 });
                assert(out@ =~= start + layout_spec(t, i as int, spacing as nat));
            },
        }
    }
}


/// The class at the top of the chain of superclasses above `i`.
pub open spec fn root_spec(t: Seq<ClassNodeView>, i: int) -> int
    decreases i,
{
    if 0 <= i < t.len() && t[i].parent is Some && 0 <= t[i].parent.unwrap() < i {
        root_spec(t, t[i].parent.unwrap() as int)
    } else {
        i
    }
}

/// The roots of `classes`, each once, in the order of first appearance.
pub open spec fn distinct_roots_spec(t: Seq<ClassNodeView>, classes: Seq<usize>) -> Seq<usize>
    decreases classes.len(),
{
    if classes.len() == 0 {
        Seq::empty()
    } else {
        let rest = distinct_roots_spec(t, classes.drop_last());
        let r = root_spec(t, classes.last() as int) as usize;
        if rest.contains(r) {
            rest
        } else {
            rest.push(r)
        }
    }
}

/// The changes that re-laying out the trees of all `classes` makes: each
/// distinct root once, in order of first appearance.
pub open spec fn relayout_spec(t: Seq<ClassNodeView>, roots: Seq<usize>, spacing: nat) -> Seq<
    LayoutAction,
>
    decreases roots.len(),
{
    if roots.len() == 0 {
        Seq::empty()
    } else {
        relayout_spec(t, roots.drop_last(), spacing) + layout_spec(t, roots.last() as int, spacing)
    }
}

/// Every tree rooted at one of `roots` has a width that fits in a `u64`.
pub open spec fn trees_fit(t: Seq<ClassNodeView>, roots: Seq<usize>, spacing: nat) -> bool {
    forall|k: int| 0 <= k < roots.len() ==> subtree_width_spec(t, #[trigger] roots[k] as int, spacing) <= u64::MAX
}

impl ClassTree {
    /// Whether every subclass stands after its class and every superclass
    /// before it (see [`tree_wf`]).
    pub fn check_wf(&self) -> (ok: bool)
        ensures
            ok == self.wf(),
    {
        let n = self.nodes.len();
        let mut i: usize = 0;
        while i < n
            invariant
                n == self.nodes.len(),
                n == self@.len(),
                i <= n,
                forall|a: int, k: int|
                    #![trigger self@[a].subclasses.unwrap()[k]]
                    0 <= a < i && self@[a].subclasses is Some && 0 <= k < self@[a].subclasses.unwrap().len()
                        ==> a < self@[a].subclasses.unwrap()[k] < n,
                forall|a: int| 0 <= a < i && #[trigger] self@[a].parent is Some ==> self@[a].parent.unwrap() < a,
            decreases n - i,
        {
            proof {
                lemma_node_view(self, i as int);
            }
            let node = &self.nodes[i];
            match node.parent {
                Some(p) => {
                    if p >= i {
                        assert(self@[i as int].parent is Some);
                        assert(self@[i as int].parent.unwrap() == p);
                        return false;
                    }
                },
                None => {},
            }
            match &node.subclasses {
                Some(ch) => {
                    let mut k: usize = 0;
                    while k < ch.len()
                        invariant
                            n == self@.len(),
                            i < n,
                            self@[i as int].subclasses == Some(ch@),
                            k <= ch.len(),
                            forall|m: int| 0 <= m < k ==> i < #[trigger] ch@[m] < n,
                        decreases ch.len() - k,
                    {
                        if ch[k] <= i || ch[k] >= n {
                            assert(self@[i as int].subclasses.unwrap()[k as int] == ch@[k as int]);
                            return false;
                        }
                        k = k + 1;
                    }
                },
                None => {},
            }
            i = i + 1;
        }
        true
    }

    /// Follows the superclass links up from class `i` to the top.
    pub fn find_root(&self, i: usize) -> (root: usize)
        requires
            self.wf(),
        ensures
            root as int == root_spec(self@, i as int),
    {
        let mut current = i;
        while current < self.nodes.len() && self.nodes[current].parent.is_some()
            invariant
                self.wf(),
                root_spec(self@, current as int) == root_spec(self@, i as int),
            decreases current,
        {
            proof {
                lemma_node_view(self, current as int);
            }
            let p = self.nodes[current].parent.unwrap();
            current = p;
        }
        if current < self.nodes.len() {
            proof {
                lemma_node_view(self, current as int);
            }
        }
        current
    }

    /// The roots of the trees that hold `classes`, each once, in the order in
    /// which they first appear.
    pub fn distinct_roots(&self, classes: &Vec<usize>) -> (roots: Vec<usize>)
        requires
            self.wf(),
        ensures
            roots@ == distinct_roots_spec(self@, classes@),
    {
        let mut roots: Vec<usize> = Vec::new();
        let mut k: usize = 0;
        assert(classes@.subrange(0, 0) =~= Seq::<usize>::empty());
        while k < classes.len()
            invariant
                self.wf(),
                k <= classes.len(),
                roots@ == distinct_roots_spec(self@, classes@.subrange(0, k as int)),
            decreases classes.len() - k,
        {
            let ghost next = classes@.subrange(0, k + 1);
            assert(next.drop_last() =~= classes@.subrange(0, k as int));
            let r = self.find_root(classes[k]);
            let mut seen = false;
            let mut j: usize = 0;
            while j < roots.len()
                invariant
                    j <= roots.len(),
                    seen == (exists|m: int| 0 <= m < j && roots@[m] == r),
                decreases roots.len() - j,
            {
                if roots[j] == r {
                    seen = true;
                }
                j = j + 1;
            }
            assert(seen == roots@.contains(r));
            if !seen {
                roots.push(r);
            }
            k = k + 1;
        }
        assert(classes@.subrange(0, classes@.len() as int) =~= classes@);
        roots
    }

    /// Every change that re-laying out the trees holding `classes` makes: the
    /// trees of their distinct roots, laid out one after the other. `None`
    /// when the width of one of those trees does not fit in a `u64`.
    pub fn relayout(&self, classes: &Vec<usize>, spacing: u64) -> (res: Option<Vec<LayoutAction>>)
        requires
            self.wf(),
        ensures
            match res {
                Some(v) => trees_fit(self@, distinct_roots_spec(self@, classes@), spacing as nat)
                    && v@ == relayout_spec(self@, distinct_roots_spec(self@, classes@), spacing as nat),
                None => !trees_fit(self@, distinct_roots_spec(self@, classes@), spacing as nat),
            },
    {
        let roots = self.distinct_roots(classes);
        let mut out: Vec<LayoutAction> = Vec::new();
        let mut k: usize = 0;
        assert(roots@.subrange(0, 0) =~= Seq::<usize>::empty());
        while k < roots.len()
            invariant
                self.wf(),
                k <= roots.len(),
                roots@ == distinct_roots_spec(self@, classes@),
                trees_fit(self@, roots@.subrange(0, k as int), spacing as nat),
                out@ == relayout_spec(self@, roots@.subrange(0, k as int), spacing as nat),
            decreases roots.len() - k,
        {
            let ghost next = roots@.subrange(0, k + 1);
            assert(next.drop_last() =~= roots@.subrange(0, k as int));
            match self.subtree_width(roots[k], spacing) {
                Some(_) => {
                    self.layout_subtree(roots[k], spacing, &mut out);
                    assert(next[k as int] == roots@[k as int]);
                },
                None => {
                    assert(subtree_width_spec(self@, roots@[k as int] as int, spacing as nat) > u64::MAX);
                    assert(!trees_fit(self@, roots@, spacing as nat));
                    return None;
                },
            }
            k = k + 1;
        }
        assert(roots@.subrange(0, roots@.len() as int) =~= roots@);
        Some(out)
    }
}


/// The subclass slots of a class that shows its subclasses tile its width
/// without gaps or overlaps: the first starts at `-W/2`, each next one
/// starts where the one before ends, the last ends at `W/2`, and none is
/// narrower than `spacing` (positions in quarter units).
pub proof fn law_slots_tile_width(t: Seq<ClassNodeView>, i: int, spacing: nat)
    requires
        shows_children(t, i),
    ensures
        ({
            let n = child_count(t, i) as int;
            let w = subtree_width_spec(t, i, spacing) as int;
            &&& slot_center4(t, i, 0, spacing) - 2 * slot_width(t, i, 0, spacing) == -2 * w
            &&& slot_center4(t, i, n - 1, spacing) + 2 * slot_width(t, i, n - 1, spacing) == 2 * w
            &&& forall|k: int|
                0 <= k < n - 1 ==> #[trigger] slot_center4(t, i, k + 1, spacing) - 2 * slot_width(
                    t,
                    i,
                    k + 1,
                    spacing,
                ) == slot_center4(t, i, k, spacing) + 2 * slot_width(t, i, k, spacing)
            &&& forall|k: int| 0 <= k < n ==> #[trigger] slot_width(t, i, k, spacing) >= spacing
        }),
{
    let n = child_count(t, i) as int;
    assert(slots_sum(t, i, 0, spacing) == 0);
    assert(slots_sum(t, i, n, spacing) == slots_sum(t, i, n - 1, spacing) + slot_width(
        t,
        i,
        n - 1,
        spacing,
    ));
    assert forall|k: int| 0 <= k < n - 1 implies #[trigger] slot_center4(t, i, k + 1, spacing) - 2
        * slot_width(t, i, k + 1, spacing) == slot_center4(t, i, k, spacing) + 2 * slot_width(
        t,
        i,
        k,
        spacing,
    ) by {
        assert(slots_sum(t, i, k + 1, spacing) == slots_sum(t, i, k, spacing) + slot_width(
            t,
            i,
            k,
            spacing,
        ));
    }
}

/// A collapsed class only hides its horizontal beam: none of its subclasses
/// is moved and nothing under it is laid out.
pub proof fn law_collapsed_hides_subtree(t: Seq<ClassNodeView>, i: int, spacing: nat)
    requires
        0 <= i < t.len(),
        t[i].laid_out,
        t[i].subclasses is Some,
        t[i].collapsed,
    ensures
        layout_spec(t, i, spacing) == seq![
            LayoutAction::BeamVisibility { class: i as usize, visible: false },
        ],
        subtree_width_spec(t, i, spacing) == 0,
{
}

/// Following superclass links ends at a class without a superclass (or at
/// an index outside the tree), and starting from that class stays there.
pub proof fn law_root_is_top(t: Seq<ClassNodeView>, i: int)
    requires
        tree_wf(t),
    ensures
        0 <= root_spec(t, i) < t.len() ==> t[root_spec(t, i)].parent is None,
        root_spec(t, root_spec(t, i)) == root_spec(t, i),
    decreases i,
{
    if 0 <= i < t.len() && t[i].parent is Some && 0 <= t[i].parent.unwrap() < i {
        law_root_is_top(t, t[i].parent.unwrap() as int);
    } else if 0 <= i < t.len() && t[i].parent is Some {
        assert(t[i].parent.unwrap() < i);
    }
}

proof fn lemma_children_layout_moves(t: Seq<ClassNodeView>, i: int, m: int, k: int, spacing: nat) -> (p: int)
    requires
        tree_wf(t),
        0 <= i < t.len(),
        t[i].subclasses is Some,
        0 <= k < m <= t[i].subclasses.unwrap().len(),
    ensures
        ({
            let c = t[i].subclasses.unwrap()[k];
            let cl = children_layout_spec(t, i, m, spacing);
            let sub = layout_spec(t, c as int, spacing);
            &&& 0 <= p
            &&& p + 1 + sub.len() <= cl.len()
            &&& cl[p] matches LayoutAction::MoveChild { child, .. } && child == c
            &&& cl.subrange(p + 1, p + 1 + sub.len()) == sub
        }),
    decreases m,
{
    let subs = t[i].subclasses.unwrap();
    let c = subs[m - 1] as int;
    assert(i < c < t.len());
    let prev = children_layout_spec(t, i, m - 1, spacing);
    let mv = seq![
        LayoutAction::MoveChild { child: c as usize, x4: slot_center4(t, i, m - 1, spacing) as i128 },
    ];
    let below = layout_spec(t, c, spacing);
    let cl = children_layout_spec(t, i, m, spacing);
    assert(cl == prev + mv + below);
    if k == m - 1 {
        let p = prev.len() as int;
        assert(cl[p] == mv[0]);
        assert(cl.subrange(p + 1, p + 1 + below.len()) =~= below);
        p
    } else {
        let p = lemma_children_layout_moves(t, i, m - 1, k, spacing);
        let ck = subs[k] as int;
        let sub = layout_spec(t, ck, spacing);
        assert(cl[p] == prev[p]);
        assert(cl.subrange(p + 1, p + 1 + sub.len()) =~= prev.subrange(p + 1, p + 1 + sub.len()));
        p
    }
}

/// A laid-out class with a non-empty subclass list that is not collapsed
/// shows its beam, and its layout moves every listed subclass, each move
/// followed at once by that subclass's own layout; its subtree is at least
/// `spacing` wide. So a hidden beam means an empty list or a collapsed class.
pub proof fn law_shown_subclasses_are_placed(t: Seq<ClassNodeView>, i: int, spacing: nat)
    requires
        tree_wf(t),
        0 <= i < t.len(),
        t[i].laid_out,
        t[i].subclasses is Some,
        t[i].subclasses.unwrap().len() > 0,
        !t[i].collapsed,
    ensures
        layout_spec(t, i, spacing)[0] == (LayoutAction::BeamVisibility { class: i as usize, visible: true }),
        subtree_width_spec(t, i, spacing) >= spacing,
        forall|k: int|
            #![trigger t[i].subclasses.unwrap()[k]]
            0 <= k < t[i].subclasses.unwrap().len() ==> exists|p: int|
                #![trigger layout_spec(t, i, spacing)[p]]
                0 <= p && p + 1 + layout_spec(t, t[i].subclasses.unwrap()[k] as int, spacing).len()
                    <= layout_spec(t, i, spacing).len() && (layout_spec(t, i, spacing)[p] matches LayoutAction::MoveChild { child, .. }
                    && child == t[i].subclasses.unwrap()[k]) && layout_spec(t, i, spacing).subrange(
                    p + 1,
                    p + 1 + layout_spec(t, t[i].subclasses.unwrap()[k] as int, spacing).len(),
                ) == layout_spec(t, t[i].subclasses.unwrap()[k] as int, spacing),
{
    let n = t[i].subclasses.unwrap().len() as int;
    assert(shows_children(t, i));
    lemma_slots_sum_monotone(t, i, 0, n, spacing);
    let lay = layout_spec(t, i, spacing);
    let cl = children_layout_spec(t, i, n, spacing);
    let head = seq![LayoutAction::BeamVisibility { class: i as usize, visible: true }];
    let first4 = slot_center4(t, i, 0, spacing);
    let last4 = slot_center4(t, i, n - 1, spacing);
    let tail = seq![
        LayoutAction::ResizeBeam {
            class: i as usize,
            span4: (last4 - first4) as i128,
            midpoint4: ((first4 + last4) / 2) as i128,
        },
    ];
    assert(lay == head + cl + tail);
    assert(lay[0] == head[0]);
    assert forall|k: int| #![trigger t[i].subclasses.unwrap()[k]] 0 <= k < n implies exists|p: int|
        #![trigger layout_spec(t, i, spacing)[p]]
        0 <= p && p + 1 + layout_spec(t, t[i].subclasses.unwrap()[k] as int, spacing).len()
            <= layout_spec(t, i, spacing).len() && (layout_spec(t, i, spacing)[p] matches LayoutAction::MoveChild { child, .. }
            && child == t[i].subclasses.unwrap()[k]) && layout_spec(t, i, spacing).subrange(
            p + 1,
            p + 1 + layout_spec(t, t[i].subclasses.unwrap()[k] as int, spacing).len(),
        ) == layout_spec(t, t[i].subclasses.unwrap()[k] as int, spacing) by {
        let q = lemma_children_layout_moves(t, i, n, k, spacing);
        let sub = layout_spec(t, t[i].subclasses.unwrap()[k] as int, spacing);
        assert(lay[q + 1] == cl[q]);
        assert(lay.subrange(q + 2, q + 2 + sub.len()) =~= cl.subrange(q + 1, q + 1 + sub.len()));
    }
}

proof fn lemma_root_bounds(t: Seq<ClassNodeView>, i: int)
    requires
        0 <= i,
    ensures
        0 <= root_spec(t, i) <= i,
    decreases i,
{
    if 0 <= i < t.len() && t[i].parent is Some && 0 <= t[i].parent.unwrap() < i {
        lemma_root_bounds(t, t[i].parent.unwrap() as int);
    }
}

/// The distinct roots of a list of classes hold the root of every listed
/// class, hold nothing but roots of listed classes, and hold each only once.
pub proof fn law_distinct_roots_cover(t: Seq<ClassNodeView>, classes: Seq<usize>)
    ensures
        forall|k: int|
            0 <= k < classes.len() ==> distinct_roots_spec(t, classes).contains(
                root_spec(t, #[trigger] classes[k] as int) as usize,
            ),
        forall|m: int|
            0 <= m < distinct_roots_spec(t, classes).len() ==> exists|k: int|
                0 <= k < classes.len() && #[trigger] distinct_roots_spec(t, classes)[m] as int
                    == root_spec(t, #[trigger] classes[k] as int),
        forall|a: int, b: int|
            0 <= a < b < distinct_roots_spec(t, classes).len() ==> distinct_roots_spec(t, classes)[a]
                != distinct_roots_spec(t, classes)[b],
    decreases classes.len(),
{
    if classes.len() > 0 {
        let init = classes.drop_last();
        law_distinct_roots_cover(t, init);
        let rest = distinct_roots_spec(t, init);
        let last = classes.last() as int;
        lemma_root_bounds(t, last);
        let r = root_spec(t, last) as usize;
        let roots = distinct_roots_spec(t, classes);
        assert(roots == if rest.contains(r) { rest } else { rest.push(r) });
        assert forall|k: int| 0 <= k < classes.len() implies roots.contains(
            root_spec(t, #[trigger] classes[k] as int) as usize,
        ) by {
            if k < classes.len() - 1 {
                assert(classes[k] == init[k]);
                let x = root_spec(t, init[k] as int) as usize;
                assert(rest.contains(x));
                if !rest.contains(r) {
                    let m = choose|m: int| 0 <= m < rest.len() && rest[m] == x;
                    assert(roots[m] == x);
                }
            } else {
                if !rest.contains(r) {
                    assert(roots[rest.len() as int] == r);
                }
            }
        }
        assert forall|m: int| 0 <= m < roots.len() implies exists|k: int|
            0 <= k < classes.len() && #[trigger] roots[m] as int == root_spec(t, #[trigger] classes[k] as int) by {
            if m < rest.len() {
                assert(roots[m] == rest[m]);
                let k = choose|k: int|
                    0 <= k < init.len() && #[trigger] rest[m] as int == root_spec(t, #[trigger] init[k] as int);
                assert(classes[k] == init[k]);
            } else {
                assert(roots[m] == r);
                assert(classes[classes.len() - 1] as int == last);
            }
        }
    }
}

} // verus!
