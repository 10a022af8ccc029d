use scene_builder::layout::{ClassNode, ClassTree, LayoutAction};

fn node(parent: Option<usize>, subs: Option<Vec<usize>>) -> ClassNode {
    ClassNode { entity: 0, parent, subclasses: subs, collapsed: false, laid_out: true }
}

/// root 0 with subclasses 1 and 2; 1 has subclasses 3, 4, 5; all laid out.
fn sample() -> ClassTree {
    ClassTree {
        nodes: vec![
            node(None, Some(vec![1, 2])),
            node(Some(0), Some(vec![3, 4, 5])),
            node(Some(0), Some(vec![])),
            node(Some(1), Some(vec![])),
            node(Some(1), Some(vec![])),
            node(Some(1), None),
        ],
    }
}

#[test]
fn subtree_widths() {
    let t = sample();
    assert_eq!(t.subtree_width(3, 4), Some(0));
    assert_eq!(t.subtree_width(1, 4), Some(12));
    assert_eq!(t.subtree_width(0, 4), Some(16));
    assert_eq!(t.subtree_width(99, 4), Some(0));
}

#[test]
fn subtree_width_overflow_is_none() {
    let t = sample();
    assert_eq!(t.subtree_width(0, u64::MAX), None);
    assert_eq!(t.subtree_width(2, u64::MAX), Some(0));
}

#[test]
fn layout_of_sample_tree() {
    let t = sample();
    let mut out = Vec::new();
    t.layout_subtree(0, 4, &mut out);
    // Root: slots 12 and 4, total 16; centres -2 and 6 (x4: -8, 24).
    // Class 1: three slots of 4, total 12; centres -4, 0, 4 (x4: -16, 0, 16).
    assert_eq!(
        out,
        vec![
            LayoutAction::BeamVisibility { class: 0, visible: true },
            LayoutAction::MoveChild { child: 1, x4: -8 },
            LayoutAction::BeamVisibility { class: 1, visible: true },
            LayoutAction::MoveChild { child: 3, x4: -16 },
            LayoutAction::BeamVisibility { class: 3, visible: false },
            LayoutAction::MoveChild { child: 4, x4: 0 },
            LayoutAction::BeamVisibility { class: 4, visible: false },
            LayoutAction::MoveChild { child: 5, x4: 16 },
            LayoutAction::ResizeBeam { class: 1, span4: 32, midpoint4: 0 },
            LayoutAction::MoveChild { child: 2, x4: 24 },
            LayoutAction::BeamVisibility { class: 2, visible: false },
            LayoutAction::ResizeBeam { class: 0, span4: 32, midpoint4: 8 },
        ]
    );
}

#[test]
fn collapsed_class_hides_beam_only() {
    let mut t = sample();
    t.nodes[1].collapsed = true;
    assert_eq!(t.subtree_width(1, 4), Some(0));
    assert_eq!(t.subtree_width(0, 4), Some(8));
    let mut out = Vec::new();
    t.layout_subtree(1, 4, &mut out);
    assert_eq!(out, vec![LayoutAction::BeamVisibility { class: 1, visible: false }]);
}

#[test]
fn class_without_layout_data_is_skipped() {
    let mut t = sample();
    t.nodes[2].laid_out = false;
    let mut out = Vec::new();
    t.layout_subtree(2, 4, &mut out);
    assert!(out.is_empty());
}

#[test]
fn roots_and_relayout() {
    let t = sample();
    assert_eq!(t.find_root(4), 0);
    assert_eq!(t.find_root(0), 0);
    assert_eq!(t.distinct_roots(&vec![4, 2, 0, 3]), vec![0]);
    let all = t.relayout(&vec![5, 1], 4).expect("fits");
    let mut once = Vec::new();
    t.layout_subtree(0, 4, &mut once);
    assert_eq!(all, once);
    assert!(t.relayout(&vec![3], u64::MAX).is_none());
}

#[test]
fn odd_spacing_stays_exact() {
    let t = ClassTree {
        nodes: vec![node(None, Some(vec![1, 2])), node(Some(0), Some(vec![])), node(Some(0), Some(vec![]))],
    };
    let mut out = Vec::new();
    t.layout_subtree(0, 3, &mut out);
    // Slots 3 and 3, total 6: centres -1.5 and 1.5.
    assert_eq!(out[1], LayoutAction::MoveChild { child: 1, x4: -6 });
    assert_eq!(out[3], LayoutAction::MoveChild { child: 2, x4: 6 });
    assert_eq!(out[5], LayoutAction::ResizeBeam { class: 0, span4: 12, midpoint4: 0 });
}
