use voxel_engine::skeleton::{
    channel_bones, hierarchy_is_in_range, link_skeleton, visit_order, SkeletonLinks,
};
use voxel_engine::ui::{
    apply_event_result, dispatch_order, EventProcessResult, EventRoute, InputTarget, UiLayer,
};

fn t(id: usize, layer: UiLayer, zindex: u32) -> InputTarget {
    InputTarget { id, layer, zindex }
}

#[test]
fn dispatch_by_layer_then_depth_then_key() {
    let targets = vec![
        t(0, UiLayer::Element, 0),
        t(1, UiLayer::Menu, 5),
        t(2, UiLayer::Background, 9),
        t(3, UiLayer::Menu, 1),
        t(4, UiLayer::Menu, 5),
        t(5, UiLayer::Widget, 0),
    ];
    let order: Vec<usize> = dispatch_order(&targets).iter().map(|t| t.id).collect();
    assert_eq!(order, vec![2, 3, 1, 4, 5, 0]);
}

#[test]
fn dispatch_of_nothing() {
    assert!(dispatch_order(&Vec::new()).is_empty());
}

#[test]
fn focus_transitions() {
    assert_eq!(apply_event_result(Some(3), 1, EventProcessResult::Nothing), (Some(3), false));
    assert_eq!(apply_event_result(Some(3), 1, EventProcessResult::Sink), (Some(3), true));
    assert_eq!(apply_event_result(Some(3), 1, EventProcessResult::Focus), (Some(1), true));
    assert_eq!(apply_event_result(None, 1, EventProcessResult::Focus), (Some(1), true));
    assert_eq!(apply_event_result(Some(1), 1, EventProcessResult::FocusDrop), (None, true));
    assert_eq!(apply_event_result(Some(3), 1, EventProcessResult::FocusDrop), (Some(3), false));
    assert_eq!(apply_event_result(None, 1, EventProcessResult::FocusDrop), (None, false));
}

#[test]
fn skeleton_hierarchy() {
    let nodes = vec![10, 11, 12, 13];
    let children = vec![vec![11, 99, 13], vec![12], vec![], vec![]];
    let links = link_skeleton(&nodes, &children);
    assert_eq!(links.parents, vec![None, Some(0), Some(1), Some(0)]);
    assert_eq!(links.children, vec![vec![1, 3], vec![2], vec![], vec![]]);
    assert_eq!(links.root_bones, vec![0]);
}

#[test]
fn skeleton_last_link_wins_and_duplicate_nodes() {
    // node 7 names joints 0 and 2: the node stands for bone 2
    let nodes = vec![7, 8, 7];
    let children = vec![vec![8], vec![7], vec![]];
    let links = link_skeleton(&nodes, &children);
    assert_eq!(links.parents, vec![None, Some(2), Some(1)]);
    assert_eq!(links.children, vec![vec![], vec![2], vec![1]]);
    assert_eq!(links.root_bones, vec![0]);
}

#[test]
fn skeleton_without_links() {
    let links = link_skeleton(&vec![1, 2], &vec![vec![], vec![5]]);
    assert_eq!(links.parents, vec![None, None]);
    assert_eq!(links.root_bones, vec![0, 1]);
}

fn route_with(
    targets: &Vec<InputTarget>,
    focused: Option<usize>,
    answer_of: impl Fn(usize, bool) -> EventProcessResult,
) -> (Vec<usize>, Option<usize>, bool) {
    let mut route = EventRoute::new(targets, focused);
    let mut asked = Vec::new();
    while let Some((id, is_focused)) = route.next_target() {
        asked.push(id);
        route.answer(answer_of(id, is_focused));
    }
    (asked, route.focused(), route.consumed())
}

#[test]
fn event_stops_at_the_first_consumer() {
    let targets = vec![t(0, UiLayer::Element, 0), t(1, UiLayer::Menu, 0), t(2, UiLayer::Background, 0)];
    let (asked, focus, consumed) = route_with(&targets, None, |id, _| {
        if id == 1 { EventProcessResult::Focus } else { EventProcessResult::Nothing }
    });
    assert_eq!(asked, vec![2, 1]);
    assert_eq!(focus, Some(1));
    assert!(consumed);
}

#[test]
fn unconsumed_event_asks_everyone() {
    let targets = vec![t(0, UiLayer::Widget, 3), t(1, UiLayer::Widget, 1)];
    let (asked, focus, consumed) = route_with(&targets, Some(0), |_, _| EventProcessResult::Nothing);
    assert_eq!(asked, vec![1, 0]);
    assert_eq!(focus, Some(0));
    assert!(!consumed);
}

#[test]
fn focus_drop_consumes_only_at_the_focused_element() {
    let targets = vec![t(0, UiLayer::Menu, 0), t(1, UiLayer::Menu, 1)];
    let (asked, focus, consumed) = route_with(&targets, Some(1), |_, _| EventProcessResult::FocusDrop);
    assert_eq!(asked, vec![0, 1]);
    assert_eq!(focus, None);
    assert!(consumed);
}

#[test]
fn focus_flag_names_the_focused_element() {
    let targets = vec![t(0, UiLayer::Menu, 0), t(1, UiLayer::Menu, 1)];
    let mut seen = Vec::new();
    let mut route = EventRoute::new(&targets, Some(1));
    while let Some((id, is_focused)) = route.next_target() {
        seen.push((id, is_focused));
        route.answer(EventProcessResult::Nothing);
    }
    assert_eq!(seen, vec![(0, false), (1, true)]);
}

#[test]
fn channels_of_joints_are_kept() {
    let nodes = vec![4, 7, 9];
    let targets = vec![7, 3, 4, 9, 7, 5];
    assert_eq!(channel_bones(&nodes, &targets), vec![(0, 1), (2, 0), (3, 2), (4, 1)]);
    assert_eq!(channel_bones(&vec![], &targets), vec![]);
}

#[test]
fn listed_children_have_their_parent() {
    let nodes = vec![10, 11, 12];
    let children = vec![vec![11, 12], vec![], vec![]];
    let links = link_skeleton(&nodes, &children);
    for (p, kids) in links.children.iter().enumerate() {
        for c in kids {
            assert_eq!(links.parents[*c], Some(p));
        }
    }
}

#[test]
fn bones_are_posed_after_their_parents() {
    let nodes = vec![10, 11, 12, 13];
    let children = vec![vec![11, 12], vec![], vec![13], vec![]];
    let links = link_skeleton(&nodes, &children);
    assert!(hierarchy_is_in_range(&links));
    let order = visit_order(&links).unwrap();
    assert_eq!(order, vec![0, 2, 3, 1]);
    for (k, &b) in order.iter().enumerate() {
        if let Some(p) = links.parents[b] {
            assert!(order[..k].contains(&p));
        }
    }
}

#[test]
fn last_root_is_walked_first() {
    let links = link_skeleton(&vec![1, 2], &vec![vec![], vec![]]);
    assert_eq!(visit_order(&links), Some(vec![1, 0]));
}

#[test]
fn a_cycle_gives_no_order() {
    let links = SkeletonLinks {
        parents: vec![Some(1), Some(0)],
        children: vec![vec![1], vec![0]],
        root_bones: vec![0],
    };
    assert!(hierarchy_is_in_range(&links));
    assert_eq!(visit_order(&links), None);
    let bad = SkeletonLinks { parents: vec![None], children: vec![vec![3]], root_bones: vec![0] };
    assert!(!hierarchy_is_in_range(&bad));
}
