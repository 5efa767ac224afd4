use vstd::prelude::*;

verus! {

/// Layers of the user interface, from the one handled first to the one
/// handled last.
#[derive(Clone, Copy, Debug, PartialEq, Eq, PartialOrd, Ord, Hash, Structural)]
pub enum UiLayer {
    Background,
    Menu,
    Widget,
    Element,
}

/// What an element did with an input event.
#[derive(Clone, Copy, Debug, PartialEq, Eq, Structural)]
pub enum EventProcessResult {
    /// Ignored it: the next element is asked.
    Nothing,
    /// Consumed it.
    Sink,
    /// Consumed it and takes the focus.
    Focus,
    /// Gives up the focus; consumes the event only if it had the focus.
    FocusDrop,
}

/// Position of a layer in the order in which layers are handled.
pub open spec fn layer_rank(layer: UiLayer) -> int {
    match layer {
        UiLayer::Background => 0,
        UiLayer::Menu => 1,
        UiLayer::Widget => 2,
        UiLayer::Element => 3,
    }
}

fn layer_number(layer: UiLayer) -> (n: u8)
    ensures
        n as int == layer_rank(layer),
{
    match layer {
        UiLayer::Background => 0,
        UiLayer::Menu => 1,
        UiLayer::Widget => 2,
        UiLayer::Element => 3,
    }
}

/// An element of a screen that takes input: its key in the screen, its
/// layer and its depth within the layer.
#[derive(Clone, Copy, Debug, PartialEq, Eq, Structural)]
pub struct InputTarget {
    pub id: usize,
    pub layer: UiLayer,
    pub zindex: u32,
}

/// `a` is asked before `b`: by layer, then by depth, then by key.
pub open spec fn asked_before(a: InputTarget, b: InputTarget) -> bool {
    ||| layer_rank(a.layer) < layer_rank(b.layer)
    ||| layer_rank(a.layer) == layer_rank(b.layer) && a.zindex < b.zindex
    ||| layer_rank(a.layer) == layer_rank(b.layer) && a.zindex == b.zindex && a.id < b.id
}

/// The keys increase along the sequence, as a walk over a screen's
/// elements gives them.
pub open spec fn keys_increasing(targets: Seq<InputTarget>) -> bool {
    forall|i: int, j: int| 0 <= i < j < targets.len() ==> targets[i].id < targets[j].id
}

/// Every element is asked before those after it.
pub open spec fn in_asking_order(targets: Seq<InputTarget>) -> bool {
    forall|i: int, j: int|
        0 <= i < j < targets.len() ==> asked_before(#[trigger] targets[i], #[trigger] targets[j])
}

fn asks_before(a: &InputTarget, b: &InputTarget) -> (r: bool)
    ensures
        r == asked_before(*a, *b),
{
    let la = layer_number(a.layer);
    let lb = layer_number(b.layer);
    la < lb || (la == lb && a.zindex < b.zindex) || (la == lb && a.zindex == b.zindex && a.id
        < b.id)
}

/// The order in which the input elements of a screen are asked to handle
/// an event: layer by layer, within a layer by increasing depth, and
/// elements of equal depth in the order of their keys. `targets` lists the
/// elements by increasing key; the result holds the same elements.
pub fn dispatch_order(targets: &Vec<InputTarget>) -> (order: Vec<InputTarget>)
    requires
        keys_increasing(targets@),
    ensures
        order@.len() == targets@.len(),
        in_asking_order(order@),
        forall|t: InputTarget| order@.contains(t) <==> targets@.contains(t),
{
    let mut order: Vec<InputTarget> = Vec::new();
    let mut j: usize = 0;
    while j < targets.len()
        invariant
            0 <= j <= targets@.len(),
            keys_increasing(targets@),
            order@.len() == j,
            in_asking_order(order@),
            forall|t: InputTarget|
                order@.contains(t) <==> exists|k: int| 0 <= k < j && targets@[k] == t,
        decreases targets@.len() - j,
    {
        let t = targets[j];
        let mut p: usize = 0;
        while p < order.len() && asks_before(&order[p], &t)
            invariant
                0 <= p <= order@.len(),
                forall|q: int| 0 <= q < p ==> asked_before(#[trigger] order@[q], t),
            decreases order@.len() - p,
        {
            p = p + 1;
        }
        proof {
            assert forall|q: int| p <= q < order@.len() implies asked_before(
                t,
                #[trigger] order@[q],
            ) by {
                let k = choose|k: int| 0 <= k < j && targets@[k] == order@[q];
                assert(order@.contains(order@[q]));
                assert(targets@[k].id < t.id);
                if q > p {
                    assert(asked_before(order@[p as int], order@[q]));
                }
            }
        }
        let ghost before = order@;
        order.insert(p, t);
        proof {
            assert forall|a: int, b: int| 0 <= a < b < order@.len() implies asked_before(
                #[trigger] order@[a],
                #[trigger] order@[b],
            ) by {
                if b < p {
                    assert(order@[a] == before[a] && order@[b] == before[b]);
                } else if a > p {
                    assert(order@[a] == before[a - 1] && order@[b] == before[b - 1]);
                } else if a < p && b > p {
                    assert(order@[a] == before[a] && order@[b] == before[b - 1]);
                    assert(asked_before(before[a], t));
                    assert(asked_before(t, before[b - 1]));
                }
            }
            assert forall|s: InputTarget| order@.contains(s) <==> exists|k: int|
                0 <= k < j + 1 && targets@[k] == s by {
                if order@.contains(s) {
                    let i = choose|i: int| 0 <= i < order@.len() && order@[i] == s;
                    if i < p {
                        assert(before[i] == s);
                        assert(before.contains(s));
                    } else if i > p {
                        assert(before[i - 1] == s);
                        assert(before.contains(s));
                    }
                }
                if exists|k: int| 0 <= k < j + 1 && targets@[k] == s {
                    let k = choose|k: int| 0 <= k < j + 1 && targets@[k] == s;
                    if k < j {
                        assert(before.contains(s));
                        let i = choose|i: int| 0 <= i < before.len() && before[i] == s;
                        if i < p {
                            assert(order@[i] == s);
                        } else {
                            assert(order@[i + 1] == s);
                        }
                    } else {
                        assert(order@[p as int] == s);
                    }
                }
            }
        }
        j = j + 1;
    }
    proof {
        assert forall|t: InputTarget| targets@.contains(t) implies order@.contains(t) by {
            let k = choose|k: int| 0 <= k < targets@.len() && targets@[k] == t;
            assert(exists|k2: int| 0 <= k2 < j && targets@[k2] == t);
        }
    }
    order
}

/// The focus after element `id` answered `result`, and whether the event
/// was consumed there (and no further element is asked).
pub open spec fn focus_after(focused: Option<usize>, id: usize, result: EventProcessResult) -> (
    Option<usize>,
    bool,
) {
    match result {
        EventProcessResult::Nothing => (focused, false),
        EventProcessResult::Sink => (focused, true),
        EventProcessResult::Focus => (Some(id), true),
        EventProcessResult::FocusDrop => {
            if focused == Some(id) {
                (None, true)
            } else {
                (focused, false)
            }
        },
    }
}

/// Applies the answer `result` of element `id` to the focus: returns the
/// new focus and whether the event was consumed.
pub fn apply_event_result(focused: Option<usize>, id: usize, result: EventProcessResult) -> (step: (Option<usize>, bool))
    ensures
        step == focus_after(focused, id, result),
{
    match result {
        EventProcessResult::Nothing => (focused, false),
        EventProcessResult::Sink => (focused, true),
        EventProcessResult::Focus => (Some(id), true),
        EventProcessResult::FocusDrop => {
            let is_focused = match focused {
                Some(target) => target == id,
                None => false,
            };
            if is_focused {
                (None, true)
            } else {
                (focused, false)
            }
        },
    }
}

/// An event that is not consumed leaves the focus as it was; the focus
/// only moves to the element that answered or away from it.
pub proof fn lemma_focus_moves_only_on_consume(
    focused: Option<usize>,
    id: usize,
    result: EventProcessResult,
)
    ensures
        !focus_after(focused, id, result).1 ==> focus_after(focused, id, result).0 == focused,
        focus_after(focused, id, result).0 == focused || focus_after(focused, id, result).0 == Some(
            id,
        ) || (focused == Some(id) && focus_after(focused, id, result).0 is None),
{
}


/// The focus, and whether the event was consumed, after the elements of
/// `order` answered `answers` one by one, starting from `focused`: each
/// answer goes through `focus_after` until one consumes the event, after
/// which no element is asked.
pub open spec fn route_state(
    order: Seq<InputTarget>,
    focused: Option<usize>,
    answers: Seq<EventProcessResult>,
) -> (Option<usize>, bool)
    decreases answers.len(),
{
    if answers.len() == 0 {
        (focused, false)
    } else {
        let prev = route_state(order, focused, answers.drop_last());
        if prev.1 {
            prev
        } else {
            focus_after(prev.0, order[answers.len() - 1].id, answers.last())
        }
    }
}

/// An input event on its way through a screen's elements: the elements in
/// asking order, how many have answered, and the focus and whether the
/// event is consumed so far. The caller asks the element that
/// `next_target` names and hands its answer to `answer`, until
/// `next_target` gives `None`.
pub struct EventRoute {
    order: Vec<InputTarget>,
    asked: usize,
    focused: Option<usize>,
    consumed: bool,
    start_focus: Ghost<Option<usize>>,
    answers: Ghost<Seq<EventProcessResult>>,
}

impl EventRoute {
    /// The elements in the order in which they are asked.
    pub closed spec fn order_view(&self) -> Seq<InputTarget> {
        self.order@
    }

    /// The focus when the event arrived.
    pub closed spec fn start_focus(&self) -> Option<usize> {
        self.start_focus@
    }

    /// The answers given so far, in asking order.
    pub closed spec fn answers(&self) -> Seq<EventProcessResult> {
        self.answers@
    }

    /// The route's state agrees with the fold of its answers.
    pub closed spec fn wf(&self) -> bool {
        &&& self.answers@.len() == self.asked
        &&& self.asked <= self.order@.len()
        &&& (self.focused, self.consumed) == route_state(self.order@, self.start_focus@, self.answers@)
    }

    /// Starts routing an event over the input elements `targets`, listed by
    /// increasing key, with `focused` the element that has the focus.
    pub fn new(targets: &Vec<InputTarget>, focused: Option<usize>) -> (route: EventRoute)
        requires
            keys_increasing(targets@),
        ensures
            route.wf(),
            route.order_view().len() == targets@.len(),
            in_asking_order(route.order_view()),
            forall|t: InputTarget| route.order_view().contains(t) <==> targets@.contains(t),
            route.start_focus() == focused,
            route.answers() == Seq::<EventProcessResult>::empty(),
    {
        let order = dispatch_order(targets);
        EventRoute {
            order,
            asked: 0,
            focused,
            consumed: false,
            start_focus: Ghost(focused),
            answers: Ghost(Seq::empty()),
        }
    }

    /// The element to ask next, with whether it has the focus; `None` once
    /// the event is consumed or every element has answered.
    pub fn next_target(&self) -> (next: Option<(usize, bool)>)
        requires
            self.wf(),
        ensures
            ({
                let state = route_state(self.order_view(), self.start_focus(), self.answers());
                let k = self.answers().len() as int;
                match next {
                    Some((id, is_focused)) => !state.1 && k < self.order_view().len() && id
                        == self.order_view()[k].id && is_focused == (state.0 == Some(id)),
                    None => state.1 || k == self.order_view().len(),
                }
            }),
    {
        if self.consumed || self.asked >= self.order.len() {
            None
        } else {
            let id = self.order[self.asked].id;
            let is_focused = match self.focused {
                Some(f) => f == id,
                None => false,
            };
            Some((id, is_focused))
        }
    }

    /// Records the answer of the element that `next_target` named.
    pub fn answer(&mut self, result: EventProcessResult)
        requires
            old(self).wf(),
            !route_state(old(self).order_view(), old(self).start_focus(), old(self).answers()).1,
            old(self).answers().len() < old(self).order_view().len(),
        ensures
            final(self).wf(),
            final(self).order_view() == old(self).order_view(),
            final(self).start_focus() == old(self).start_focus(),
            final(self).answers() == old(self).answers().push(result),
    {
        let n = self.order.len();
        let id = self.order[self.asked].id;
        assert(self.asked < n);
        let step = apply_event_result(self.focused, id, result);
        proof {
            let a = self.answers@.push(result);
            assert(a.drop_last() =~= self.answers@);
        }
        self.focused = step.0;
        self.consumed = step.1;
        self.asked = self.asked + 1;
        self.answers = Ghost(self.answers@.push(result));
    }

    /// Whether the event has been consumed.
    pub fn consumed(&self) -> (c: bool)
        requires
            self.wf(),
        ensures
            c == route_state(self.order_view(), self.start_focus(), self.answers()).1,
    {
        self.consumed
    }

    /// The focus as the answers so far leave it.
    pub fn focused(&self) -> (f: Option<usize>)
        requires
            self.wf(),
        ensures
            f == route_state(self.order_view(), self.start_focus(), self.answers()).0,
    {
        self.focused
    }
}

/// Answers that do not consume the event leave the focus where it was.
pub proof fn lemma_route_keeps_focus_until_consumed(
    order: Seq<InputTarget>,
    focused: Option<usize>,
    answers: Seq<EventProcessResult>,
)
    ensures
        !route_state(order, focused, answers).1 ==> route_state(order, focused, answers).0
            == focused,
    decreases answers.len(),
{
    if answers.len() > 0 {
        lemma_route_keeps_focus_until_consumed(order, focused, answers.drop_last());
        let prev = route_state(order, focused, answers.drop_last());
        if !prev.1 {
            lemma_focus_moves_only_on_consume(prev.0, order[answers.len() - 1].id, answers.last());
        }
    }
}

/// Once an answer consumes the event, further answers change nothing.
pub proof fn lemma_route_stops_when_consumed(
    order: Seq<InputTarget>,
    focused: Option<usize>,
    answers: Seq<EventProcessResult>,
    more: Seq<EventProcessResult>,
)
    requires
        route_state(order, focused, answers).1,
    ensures
        route_state(order, focused, answers + more) == route_state(order, focused, answers),
    decreases more.len(),
{
    if more.len() > 0 {
        lemma_route_stops_when_consumed(order, focused, answers, more.drop_last());
        assert((answers + more).drop_last() =~= answers + more.drop_last());
    }
}


/// Once an answer consumes the event, the focus is where the consuming
/// answer left it: unchanged after `Sink`, on the element that answered
/// `Focus`, or dropped by the focused element that answered `FocusDrop`.
pub proof fn lemma_route_focus_when_consumed(
    order: Seq<InputTarget>,
    focused: Option<usize>,
    answers: Seq<EventProcessResult>,
)
    requires
        route_state(order, focused, answers).1,
    ensures
        exists|k: int|
            #![trigger answers[k]]
            0 <= k < answers.len() && {
                let f = route_state(order, focused, answers).0;
                let id = order[k].id;
                ||| answers[k] == EventProcessResult::Sink && f == focused
                ||| answers[k] == EventProcessResult::Focus && f == Some(id)
                ||| answers[k] == EventProcessResult::FocusDrop && focused == Some(id) && f is None
            },
    decreases answers.len(),
{
    let prev = route_state(order, focused, answers.drop_last());
    if prev.1 {
        lemma_route_focus_when_consumed(order, focused, answers.drop_last());
        let k = choose|k: int|
            #![trigger answers.drop_last()[k]]
            0 <= k < answers.drop_last().len() && {
                let f = route_state(order, focused, answers.drop_last()).0;
                let id = order[k].id;
                ||| answers.drop_last()[k] == EventProcessResult::Sink && f == focused
                ||| answers.drop_last()[k] == EventProcessResult::Focus && f == Some(id)
                ||| answers.drop_last()[k] == EventProcessResult::FocusDrop && focused == Some(id)
                    && f is None
            };
        assert(answers.drop_last()[k] == answers[k]);
    } else {
        lemma_route_keeps_focus_until_consumed(order, focused, answers.drop_last());
        let k = answers.len() - 1;
        assert(answers.last() == answers[k]);
    }
}

} // verus!
