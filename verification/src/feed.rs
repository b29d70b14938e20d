//! What the window's mouse events mean to the backend.
//!
//! The routing decides whether a position is on the panel at all, and the
//! touchscreen decides what a contact was. This is where what the two decided
//! becomes what the backend is handed, and nothing else: the framework reads
//! every gesture out of the backend's input.

use vstd::prelude::*;

use crate::click::{answers, hit_of, owned, route, Hit};
use crate::device::{Button, Point, SwipeDir};
use crate::layout::BezelLayout;
use crate::touch::{EdgeGesture, Touch, Touches};

verus! {

/// One thing the backend is told.
#[derive(Copy, Clone, Debug, PartialEq, Eq, Structural)]
pub enum Feed {
    /// A finger is on the panel at this pixel.
    TouchDown(Point),
    /// The finger lifted.
    TouchUp,
    /// A tap at this pixel.
    Tap(Point),
    /// A plain swipe.
    Swipe(SwipeDir),
    /// The back gesture, in the backend's input.
    BackGesture,
    /// The home gesture, in the backend's input.
    HomeGesture,
    /// A button goes down.
    Press(Button),
    /// A button comes up.
    Release(Button),
}

/// Whether any of `touches` is an edge gesture.
pub open spec fn has_edge(touches: Seq<Touch>) -> bool {
    exists|i: int| 0 <= i < touches.len() && (#[trigger] touches[i]) is Edge
}

/// What one classified touch hands the backend, `edged` when the same event
/// also produced an edge gesture.
pub open spec fn fed(touch: Touch, edged: bool) -> Seq<Feed> {
    match touch {
        Touch::Held(at) => seq![Feed::TouchDown(at)],
        Touch::Released => seq![Feed::TouchUp],
        Touch::Tap(at) => seq![Feed::Tap(at)],
        Touch::Swipe(d) => if edged {
            Seq::empty()
        } else {
            seq![Feed::Swipe(d)]
        },
        Touch::Edge(EdgeGesture::Back) => seq![
            Feed::BackGesture,
            Feed::Press(Button::Back),
            Feed::Release(Button::Back),
        ],
        Touch::Edge(EdgeGesture::Home) => seq![Feed::HomeGesture],
        Touch::LongPress(_) => Seq::empty(),
        Touch::Edge(EdgeGesture::Menu) => Seq::empty(),
    }
}

/// What a run of touches hands the backend, in order.
pub open spec fn fed_all(touches: Seq<Touch>, edged: bool) -> Seq<Feed>
    decreases touches.len(),
{
    if touches.len() == 0 {
        Seq::empty()
    } else {
        fed_all(touches.drop_last(), edged) + fed(touches.last(), edged)
    }
}

/// What the touchscreen decided, as the backend is to be told it.
///
/// An edge swipe arrives as both the swipe and its edge meaning, as on the
/// device, and only the meaning is delivered: feeding both would go home and
/// move focus in the same frame. A back gesture is also a `Back` press and its
/// release, which is what it is on the device. A long press and the menu
/// gesture have nowhere to go yet.
pub fn deliver(touches: &Touches) -> (out: Vec<Feed>)
    ensures
        out@ == fed_all(touches@, has_edge(touches@)),
{
    let all = touches.iter();
    let mut edged = false;
    let mut i: usize = 0;
    while i < all.len()
        invariant
            all@ == touches@,
            i <= all@.len(),
            edged == exists|k: int| 0 <= k < i && (#[trigger] all@[k]) is Edge,
        decreases all@.len() - i,
    {
        if let Touch::Edge(_) = all[i] {
            edged = true;
        }
        i = i + 1;
    }
    let mut out: Vec<Feed> = Vec::new();
    let mut j: usize = 0;
    while j < all.len()
        invariant
            all@ == touches@,
            j <= all@.len(),
            edged == has_edge(touches@),
            out@ == fed_all(all@.subrange(0, j as int), edged),
        decreases all@.len() - j,
    {
        let touch = all[j];
        match touch {
            Touch::Held(at) => out.push(Feed::TouchDown(at)),
            Touch::Released => out.push(Feed::TouchUp),
            Touch::Tap(at) => out.push(Feed::Tap(at)),
            Touch::Swipe(d) => if !edged {
                out.push(Feed::Swipe(d));
            },
            Touch::Edge(EdgeGesture::Back) => {
                out.push(Feed::BackGesture);
                out.push(Feed::Press(Button::Back));
                out.push(Feed::Release(Button::Back));
            },
            Touch::Edge(EdgeGesture::Home) => out.push(Feed::HomeGesture),
            Touch::LongPress(_) => {},
            Touch::Edge(EdgeGesture::Menu) => {},
        }
        proof {
            assert(all@.subrange(0, j + 1).drop_last() =~= all@.subrange(0, j as int));
        }
        j = j + 1;
    }
    assert(all@.subrange(0, all@.len() as int) =~= all@);
    out
}

/// Where a mouse position is on the panel, or `None` when it is not there at
/// all: routed rather than believed, because the window reports a position a
/// pixel above the panel as the panel's top row.
pub fn panel_point(layout: Option<&BezelLayout>, at: Point, on_panel: Option<Point>) -> (p: Option<Point>)
    requires
        answers(owned(layout), at),
    ensures
        match hit_of(owned(layout), at, on_panel) {
            Hit::Panel(q) => p == Some(q),
            _ => p is None,
        },
{
    match route(layout, at, on_panel) {
        Hit::Panel(point) => Some(point),
        Hit::Key(_) | Hit::Body => None,
    }
}

/// What two runs of touches hand the backend is what each hands it, in order.
proof fn lemma_fed_all_append(a: Seq<Touch>, b: Seq<Touch>, edged: bool)
    ensures
        fed_all(a + b, edged) == fed_all(a, edged) + fed_all(b, edged),
    decreases b.len(),
{
    if b.len() == 0 {
        assert(a + b =~= a);
        assert(fed_all(a, edged) + fed_all(b, edged) =~= fed_all(a, edged));
    } else {
        lemma_fed_all_append(a, b.drop_last(), edged);
        assert((a + b).drop_last() =~= a + b.drop_last());
        assert((a + b).last() == b.last());
        assert(fed_all(a + b, edged) =~= fed_all(a, edged) + fed_all(b, edged));
    }
}

/// Each touch's own feed appears in what the run hands the backend, at the
/// place the touch came.
proof fn lemma_fed_in_place(touches: Seq<Touch>, i: int, e: bool) -> (k: int)
    requires
        0 <= i < touches.len(),
    ensures
        0 <= k,
        k + fed(touches[i], e).len() <= fed_all(touches, e).len(),
        fed_all(touches, e).subrange(k, k + fed(touches[i], e).len()) == fed(touches[i], e),
{
    let front = touches.take(i);
    let rest = touches.skip(i + 1);
    assert(touches =~= front + seq![touches[i]] + rest);
    lemma_fed_all_append(front + seq![touches[i]], rest, e);
    lemma_fed_all_append(front, seq![touches[i]], e);
    assert(seq![touches[i]].drop_last() =~= Seq::<Touch>::empty());
    assert(fed_all(Seq::<Touch>::empty(), e) =~= Seq::<Feed>::empty());
    assert(seq![touches[i]].last() == touches[i]);
    let one = fed_all(seq![touches[i]], e);
    assert(one == fed_all(seq![touches[i]].drop_last(), e) + fed(touches[i], e));
    assert(one =~= fed(touches[i], e));
    let all = fed_all(touches, e);
    let k = fed_all(front, e).len() as int;
    assert(all == fed_all(front, e) + one + fed_all(rest, e));
    assert(all.subrange(k, k + one.len()) =~= one);
    k
}

/// The finger is delivered where it is: a finger held at a point is the
/// finger down there, a lift is the finger up, a tap is a tap at the same
/// point, and the home gesture is the home gesture, each at its place in
/// the run.
pub proof fn each_touch_is_delivered_as_itself(touches: Seq<Touch>, i: int)
    requires
        0 <= i < touches.len(),
    ensures
        touches[i] matches Touch::Held(p) ==> fed_all(touches, has_edge(touches)).contains(Feed::TouchDown(p)),
        touches[i] matches Touch::Tap(p) ==> fed_all(touches, has_edge(touches)).contains(Feed::Tap(p)),
        touches[i] == Touch::Released ==> fed_all(touches, has_edge(touches)).contains(Feed::TouchUp),
        touches[i] == Touch::Edge(EdgeGesture::Home) ==> fed_all(touches, has_edge(touches)).contains(
            Feed::HomeGesture,
        ),
{
    let e = has_edge(touches);
    let k = lemma_fed_in_place(touches, i, e);
    let all = fed_all(touches, e);
    let one = fed(touches[i], e);
    if one.len() > 0 {
        assert(all[k] == all.subrange(k, k + one.len())[0]);
        assert(all[k] == one[0]);
    }
}

/// A back swipe is a `Back` press: wherever the touchscreen recognised the
/// back edge gesture, the backend is handed the back gesture and then `Back`
/// going down and coming up, together and in that order, in the same frame.
pub proof fn a_back_swipe_is_a_back_press(touches: Seq<Touch>, i: int)
    requires
        0 <= i < touches.len(),
        touches[i] == Touch::Edge(EdgeGesture::Back),
    ensures
        exists|k: int|
            0 <= k && k + 3 <= fed_all(touches, has_edge(touches)).len() && #[trigger] fed_all(
                touches,
                has_edge(touches),
            ).subrange(k, k + 3) == seq![Feed::BackGesture, Feed::Press(Button::Back), Feed::Release(Button::Back)],
{
    let e = has_edge(touches);
    let front = touches.take(i);
    let rest = touches.skip(i + 1);
    assert(touches =~= front + seq![touches[i]] + rest);
    lemma_fed_all_append(front + seq![touches[i]], rest, e);
    lemma_fed_all_append(front, seq![touches[i]], e);
    assert(seq![touches[i]].drop_last() =~= Seq::<Touch>::empty());
    let one = fed_all(seq![touches[i]], e);
    assert(fed_all(Seq::<Touch>::empty(), e) =~= Seq::<Feed>::empty());
    assert(seq![touches[i]].last() == touches[i]);
    assert(one == fed_all(seq![touches[i]].drop_last(), e) + fed(touches[i], e));
    assert(one =~= seq![Feed::BackGesture, Feed::Press(Button::Back), Feed::Release(Button::Back)]);
    let all = fed_all(touches, e);
    let k = fed_all(front, e).len() as int;
    assert(all == fed_all(front, e) + one + fed_all(rest, e));
    assert(all.subrange(k, k + 3) =~= one);
}

/// An edge swipe is delivered as what it means and never as the plain swipe
/// as well.
pub proof fn an_edge_swipe_is_not_also_a_swipe(touches: Seq<Touch>)
    requires
        has_edge(touches),
    ensures
        forall|d: SwipeDir| !(#[trigger] fed_all(touches, true).contains(Feed::Swipe(d))),
    decreases touches.len(),
{
    assert forall|d: SwipeDir| !(#[trigger] fed_all(touches, true).contains(Feed::Swipe(d))) by {
        lemma_no_swipe_when_edged(touches, d);
    }
}

proof fn lemma_no_swipe_when_edged(touches: Seq<Touch>, d: SwipeDir)
    ensures
        !fed_all(touches, true).contains(Feed::Swipe(d)),
    decreases touches.len(),
{
    if touches.len() > 0 {
        lemma_no_swipe_when_edged(touches.drop_last(), d);
        let before = fed_all(touches.drop_last(), true);
        let last = fed(touches.last(), true);
        assert(!last.contains(Feed::Swipe(d)));
        assert forall|i: int| 0 <= i < (before + last).len() implies (before + last)[i] != Feed::Swipe(d) by {
            if i < before.len() {
                assert((before + last)[i] == before[i]);
            } else {
                assert((before + last)[i] == last[i - before.len()]);
            }
        }
    }
}

} // verus!
