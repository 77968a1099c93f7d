//! A tag: the windows of one workspace in layout order, stacking order and
//! focus order.

use crate::config::{MAX_MASTER_FACTOR, MIN_MASTER_FACTOR};
use crate::shell::layout::TilingLayout;
use crate::shell::list::{
    cyclic, discard, exchange, find, lemma_position_some, lemma_swapped, lemma_without, position,
    step, swapped, without,
};
use crate::shell::window::WindowId;
use vstd::prelude::*;

verus! {

/// The windows of one workspace.
#[derive(Debug)]
pub struct Tag {
    /// Tiled windows in layout order.
    pub tiled: Vec<WindowId>,
    /// Floating windows, bottom to top.
    pub floating: Vec<WindowId>,
    /// All windows of the tag, the one focused last first.
    pub focus_stack: Vec<WindowId>,
    /// Layout parameters of this tag.
    pub layout: TilingLayout,
}

/// A tag as three sequences of keys and its layout parameters.
#[verifier::ext_equal]
pub struct TagView {
    pub tiled: Seq<WindowId>,
    pub floating: Seq<WindowId>,
    pub focus_stack: Seq<WindowId>,
    pub layout: TilingLayout,
}

impl View for Tag {
    type V = TagView;

    open spec fn view(&self) -> TagView {
        TagView {
            tiled: self.tiled@,
            floating: self.floating@,
            focus_stack: self.focus_stack@,
            layout: self.layout,
        }
    }
}

/// `v` held between `lo` and `hi`.
pub open spec fn clamped(v: int, lo: int, hi: int) -> int {
    if v < lo {
        lo
    } else if v > hi {
        hi
    } else {
        v
    }
}

impl TagView {
    /// The tag of a new monitor.
    pub open spec fn empty(layout: TilingLayout) -> TagView {
        TagView { tiled: Seq::empty(), floating: Seq::empty(), focus_stack: Seq::empty(), layout }
    }

    /// `id` is a window of this tag.
    pub open spec fn has(self, id: WindowId) -> bool {
        self.tiled.contains(id) || self.floating.contains(id)
    }

    /// No window occurs twice among the tiled and floating ones, the focus
    /// stack orders exactly those, and the layout parameters are valid.
    pub open spec fn wf(self) -> bool {
        &&& self.tiled.no_duplicates()
        &&& self.floating.no_duplicates()
        &&& forall|id: WindowId| !(self.tiled.contains(id) && self.floating.contains(id))
        &&& self.focus_stack.no_duplicates()
        &&& forall|id: WindowId| #[trigger] self.focus_stack.contains(id) <==> self.has(id)
        &&& self.layout.wf()
    }

    /// The windows in paint order: tiled first, then floating bottom to
    /// top.
    pub open spec fn window_ids(self) -> Seq<WindowId> {
        self.tiled + self.floating
    }

    /// The window focused last, if the tag has any.
    pub open spec fn head(self) -> Option<WindowId> {
        if self.focus_stack.len() > 0 {
            Some(self.focus_stack[0])
        } else {
            None
        }
    }

    /// The tag without `id`.
    pub open spec fn removed(self, id: WindowId) -> TagView {
        TagView {
            tiled: without(self.tiled, id),
            floating: without(self.floating, id),
            focus_stack: without(self.focus_stack, id),
            layout: self.layout,
        }
    }

    /// The tag with `id` last in its list and first in the focus stack,
    /// wherever it stood before.
    pub open spec fn added(self, id: WindowId, floating: bool) -> TagView {
        let rest = self.removed(id);
        TagView {
            tiled: if floating {
                rest.tiled
            } else {
                rest.tiled.push(id)
            },
            floating: if floating {
                rest.floating.push(id)
            } else {
                rest.floating
            },
            focus_stack: seq![id] + rest.focus_stack,
            layout: self.layout,
        }
    }

    /// The tag with `id` first in the focus stack.
    pub open spec fn promoted(self, id: WindowId) -> TagView {
        TagView { focus_stack: seq![id] + without(self.focus_stack, id), ..self }
    }

    /// The tag with the floating window `id` on top of the others.
    pub open spec fn raised(self, id: WindowId) -> TagView {
        match position(self.floating, id) {
            Some(p) => TagView { floating: self.floating.remove(p).push(id), ..self },
            None => self,
        }
    }

    /// The tag with the tiled window `current` exchanged with the one
    /// `delta` places further on the ring of tiled windows.
    pub open spec fn moved(self, current: WindowId, delta: int) -> TagView {
        match position(self.tiled, current) {
            Some(p) => TagView {
                tiled: swapped(self.tiled, p, cyclic(p, delta, self.tiled.len() as int)),
                ..self
            },
            None => self,
        }
    }

    /// The tag with the tiled window `current` exchanged with the first
    /// tiled window.
    pub open spec fn zoomed(self, current: WindowId) -> TagView {
        match position(self.tiled, current) {
            Some(p) => if p > 0 {
                TagView { tiled: swapped(self.tiled, 0, p), ..self }
            } else {
                self
            },
            None => self,
        }
    }

    /// The tiled window `delta` places after the window focused last, if
    /// that one is tiled.
    pub open spec fn cycle(self, delta: int) -> Option<WindowId> {
        match self.head() {
            Some(current) => match position(self.tiled, current) {
                Some(p) => Some(self.tiled[cyclic(p, delta, self.tiled.len() as int)]),
                None => None,
            },
            None => None,
        }
    }

    /// The tag with its master factor changed by `delta` hundredths and
    /// held within its bounds.
    pub open spec fn with_factor_step(self, delta: int) -> TagView {
        TagView {
            layout: TilingLayout {
                master_factor: clamped(
                    self.layout.master_factor + delta,
                    MIN_MASTER_FACTOR as int,
                    MAX_MASTER_FACTOR as int,
                ) as u32,
                ..self.layout
            },
            ..self
        }
    }

    /// The tag with its master count changed by `delta`, kept at one or
    /// more.
    pub open spec fn with_master_step(self, delta: int) -> TagView {
        TagView {
            layout: TilingLayout {
                master_count: clamped(self.layout.master_count + delta, 1, usize::MAX as int) as usize,
                ..self.layout
            },
            ..self
        }
    }

    /// Removal keeps a tag well formed and takes `id` out of it, nothing
    /// else.
    pub proof fn lemma_removed(self, id: WindowId)
        requires
            self.wf(),
        ensures
            self.removed(id).wf(),
            forall|x: WindowId| #[trigger] self.removed(id).has(x) <==> self.has(x) && x != id,
            forall|x: WindowId| #[trigger]
                self.removed(id).tiled.contains(x) <==> self.tiled.contains(x) && x != id,
            forall|x: WindowId| #[trigger]
                self.removed(id).floating.contains(x) <==> self.floating.contains(x) && x != id,
            !self.has(id) ==> self.removed(id) == self,
    {
        lemma_without(self.tiled, id);
        lemma_without(self.floating, id);
        lemma_without(self.focus_stack, id);
        let r = self.removed(id);
        assert forall|x: WindowId| #[trigger] r.focus_stack.contains(x) <==> r.has(x) by {
            assert(self.focus_stack.contains(x) <==> self.has(x));
        }
        if !self.has(id) {
            assert(self.focus_stack.contains(id) <==> self.has(id));
        }
    }

    /// Adding keeps a tag well formed and puts `id` into it, nothing else.
    pub proof fn lemma_added(self, id: WindowId, floating: bool)
        requires
            self.wf(),
        ensures
            self.added(id, floating).wf(),
            forall|x: WindowId| #[trigger] self.added(id, floating).has(x) <==> self.has(x) || x == id,
            forall|x: WindowId| #[trigger]
                self.added(id, floating).tiled.contains(x) <==> (self.tiled.contains(x) && x != id) || (
                x == id && !floating),
            forall|x: WindowId| #[trigger]
                self.added(id, floating).floating.contains(x) <==> (self.floating.contains(x) && x
                    != id) || (x == id && floating),
            self.added(id, floating).head() == Some(id),
            floating ==> self.added(id, floating).floating.contains(id),
            !floating ==> self.added(id, floating).tiled.contains(id),
    {
        self.lemma_removed(id);
        let r = self.removed(id);
        let a = self.added(id, floating);
        lemma_without(self.tiled, id);
        lemma_without(self.floating, id);
        lemma_without(self.focus_stack, id);
        assert(!r.tiled.contains(id));
        assert(!r.floating.contains(id));
        assert(!r.focus_stack.contains(id));
        lemma_pushed(r.tiled, id);
        lemma_pushed(r.floating, id);
        lemma_fronted(r.focus_stack, id);
        assert forall|x: WindowId| #[trigger] a.has(x) <==> self.has(x) || x == id by {
            assert(r.has(x) <==> self.has(x) && x != id);
        }
        assert forall|x: WindowId| #[trigger] a.focus_stack.contains(x) <==> a.has(x) by {
            assert(r.focus_stack.contains(x) <==> r.has(x));
        }
        assert forall|x: WindowId| !(a.tiled.contains(x) && a.floating.contains(x)) by {
            assert(!(r.tiled.contains(x) && r.floating.contains(x)));
            assert(r.has(id) <==> self.has(id) && id != id);
        }
    }

    /// Adding a window again in the same way changes nothing.
    pub proof fn lemma_added_twice(self, id: WindowId, floating: bool)
        ensures
            self.added(id, floating).added(id, floating) == self.added(id, floating),
    {
        let rest = self.removed(id);
        let once = self.added(id, floating);
        lemma_without(self.tiled, id);
        lemma_without(self.floating, id);
        lemma_without(self.focus_stack, id);
        lemma_without(rest.tiled, id);
        lemma_without(rest.floating, id);
        lemma_without(rest.focus_stack, id);
        crate::shell::list::lemma_without_push(rest.tiled, id, id);
        crate::shell::list::lemma_without_push(rest.floating, id, id);
        lemma_without_front(rest.focus_stack, id);
        assert(once.removed(id) =~~= rest);
        assert(once.added(id, floating) =~~= once);
    }

    /// Promotion keeps a tag well formed where `id` is a window of it.
    pub proof fn lemma_promoted(self, id: WindowId)
        requires
            self.wf(),
            self.has(id),
        ensures
            self.promoted(id).wf(),
            self.promoted(id).head() == Some(id),
    {
        lemma_without(self.focus_stack, id);
        lemma_fronted(without(self.focus_stack, id), id);
        let p = self.promoted(id);
        assert forall|x: WindowId| #[trigger] p.focus_stack.contains(x) <==> p.has(x) by {
            assert(self.focus_stack.contains(x) <==> self.has(x));
        }
    }

    /// Raising keeps a tag well formed and its windows the same.
    pub proof fn lemma_raised(self, id: WindowId)
        requires
            self.wf(),
        ensures
            self.raised(id).wf(),
            forall|x: WindowId| #[trigger] self.raised(id).floating.contains(x) <==> self.floating.contains(x),
            self.raised(id).tiled == self.tiled,
    {
        lemma_position_some(self.floating, id);
        match position(self.floating, id) {
            Some(p) => {
                let s = self.floating;
                let cut = s.remove(p);
                let t = cut.push(id);
                assert forall|x: WindowId| #[trigger] t.contains(x) <==> s.contains(x) by {
                    if t.contains(x) {
                        let k = choose|k: int| 0 <= k < t.len() && t[k] == x;
                        if k == t.len() - 1 {
                            assert(s[p] == x);
                        } else if k < p {
                            assert(s[k] == x);
                        } else {
                            assert(s[k + 1] == x);
                        }
                    }
                    if s.contains(x) {
                        let k = choose|k: int| 0 <= k < s.len() && s[k] == x;
                        if k == p {
                            assert(t[t.len() - 1] == x);
                        } else if k < p {
                            assert(t[k] == x);
                        } else {
                            assert(t[k - 1] == x);
                        }
                    }
                }
                assert forall|a: int, b: int|
                    0 <= a < t.len() && 0 <= b < t.len() && a != b
                    implies t[a] != t[b] by {
                    let pa = if a == t.len() - 1 { p } else if a < p { a } else { a + 1 };
                    let pb = if b == t.len() - 1 { p } else if b < p { b } else { b + 1 };
                    assert(t[a] == s[pa]);
                    assert(t[b] == s[pb]);
                    assert(pa != pb);
                }
                let r = self.raised(id);
                assert forall|x: WindowId| #[trigger] r.focus_stack.contains(x) <==> r.has(x) by {
                    assert(self.focus_stack.contains(x) <==> self.has(x));
                }
                assert forall|x: WindowId| !(r.tiled.contains(x) && r.floating.contains(x)) by {
                    assert(!(self.tiled.contains(x) && self.floating.contains(x)));
                }
            },
            None => {},
        }
    }

    /// An exchange of two tiled windows keeps a tag well formed and its
    /// windows the same.
    pub proof fn lemma_exchanged(self, i: int, j: int)
        requires
            self.wf(),
            0 <= i < self.tiled.len(),
            0 <= j < self.tiled.len(),
        ensures
            (TagView { tiled: swapped(self.tiled, i, j), ..self }).wf(),
            forall|x: WindowId| #[trigger] swapped(self.tiled, i, j).contains(x) <==> self.tiled.contains(x),
    {
        lemma_swapped(self.tiled, i, j);
        let r = TagView { tiled: swapped(self.tiled, i, j), ..self };
        assert forall|x: WindowId| #[trigger] r.focus_stack.contains(x) <==> r.has(x) by {
            assert(self.focus_stack.contains(x) <==> self.has(x));
        }
        assert forall|x: WindowId| !(r.tiled.contains(x) && r.floating.contains(x)) by {
            assert(!(self.tiled.contains(x) && self.floating.contains(x)));
        }
    }

    /// Moving a window along the ring keeps a tag well formed and its
    /// windows the same.
    pub proof fn lemma_moved(self, current: WindowId, delta: int)
        requires
            self.wf(),
        ensures
            self.moved(current, delta).wf(),
            forall|x: WindowId| #[trigger] self.moved(current, delta).tiled.contains(x) <==> self.tiled.contains(x),
            self.moved(current, delta).floating == self.floating,
            self.moved(current, delta).tiled.len() == self.tiled.len(),
    {
        lemma_position_some(self.tiled, current);
        match position(self.tiled, current) {
            Some(p) => {
                let len = self.tiled.len() as int;
                vstd::arithmetic::div_mod::lemma_mod_bound(p + delta, len);
                self.lemma_exchanged(p, cyclic(p, delta, len));
                lemma_swapped(self.tiled, p, cyclic(p, delta, len));
            },
            None => {},
        }
    }

    /// Promoting a window to master keeps a tag well formed and its
    /// windows the same.
    pub proof fn lemma_zoomed(self, current: WindowId)
        requires
            self.wf(),
        ensures
            self.zoomed(current).wf(),
            forall|x: WindowId| #[trigger] self.zoomed(current).tiled.contains(x) <==> self.tiled.contains(x),
            self.zoomed(current).floating == self.floating,
            self.zoomed(current).tiled.len() == self.tiled.len(),
    {
        lemma_position_some(self.tiled, current);
        match position(self.tiled, current) {
            Some(p) => {
                if p > 0 {
                    self.lemma_exchanged(0, p);
                    lemma_swapped(self.tiled, 0, p);
                }
            },
            None => {},
        }
    }

    /// Cycling yields a tiled window of the tag.
    pub proof fn lemma_cycle(self, delta: int)
        ensures
            self.cycle(delta) is Some ==> self.tiled.contains(self.cycle(delta)->0),
            self.cycle(delta) is Some <==> self.head() is Some && self.tiled.contains(self.head()->0),
    {
        match self.head() {
            Some(current) => {
                lemma_position_some(self.tiled, current);
                match position(self.tiled, current) {
                    Some(p) => {
                        let len = self.tiled.len() as int;
                        vstd::arithmetic::div_mod::lemma_mod_bound(p + delta, len);
                        assert(self.tiled[cyclic(p, delta, len)] == self.cycle(delta)->0);
                    },
                    None => {},
                }
            },
            None => {},
        }
    }
}

/// A list with a new last entry.
pub proof fn lemma_pushed(s: Seq<WindowId>, id: WindowId)
    ensures
        forall|x: WindowId| #[trigger] s.push(id).contains(x) <==> s.contains(x) || x == id,
        s.no_duplicates() && !s.contains(id) ==> s.push(id).no_duplicates(),
{
    let t = s.push(id);
    assert forall|x: WindowId| #[trigger] t.contains(x) <==> s.contains(x) || x == id by {
        if t.contains(x) {
            let k = choose|k: int| 0 <= k < t.len() && t[k] == x;
            if k < s.len() {
                assert(s[k] == x);
            }
        }
        if s.contains(x) {
            let k = choose|k: int| 0 <= k < s.len() && s[k] == x;
            assert(t[k] == x);
        }
        if x == id {
            assert(t[t.len() - 1] == x);
        }
    }
    if s.no_duplicates() && !s.contains(id) {
        assert forall|a: int, b: int|
            0 <= a < t.len() && 0 <= b < t.len() && a != b
            implies t[a] != t[b] by {
            if a < s.len() {
                assert(s.contains(s[a]));
            }
            if b < s.len() {
                assert(s.contains(s[b]));
            }
        }
    }
}

/// Taking `id` out of a list that starts with it and holds it nowhere
/// else leaves the rest.
pub proof fn lemma_without_front(s: Seq<WindowId>, id: WindowId)
    requires
        !s.contains(id),
    ensures
        without(seq![id] + s, id) == s,
    decreases s.len(),
{
    let t = seq![id] + s;
    if s.len() == 0 {
        assert(t.drop_last() =~= Seq::<WindowId>::empty());
        assert(without(t.drop_last(), id) =~= Seq::<WindowId>::empty());
    } else {
        assert(t.drop_last() =~= seq![id] + s.drop_last());
        assert(t.last() == s.last());
        assert(s[s.len() - 1] == s.last());
        assert(!s.drop_last().contains(id)) by {
            if s.drop_last().contains(id) {
                let k = choose|k: int| 0 <= k < s.drop_last().len() && s.drop_last()[k] == id;
                assert(s[k] == id);
            }
        }
        lemma_without_front(s.drop_last(), id);
        assert(s.drop_last().push(s.last()) =~= s);
    }
}

/// A list with a new first entry.
pub proof fn lemma_fronted(s: Seq<WindowId>, id: WindowId)
    ensures
        forall|x: WindowId| #[trigger] (seq![id] + s).contains(x) <==> s.contains(x) || x == id,
        s.no_duplicates() && !s.contains(id) ==> (seq![id] + s).no_duplicates(),
        (seq![id] + s)[0] == id,
        (seq![id] + s).len() == s.len() + 1,
{
    let t = seq![id] + s;
    assert forall|x: WindowId| #[trigger] t.contains(x) <==> s.contains(x) || x == id by {
        if t.contains(x) {
            let k = choose|k: int| 0 <= k < t.len() && t[k] == x;
            if k > 0 {
                assert(s[k - 1] == x);
            }
        }
        if s.contains(x) {
            let k = choose|k: int| 0 <= k < s.len() && s[k] == x;
            assert(t[k + 1] == x);
        }
        if x == id {
            assert(t[0] == x);
        }
    }
    if s.no_duplicates() && !s.contains(id) {
        assert forall|a: int, b: int|
            0 <= a < t.len() && 0 <= b < t.len() && a != b
            implies t[a] != t[b] by {
            if a > 0 {
                assert(s.contains(s[a - 1]));
            }
            if b > 0 {
                assert(s.contains(s[b - 1]));
            }
        }
    }
}

impl Default for Tag {
    fn default() -> (tag: Self)
        ensures
            tag@ == TagView::empty(
                TilingLayout {
                    master_count: crate::config::MASTER_COUNT,
                    master_factor: crate::config::MASTER_FACTOR,
                },
            ),
            tag@.wf(),
    {
        let tag = Tag {
            tiled: Vec::new(),
            floating: Vec::new(),
            focus_stack: Vec::new(),
            layout: TilingLayout::default(),
        };
        assert(tag@ =~~= TagView::empty(tag.layout));
        tag
    }
}

impl Tag {
    /// Whether `id` is a window of this tag.
    pub fn contains(&self, id: WindowId) -> (b: bool)
        ensures
            b == self@.has(id),
    {
        find(&self.tiled, id).is_some() || find(&self.floating, id).is_some()
    }

    /// Takes `id` out of the tag. Does nothing where it is no window of
    /// the tag.
    pub fn remove(&mut self, id: WindowId)
        ensures
            final(self)@ == old(self)@.removed(id),
            old(self)@.wf() ==> final(self)@.wf(),
    {
        discard(&mut self.tiled, id);
        discard(&mut self.floating, id);
        discard(&mut self.focus_stack, id);
        proof {
            if old(self)@.wf() {
                old(self)@.lemma_removed(id);
            }
        }
    }

    /// Puts `id` last among the floating or the tiled windows and first in
    /// the focus stack, moving it if it was there already.
    pub fn add(&mut self, id: WindowId, floating: bool)
        ensures
            final(self)@ == old(self)@.added(id, floating),
            old(self)@.wf() ==> final(self)@.wf(),
    {
        self.remove(id);
        if floating {
            self.floating.push(id);
        } else {
            self.tiled.push(id);
        }
        self.focus_stack.insert(0, id);
        proof {
            assert(self.focus_stack@ =~= seq![id] + old(self)@.removed(id).focus_stack);
            if old(self)@.wf() {
                old(self)@.lemma_added(id, floating);
            }
        }
    }

    /// Puts `id` first in the focus stack.
    pub fn promote(&mut self, id: WindowId)
        ensures
            final(self)@ == old(self)@.promoted(id),
            old(self)@.wf() && old(self)@.has(id) ==> final(self)@.wf(),
    {
        discard(&mut self.focus_stack, id);
        self.focus_stack.insert(0, id);
        proof {
            assert(self.focus_stack@ =~= seq![id] + without(old(self)@.focus_stack, id));
            if old(self)@.wf() && old(self)@.has(id) {
                old(self)@.lemma_promoted(id);
            }
        }
    }

    /// The windows in paint order: tiled first, then floating bottom to
    /// top.
    pub fn window_ids(&self) -> (ids: Vec<WindowId>)
        ensures
            ids@ == self@.window_ids(),
    {
        let mut ids: Vec<WindowId> = Vec::new();
        let mut i: usize = 0;
        while i < self.tiled.len()
            invariant
                0 <= i <= self.tiled.len(),
                ids@ == self.tiled@.take(i as int),
            decreases self.tiled.len() - i,
        {
            ids.push(self.tiled[i]);
            assert(self.tiled@.take(i as int).push(self.tiled@[i as int]) =~= self.tiled@.take(i + 1));
            i += 1;
        }
        assert(self.tiled@.take(self.tiled.len() as int) =~= self.tiled@);
        let mut j: usize = 0;
        while j < self.floating.len()
            invariant
                0 <= j <= self.floating.len(),
                ids@ == self.tiled@ + self.floating@.take(j as int),
            decreases self.floating.len() - j,
        {
            ids.push(self.floating[j]);
            assert((self.tiled@ + self.floating@.take(j as int)).push(self.floating@[j as int])
                =~= self.tiled@ + self.floating@.take(j + 1));
            j += 1;
        }
        assert(self.floating@.take(self.floating.len() as int) =~= self.floating@);
        ids
    }

    /// The window focused last, if the tag has any.
    pub fn head(&self) -> (id: Option<WindowId>)
        ensures
            id == self@.head(),
    {
        if self.focus_stack.len() > 0 {
            Some(self.focus_stack[0])
        } else {
            None
        }
    }

    /// Raises the floating window `id` above the other floating windows.
    pub fn raise(&mut self, id: WindowId)
        ensures
            final(self)@ == old(self)@.raised(id),
            old(self)@.wf() ==> final(self)@.wf(),
    {
        match find(&self.floating, id) {
            Some(pos) => {
                let id = self.floating.remove(pos);
                self.floating.push(id);
            },
            None => {},
        }
        proof {
            if old(self)@.wf() {
                old(self)@.lemma_raised(id);
            }
        }
    }

    /// Exchanges the tiled window `current` with the one `delta` places
    /// further on the ring of tiled windows.
    pub fn move_in_stack(&mut self, current: WindowId, delta: i32)
        ensures
            final(self)@ == old(self)@.moved(current, delta as int),
            old(self)@.wf() ==> final(self)@.wf(),
    {
        match find(&self.tiled, current) {
            Some(pos) => {
                let next = step(pos, delta, self.tiled.len());
                exchange(&mut self.tiled, pos, next);
            },
            None => {},
        }
        proof {
            if old(self)@.wf() {
                old(self)@.lemma_moved(current, delta as int);
            }
        }
    }

    /// Makes the tiled window `current` the first tiled window.
    pub fn zoom(&mut self, current: WindowId)
        ensures
            final(self)@ == old(self)@.zoomed(current),
            old(self)@.wf() ==> final(self)@.wf(),
    {
        match find(&self.tiled, current) {
            Some(pos) => {
                if pos > 0 {
                    exchange(&mut self.tiled, 0, pos);
                }
            },
            None => {},
        }
        proof {
            if old(self)@.wf() {
                old(self)@.lemma_zoomed(current);
            }
        }
    }

    /// Changes the master factor by `delta` hundredths, within its bounds.
    pub fn adjust_mfact(&mut self, delta: i32)
        ensures
            final(self)@ == old(self)@.with_factor_step(delta as int),
            final(self)@.layout.wf(),
            old(self)@.wf() ==> final(self)@.wf(),
    {
        let wide: i64 = self.layout.master_factor as i64 + delta as i64;
        let held: i64 = if wide < MIN_MASTER_FACTOR as i64 {
            MIN_MASTER_FACTOR as i64
        } else if wide > MAX_MASTER_FACTOR as i64 {
            MAX_MASTER_FACTOR as i64
        } else {
            wide
        };
        self.layout.master_factor = held as u32;
    }

    /// Changes the number of master windows by `delta`, keeping one or
    /// more.
    pub fn adjust_nmaster(&mut self, delta: i32)
        ensures
            final(self)@ == old(self)@.with_master_step(delta as int),
            old(self)@.wf() ==> final(self)@.wf(),
    {
        let wide: i128 = self.layout.master_count as i128 + delta as i128;
        let held: i128 = if wide < 1 {
            1
        } else if wide > usize::MAX as i128 {
            usize::MAX as i128
        } else {
            wide
        };
        self.layout.master_count = held as usize;
    }

    /// The tiled window `delta` places after the window focused last.
    /// None where the tag is empty or that window floats.
    pub fn focus_cycle(&self, delta: i32) -> (next: Option<WindowId>)
        ensures
            next == self@.cycle(delta as int),
    {
        if self.focus_stack.len() == 0 {
            return None;
        }
        let current = self.focus_stack[0];
        match find(&self.tiled, current) {
            Some(pos) => {
                let next = step(pos, delta, self.tiled.len());
                Some(self.tiled[next])
            },
            None => None,
        }
    }
}

} // verus!
