use crate::frame_buffer::{config_ok, copy_region, FrameBuffer};
use crate::graphics::{PixelColor, Rectangle, Vector2D};
use crate::shared::{FrameBufferConfig, PixelFormat};
use crate::error::{Code, Error};
use crate::message::{LayerMessage, LayerOperation, Message, MessageType, WindowActiveMode};
use crate::task::{TaskID, TaskManager};
use crate::graphics::{in_area, PixelWriter};
use crate::window::{draw_to_fits, opaque_draw_region, shown_through, title_bar_fits, title_bar_pixel, Window};
use vstd::prelude::*;

verus! {

/// Identifies a layer of the window system.
#[derive(Copy, Clone, Debug, PartialEq, Eq, Structural, PartialOrd, Ord)]
pub struct LayerID(pub u32);

impl LayerID {
    pub fn new(v: u32) -> (id: Self)
        ensures
            id.0 == v,
    {
        Self(v)
    }

    pub fn as_usize(&self) -> (r: usize)
        ensures
            r == self.0,
    {
        self.0 as usize
    }

    pub fn value(&self) -> (r: u32)
        ensures
            r == self.0,
    {
        self.0
    }

    /// The largest identifier, used for "no layer".
    pub fn max() -> (id: Self)
        ensures
            id.0 == u32::MAX,
    {
        Self(u32::MAX)
    }
}


/// A window placed on the screen.
pub struct Layer {
    id: LayerID,
    position: Vector2D<i32>,
    window: Window,
    draggable: bool,
}

/// Whether a window of `w` by `h` at `pos` keeps its corners inside the
/// `i32` range (and away from `i32::MIN`, which cannot be negated).
pub open spec fn placement_ok(pos: Vector2D<i32>, w: int, h: int) -> bool {
    &&& i32::MIN < pos.x
    &&& i32::MIN < pos.y
    &&& pos.x + w <= i32::MAX
    &&& pos.y + h <= i32::MAX
}

impl Layer {
    pub closed spec fn spec_id(&self) -> LayerID {
        self.id
    }

    pub closed spec fn spec_position(&self) -> Vector2D<i32> {
        self.position
    }

    pub closed spec fn spec_window(&self) -> Window {
        self.window
    }

    pub closed spec fn spec_draggable(&self) -> bool {
        self.draggable
    }

    pub open spec fn wf(&self) -> bool {
        &&& self.spec_window().wf()
        &&& placement_ok(self.spec_position(), self.spec_window().spec_width(), self.spec_window().spec_height())
    }

    /// A layer showing `window` at (0, 0), not draggable.
    pub fn new(id: LayerID, window: Window) -> (l: Layer)
        ensures
            l.spec_id() == id,
            l.spec_position() == (Vector2D { x: 0i32, y: 0i32 }),
            l.spec_window() == window,
            !l.spec_draggable(),
    {
        Layer { id, position: Vector2D::new(0, 0), window, draggable: false }
    }

    pub fn id(&self) -> (id: LayerID)
        ensures
            id == self.spec_id(),
    {
        self.id
    }

    pub fn position(&self) -> (p: Vector2D<i32>)
        ensures
            p == self.spec_position(),
    {
        self.position
    }

    pub fn get_window_ref(&self) -> (w: &Window)
        ensures
            *w == self.spec_window(),
    {
        &self.window
    }

    pub fn get_window_mut(&mut self) -> (w: &mut Window)
        ensures
            *w == old(self).spec_window(),
            final(self).spec_window() == *final(w),
            final(self).spec_id() == old(self).spec_id(),
            final(self).spec_position() == old(self).spec_position(),
            final(self).spec_draggable() == old(self).spec_draggable(),
    {
        &mut self.window
    }

    pub fn set_draggable(&mut self, draggable: bool) -> (l: &mut Layer)
        ensures
            l.spec_draggable() == draggable,
            l.spec_id() == old(self).spec_id(),
            l.spec_position() == old(self).spec_position(),
            l.spec_window() == old(self).spec_window(),
            *final(self) == *final(l),
    {
        self.draggable = draggable;
        self
    }

    pub fn is_draggable(&self) -> (b: bool)
        ensures
            b == self.spec_draggable(),
    {
        self.draggable
    }

    /// Places the layer at `pos`.
    pub fn move_(&mut self, pos: Vector2D<i32>) -> (l: &mut Layer)
        ensures
            l.spec_position() == pos,
            l.spec_id() == old(self).spec_id(),
            l.spec_window() == old(self).spec_window(),
            l.spec_draggable() == old(self).spec_draggable(),
            *final(self) == *final(l),
    {
        self.position = pos;
        self
    }

    /// Moves the layer by `diff`.
    pub fn move_relative(&mut self, diff: Vector2D<i32>)
        requires
            i32::MIN <= old(self).spec_position().x + diff.x <= i32::MAX,
            i32::MIN <= old(self).spec_position().y + diff.y <= i32::MAX,
        ensures
            final(self).spec_position().x == old(self).spec_position().x + diff.x,
            final(self).spec_position().y == old(self).spec_position().y + diff.y,
            final(self).spec_id() == old(self).spec_id(),
            final(self).spec_window() == old(self).spec_window(),
            final(self).spec_draggable() == old(self).spec_draggable(),
    {
        let x: i32 = self.position.x + diff.x;
        let y: i32 = self.position.y + diff.y;
        self.position = Vector2D::new(x, y)
    }
}

/// Which layer is active, and which one shows the mouse cursor.
pub struct ActiveLayer {
    active_layer_id: Option<LayerID>,
    mouser_layer_id: LayerID,
}

impl ActiveLayer {
    pub closed spec fn spec_active(&self) -> Option<LayerID> {
        self.active_layer_id
    }

    pub closed spec fn spec_mouse(&self) -> LayerID {
        self.mouser_layer_id
    }

    /// No active layer; the mouse layer is `LayerID::MAX`, which names no layer.
    pub fn new() -> (a: ActiveLayer)
        ensures
            a.spec_active() is None,
            a.spec_mouse().0 == u32::MAX,
    {
        ActiveLayer { active_layer_id: None, mouser_layer_id: LayerID::max() }
    }

    pub fn get_active_layer_id(&self) -> (id: Option<LayerID>)
        ensures
            id == self.spec_active(),
    {
        self.active_layer_id
    }
}

/// The task registered for `layer` in an association list (the first entry wins).
pub open spec fn lookup_task(pairs: Seq<(LayerID, TaskID)>, layer: LayerID) -> Option<TaskID>
    decreases pairs.len(),
{
    if pairs.len() == 0 {
        None
    } else if pairs[0].0 == layer {
        Some(pairs[0].1)
    } else {
        lookup_task(pairs.drop_first(), layer)
    }
}

/// The layers of the window system, their order on the screen and the
/// screen image they make.
pub struct LayerManager {
    layers: Vec<Option<Layer>>,
    layer_id_stack: Vec<LayerID>,
    latest_id: LayerID,
    back_buffer: FrameBuffer,
    screen: FrameBuffer,
    active_layer: ActiveLayer,
    layer_task_map: Vec<(LayerID, TaskID)>,
}

impl LayerManager {
    /// The layer with identifier `id`, if it exists.
    pub closed spec fn layer(&self, id: LayerID) -> Option<Layer> {
        if id.0 < self.layers@.len() {
            self.layers@[id.0 as int]
        } else {
            None
        }
    }

    /// The layers shown, bottom first.
    pub closed spec fn stack(&self) -> Seq<LayerID> {
        self.layer_id_stack@
    }

    /// The identifier the next new layer gets.
    pub closed spec fn next_id(&self) -> u32 {
        self.latest_id.0
    }

    pub closed spec fn active(&self) -> Option<LayerID> {
        self.active_layer.spec_active()
    }

    pub closed spec fn mouse_layer(&self) -> LayerID {
        self.active_layer.spec_mouse()
    }

    pub closed spec fn task_of(&self, id: LayerID) -> Option<TaskID> {
        lookup_task(self.layer_task_map@, id)
    }

    /// The image composed in memory.
    pub closed spec fn back(&self) -> FrameBuffer {
        self.back_buffer
    }

    /// The image shown on the screen.
    pub closed spec fn spec_screen(&self) -> FrameBuffer {
        self.screen
    }

    /// The screen's pixel format.
    pub closed spec fn format(&self) -> PixelFormat {
        self.back_buffer.spec_config().pixel_format
    }

    /// Whether any layer exists.
    pub open spec fn has_layers(&self) -> bool {
        exists|i: u32| #[trigger] self.layer(LayerID(i)) is Some
    }

    pub closed spec fn wf(&self) -> bool {
        &&& self.layers@.len() == self.latest_id.0
        &&& forall|i: int|
            0 <= i < self.layers@.len() ==> (#[trigger] self.layers@[i] matches Some(l) ==> {
                &&& l.spec_id().0 == i
                &&& l.wf()
                &&& l.spec_window().format() == self.back_buffer.spec_config().pixel_format
            })
        &&& forall|k: int|
            0 <= k < self.layer_id_stack@.len() ==> self.layer(#[trigger] self.layer_id_stack@[k]) is Some
        &&& self.layer_id_stack@.no_duplicates()
        &&& self.back_buffer.wf()
        &&& self.screen.wf()
        &&& self.screen.spec_config() == self.back_buffer.spec_config()
    }

    /// A manager with no layer, composing into a buffer of the screen's size.
    pub fn new(screen_buffer_config: &FrameBufferConfig) -> (m: LayerManager)
        requires
            config_ok(FrameBufferConfig { pixels_per_scan_line: screen_buffer_config.horizontal_resolution, ..*screen_buffer_config }),
        ensures
            m.wf(),
            m.stack() == Seq::<LayerID>::empty(),
            m.next_id() == 0,
            m.active() is None,
            m.mouse_layer().0 == u32::MAX,
            forall|id: LayerID| #[trigger] m.layer(id) is None,
            forall|id: LayerID| #[trigger] m.task_of(id) is None,
            m.format() == screen_buffer_config.pixel_format,
            m.back().spec_config().horizontal_resolution == screen_buffer_config.horizontal_resolution,
            m.back().spec_config().vertical_resolution == screen_buffer_config.vertical_resolution,
    {
        let back_buffer = FrameBuffer::new(FrameBufferConfig::new(
            screen_buffer_config.horizontal_resolution,
            screen_buffer_config.vertical_resolution,
            screen_buffer_config.pixels_per_scan_line,
            screen_buffer_config.pixel_format,
        ));
        let screen = FrameBuffer::new(*screen_buffer_config);
        LayerManager {
            layers: Vec::new(),
            layer_id_stack: Vec::new(),
            latest_id: LayerID(0),
            back_buffer,
            screen,
            active_layer: ActiveLayer::new(),
            layer_task_map: Vec::new(),
        }
    }

    /// Records which layer shows the mouse cursor.
    pub fn set_mouse_layer_id(&mut self, layer_id: LayerID)
        requires
            old(self).wf(),
        ensures
            final(self).wf(),
            final(self).mouse_layer() == layer_id,
            final(self).active() == old(self).active(),
            final(self).stack() == old(self).stack(),
            final(self).next_id() == old(self).next_id(),
            forall|id: LayerID| #[trigger] final(self).layer(id) == old(self).layer(id),
            forall|id: LayerID| #[trigger] final(self).task_of(id) == old(self).task_of(id),
            final(self).back() == old(self).back(),
            final(self).spec_screen() == old(self).spec_screen(),
    {
        self.active_layer.mouser_layer_id = layer_id;
    }

    pub fn get_active_layer_id(&self) -> (id: Option<LayerID>)
        ensures
            id == self.active(),
    {
        self.active_layer.get_active_layer_id()
    }

    /// The task that owns `layer_id`'s window, if one was registered.
    pub fn get_task_id_by_layer_id(&self, layer_id: LayerID) -> (t: Option<TaskID>)
        ensures
            t == self.task_of(layer_id),
    {
        let n: usize = self.layer_task_map.len();
        let mut i: usize = 0;
        assert(self.layer_task_map@.skip(0) =~= self.layer_task_map@);
        while i < n
            invariant
                i <= n,
                n == self.layer_task_map@.len(),
                lookup_task(self.layer_task_map@.skip(i as int), layer_id) == lookup_task(
                    self.layer_task_map@,
                    layer_id,
                ),
            decreases n - i,
        {
            let (l, t) = self.layer_task_map[i];
            assert(self.layer_task_map@.skip(i as int)[0] == (l, t));
            assert(self.layer_task_map@.skip(i as int).drop_first() =~= self.layer_task_map@.skip(
                i + 1,
            ));
            if l == layer_id {
                return Some(t);
            }
            i += 1;
        }
        None
    }

    /// Records that `task_id` owns `layer_id`'s window (replacing an earlier record).
    pub fn register_layer_task_relation(&mut self, layer_id: LayerID, task_id: TaskID)
        requires
            old(self).wf(),
        ensures
            final(self).wf(),
            forall|id: LayerID|
                #[trigger] final(self).task_of(id) == if id == layer_id {
                    Some(task_id)
                } else {
                    old(self).task_of(id)
                },
            final(self).active() == old(self).active(),
            final(self).mouse_layer() == old(self).mouse_layer(),
            final(self).stack() == old(self).stack(),
            final(self).next_id() == old(self).next_id(),
            forall|id: LayerID| #[trigger] final(self).layer(id) == old(self).layer(id),
            final(self).back() == old(self).back(),
            final(self).spec_screen() == old(self).spec_screen(),
    {
        let ghost old_pairs = self.layer_task_map@;
        let n: usize = self.layer_task_map.len();
        let mut i: usize = 0;
        while i < n
            invariant
                i <= n,
                n == self.layer_task_map@.len(),
                old(self).wf(),
                *self == *old(self),
                self.layer_task_map@ == old_pairs,
                forall|k: int| 0 <= k < i ==> (#[trigger] old_pairs[k]).0 != layer_id,
            decreases n - i,
        {
            if self.layer_task_map[i].0 == layer_id {
                self.layer_task_map.set(i, (layer_id, task_id));
                proof {
                    lemma_lookup_update(old_pairs, i as int, layer_id, task_id);
                }
                return ;
            }
            i += 1;
        }
        self.layer_task_map.push((layer_id, task_id));
        proof {
            lemma_lookup_push(old_pairs, layer_id, task_id);
        }
    }
}

proof fn lemma_lookup_update(pairs: Seq<(LayerID, TaskID)>, i: int, layer: LayerID, task: TaskID)
    requires
        0 <= i < pairs.len(),
        pairs[i].0 == layer,
        forall|k: int| 0 <= k < i ==> (#[trigger] pairs[k]).0 != layer,
    ensures
        forall|id: LayerID|
            #[trigger] lookup_task(pairs.update(i, (layer, task)), id) == if id == layer {
                Some(task)
            } else {
                lookup_task(pairs, id)
            },
    decreases pairs.len(),
{
    assert forall|id: LayerID|
        #[trigger] lookup_task(pairs.update(i, (layer, task)), id) == if id == layer {
            Some(task)
        } else {
            lookup_task(pairs, id)
        } by {
        if i > 0 {
            lemma_lookup_update(pairs.drop_first(), i - 1, layer, task);
            assert(pairs.update(i, (layer, task)).drop_first() =~= pairs.drop_first().update(
                i - 1,
                (layer, task),
            ));
            assert(pairs[0].0 != layer);
            assert(lookup_task(pairs.drop_first().update(i - 1, (layer, task)), id) == if id
                == layer {
                Some(task)
            } else {
                lookup_task(pairs.drop_first(), id)
            });
        } else {
            assert(pairs.update(i, (layer, task)).drop_first() =~= pairs.drop_first());
        }
    }
}

proof fn lemma_lookup_push(pairs: Seq<(LayerID, TaskID)>, layer: LayerID, task: TaskID)
    requires
        forall|k: int| 0 <= k < pairs.len() ==> (#[trigger] pairs[k]).0 != layer,
    ensures
        forall|id: LayerID|
            #[trigger] lookup_task(pairs.push((layer, task)), id) == if id == layer {
                Some(task)
            } else {
                lookup_task(pairs, id)
            },
    decreases pairs.len(),
{
    assert forall|id: LayerID|
        #[trigger] lookup_task(pairs.push((layer, task)), id) == if id == layer {
            Some(task)
        } else {
            lookup_task(pairs, id)
        } by {
        if pairs.len() > 0 {
            lemma_lookup_push(pairs.drop_first(), layer, task);
            assert(pairs.push((layer, task)).drop_first() =~= pairs.drop_first().push((layer, task)));
            assert(pairs[0].0 != layer);
            assert(lookup_task(pairs.drop_first().push((layer, task)), id) == if id == layer {
                Some(task)
            } else {
                lookup_task(pairs.drop_first(), id)
            });
        } else {
            assert(pairs.push((layer, task)).drop_first() =~= Seq::<(LayerID, TaskID)>::empty());
            assert(lookup_task(Seq::<(LayerID, TaskID)>::empty(), id) is None);
        }
    }
}


impl LayerManager {
    fn layer_mut_at(&mut self, i: usize) -> (l: &mut Layer)
        requires
            i < old(self).layers@.len(),
            old(self).layers@[i as int] is Some,
        ensures
            *l == old(self).layers@[i as int]->0,
            final(self).layers@ == old(self).layers@.update(i as int, Some(*final(l))),
            final(self).layer_id_stack == old(self).layer_id_stack,
            final(self).latest_id == old(self).latest_id,
            final(self).back_buffer == old(self).back_buffer,
            final(self).screen == old(self).screen,
            final(self).active_layer == old(self).active_layer,
            final(self).layer_task_map == old(self).layer_task_map,
    {
        self.layers[i].as_mut().unwrap()
    }

    /// Adds a layer showing `window` at (0, 0) and returns it; its
    /// identifier is the next one in sequence. It is not shown until
    /// `up_down` puts it in the stack.
    pub fn new_layer(&mut self, window: Window) -> (l: &mut Layer)
        requires
            old(self).wf(),
            window.wf(),
            window.format() == old(self).format(),
            old(self).next_id() < u32::MAX,
        ensures
            l.spec_id().0 == old(self).next_id(),
            l.spec_position() == (Vector2D { x: 0i32, y: 0i32 }),
            l.spec_window() == window,
            !l.spec_draggable(),
            final(self).next_id() == old(self).next_id() + 1,
            final(self).layer(LayerID(old(self).next_id())) == Some(*final(l)),
            final(l).wf() && final(l).spec_id() == l.spec_id() && final(l).spec_window().format()
                == old(self).format() ==> final(self).wf(),
            forall|id: LayerID| id.0 != old(self).next_id() ==> #[trigger] final(self).layer(id) == old(self).layer(id),
            final(self).stack() == old(self).stack(),
            final(self).active() == old(self).active(),
            final(self).mouse_layer() == old(self).mouse_layer(),
            forall|id: LayerID| #[trigger] final(self).task_of(id) == old(self).task_of(id),
            final(self).back() == old(self).back(),
            final(self).spec_screen() == old(self).spec_screen(),
    {
        let id: LayerID = self.latest_id;
        self.layers.push(Some(Layer::new(id, window)));
        self.latest_id = LayerID(id.0 + 1);
        self.layer_mut_at(id.0 as usize)
    }

    /// The layer `layer_id`, if it exists.
    pub fn get_layer(&self, layer_id: LayerID) -> (l: Option<&Layer>)
        ensures
            match self.layer(layer_id) {
                Some(x) => l == Some(&x),
                None => l is None,
            },
    {
        if (layer_id.0 as usize) < self.layers.len() {
            self.layers[layer_id.0 as usize].as_ref()
        } else {
            None
        }
    }

    /// The layer `layer_id`, if it exists, to change it.
    pub fn get_layer_mut(&mut self, layer_id: LayerID) -> (l: Option<&mut Layer>)
        ensures
            old(self).layer(layer_id) is None ==> l is None && *final(self) == *old(self),
            old(self).layer(layer_id) matches Some(x) ==> {
                &&& l is Some
                &&& *l.unwrap() == x
                &&& final(self).layer(layer_id) == Some(*final(l.unwrap()))
                &&& (old(self).wf() && final(l.unwrap()).wf() && final(l.unwrap()).spec_id() == x.spec_id()
                    && final(l.unwrap()).spec_window().format() == old(self).format()) ==> final(self).wf()
                &&& forall|id: LayerID| id != layer_id ==> #[trigger] final(self).layer(id) == old(self).layer(id)
                &&& final(self).stack() == old(self).stack()
                &&& final(self).next_id() == old(self).next_id()
                &&& final(self).active() == old(self).active()
                &&& final(self).mouse_layer() == old(self).mouse_layer()
                &&& forall|id: LayerID| #[trigger] final(self).task_of(id) == old(self).task_of(id)
                &&& final(self).back() == old(self).back()
                &&& final(self).spec_screen() == old(self).spec_screen()
            },
    {
        if (layer_id.0 as usize) < self.layers.len() && self.layers[layer_id.0 as usize].is_some() {
            Some(self.layer_mut_at(layer_id.0 as usize))
        } else {
            None
        }
    }
}


/// The first index of `id` in `s` at or after `k`.
pub open spec fn index_from(s: Seq<LayerID>, id: LayerID, k: nat) -> Option<nat>
    decreases s.len() - k,
{
    if k >= s.len() {
        None
    } else if s[k as int] == id {
        Some(k)
    } else {
        index_from(s, id, k + 1)
    }
}

/// The position of `id` in the stack, counted from the bottom.
pub open spec fn stack_index(s: Seq<LayerID>, id: LayerID) -> Option<nat> {
    index_from(s, id, 0)
}

proof fn lemma_index_from(s: Seq<LayerID>, id: LayerID, k: nat)
    requires
        k <= s.len(),
    ensures
        index_from(s, id, k) matches Some(i) ==> k <= i < s.len() && s[i as int] == id,
        index_from(s, id, k) is None ==> forall|j: int| k <= j < s.len() ==> s[j] != id,
        forall|j: int| k <= j < s.len() && s[j] == id ==> index_from(s, id, k) is Some,
        index_from(s, id, k) matches Some(i) ==> forall|j: int| k <= j < i ==> s[j] != id,
    decreases s.len() - k,
{
    if k < s.len() && s[k as int] != id {
        lemma_index_from(s, id, k + 1);
    }
}

/// The stack with `id` taken out.
pub open spec fn hidden_stack(s: Seq<LayerID>, id: LayerID) -> Seq<LayerID> {
    match stack_index(s, id) {
        Some(i) => s.remove(i as int),
        None => s,
    }
}

/// The stack after `up_down(id, new_height)`: a negative height hides the
/// layer; otherwise it goes to that height, or on top when the height is
/// beyond the top.
pub open spec fn up_down_stack(s: Seq<LayerID>, id: LayerID, new_height: i32) -> Seq<LayerID> {
    if new_height < 0 {
        hidden_stack(s, id)
    } else {
        let h = if new_height as int <= s.len() { new_height as int } else { s.len() as int };
        match stack_index(s, id) {
            None => s.insert(h, id),
            Some(i) => {
                let h2 = if h == s.len() { h - 1 } else { h };
                s.remove(i as int).insert(h2, id)
            },
        }
    }
}

/// Whether the layer's window, placed where the layer is, covers `pos`.
pub open spec fn layer_covers(l: Layer, pos: Vector2D<i32>) -> bool {
    &&& l.spec_position().x <= pos.x < l.spec_position().x + l.spec_window().spec_width()
    &&& l.spec_position().y <= pos.y < l.spec_position().y + l.spec_window().spec_height()
}

impl LayerManager {
    /// The topmost shown layer below stack index `k` (exclusive) that
    /// covers `pos`, skipping `exclude_id`.
    pub open spec fn top_layer_below(&self, pos: Vector2D<i32>, exclude_id: LayerID, k: int) -> Option<LayerID>
        decreases k,
    {
        if k <= 0 {
            None
        } else {
            let id = self.stack()[k - 1];
            if id != exclude_id && self.layer(id) is Some && layer_covers(self.layer(id)->0, pos) {
                Some(id)
            } else {
                self.top_layer_below(pos, exclude_id, k - 1)
            }
        }
    }

    /// Whether any layer exists.
    pub fn exists_layer(&self) -> (b: bool)
        requires
            self.wf(),
        ensures
            b == self.has_layers(),
    {
        let n: usize = self.layers.len();
        let mut i: usize = 0;
        while i < n
            invariant
                i <= n,
                n == self.layers@.len(),
                n <= u32::MAX,
                forall|j: int| 0 <= j < i ==> self.layers@[j] is None,
            decreases n - i,
        {
            if self.layers[i].is_some() {
                assert(self.layer(LayerID(i as u32)) is Some);
                return true;
            }
            i += 1;
        }
        assert forall|k: u32| !(#[trigger] self.layer(LayerID(k)) is Some) by {}
        false
    }

    fn find_in_stack(&self, id: LayerID) -> (r: Option<usize>)
        ensures
            r matches Some(i) ==> stack_index(self.stack(), id) == Some(i as nat),
            r is None ==> stack_index(self.stack(), id) is None,
    {
        let n: usize = self.layer_id_stack.len();
        let mut i: usize = 0;
        while i < n
            invariant
                i <= n,
                n == self.layer_id_stack@.len(),
                index_from(self.layer_id_stack@, id, i as nat) == stack_index(self.layer_id_stack@, id),
            decreases n - i,
        {
            if self.layer_id_stack[i] == id {
                return Some(i);
            }
            i += 1;
        }
        None
    }

    /// Takes layer `id` out of the stack (does nothing when no layer exists).
    fn hide_layer(&mut self, id: LayerID)
        requires
            old(self).wf(),
        ensures
            final(self).wf(),
            final(self).stack() == if old(self).has_layers() {
                hidden_stack(old(self).stack(), id)
            } else {
                old(self).stack()
            },
            forall|i: LayerID| #[trigger] final(self).layer(i) == old(self).layer(i),
            final(self).next_id() == old(self).next_id(),
            final(self).active() == old(self).active(),
            final(self).mouse_layer() == old(self).mouse_layer(),
            forall|i: LayerID| #[trigger] final(self).task_of(i) == old(self).task_of(i),
            final(self).back() == old(self).back(),
            final(self).spec_screen() == old(self).spec_screen(),
    {
        if !self.exists_layer() {
            return ;
        }
        proof {
            lemma_index_from(self.layer_id_stack@, id, 0);
        }
        if let Some(index) = self.find_in_stack(id) {
            self.layer_id_stack.remove(index);
            assert forall|k: int| 0 <= k < self.layer_id_stack@.len() implies self.layer(
                #[trigger] self.layer_id_stack@[k],
            ) is Some by {
                if k >= index {
                    assert(self.layer_id_stack@[k] == old(self).layer_id_stack@[k + 1]);
                }
            }
        }
    }

    /// Moves layer `id` to height `new_height` in the stack (0 is the
    /// bottom); a height past the top puts it on top, a negative height hides
    /// it. Does nothing when no layer exists.
    pub fn up_down(&mut self, id: LayerID, new_height: i32)
        requires
            old(self).wf(),
            old(self).has_layers() && new_height >= 0 && stack_index(old(self).stack(), id) is None
                ==> old(self).layer(id) is Some,
        ensures
            final(self).wf(),
            final(self).stack() == if old(self).has_layers() {
                up_down_stack(old(self).stack(), id, new_height)
            } else {
                old(self).stack()
            },
            forall|i: LayerID| #[trigger] final(self).layer(i) == old(self).layer(i),
            final(self).next_id() == old(self).next_id(),
            final(self).active() == old(self).active(),
            final(self).mouse_layer() == old(self).mouse_layer(),
            forall|i: LayerID| #[trigger] final(self).task_of(i) == old(self).task_of(i),
            final(self).back() == old(self).back(),
            final(self).spec_screen() == old(self).spec_screen(),
    {
        if !self.exists_layer() {
            return ;
        }
        if new_height < 0 {
            self.hide_layer(id);
            return ;
        }
        let len: usize = self.layer_id_stack.len();
        let new_height: usize = if (new_height as usize) < len {
            new_height as usize
        } else {
            len
        };
        let ghost s0 = self.layer_id_stack@;
        proof {
            lemma_index_from(s0, id, 0);
        }
        match self.find_in_stack(id) {
            None => {
                self.layer_id_stack.insert(new_height, id);
                assert forall|k: int| 0 <= k < self.layer_id_stack@.len() implies self.layer(
                    #[trigger] self.layer_id_stack@[k],
                ) is Some by {
                    if k > new_height {
                        assert(self.layer_id_stack@[k] == s0[k - 1]);
                    } else if k < new_height {
                        assert(self.layer_id_stack@[k] == s0[k]);
                    }
                }
                assert(self.layer_id_stack@.no_duplicates()) by {
                    assert forall|a: int, b: int|
                        0 <= a < b < self.layer_id_stack@.len() implies self.layer_id_stack@[a]
                        != self.layer_id_stack@[b] by {
                        if a != new_height && b != new_height {
                            let a0 = if a < new_height { a } else { a - 1 };
                            let b0 = if b < new_height { b } else { b - 1 };
                            assert(self.layer_id_stack@[a] == s0[a0]);
                            assert(self.layer_id_stack@[b] == s0[b0]);
                        } else if a == new_height {
                            let b0 = if b < new_height { b } else { b - 1 };
                            assert(self.layer_id_stack@[b] == s0[b0]);
                        } else {
                            let a0 = if a < new_height { a } else { a - 1 };
                            assert(self.layer_id_stack@[a] == s0[a0]);
                        }
                    }
                }
            },
            Some(old_index) => {
                let height: usize = if new_height == len {
                    new_height - 1
                } else {
                    new_height
                };
                let layer_id: LayerID = self.layer_id_stack.remove(old_index);
                let ghost s1 = self.layer_id_stack@;
                assert forall|j: int| 0 <= j < s1.len() implies s1[j] != id by {
                    if j >= old_index {
                        assert(s1[j] == s0[j + 1]);
                    }
                }
                self.layer_id_stack.insert(height, layer_id);
                assert forall|k: int| 0 <= k < self.layer_id_stack@.len() implies self.layer(
                    #[trigger] self.layer_id_stack@[k],
                ) is Some by {
                    if k != height {
                        let k1 = if k < height { k } else { k - 1 };
                        assert(self.layer_id_stack@[k] == s1[k1]);
                        let k0 = if k1 < old_index { k1 } else { k1 + 1 };
                        assert(s1[k1] == s0[k0]);
                    }
                }
                assert(self.layer_id_stack@.no_duplicates()) by {
                    assert forall|a: int, b: int|
                        0 <= a < b < self.layer_id_stack@.len() implies self.layer_id_stack@[a]
                        != self.layer_id_stack@[b] by {
                        let a1 = if a < height { a } else { a - 1 };
                        let b1 = if b < height { b } else { b - 1 };
                        if a != height && b != height {
                            let a0 = if a1 < old_index { a1 } else { a1 + 1 };
                            let b0 = if b1 < old_index { b1 } else { b1 + 1 };
                            assert(self.layer_id_stack@[a] == s1[a1]);
                            assert(self.layer_id_stack@[b] == s1[b1]);
                            assert(s1[a1] == s0[a0]);
                            assert(s1[b1] == s0[b0]);
                        } else if a == height {
                            assert(self.layer_id_stack@[b] == s1[b1]);
                        } else {
                            assert(self.layer_id_stack@[a] == s1[a1]);
                        }
                    }
                }
            },
        }
    }

    /// The stack height of layer `layer_id`, if it is shown.
    pub fn get_height(&self, layer_id: LayerID) -> (h: Option<i32>)
        ensures
            match stack_index(self.stack(), layer_id) {
                Some(i) => h == Some(i as i32),
                None => h is None,
            },
    {
        match self.find_in_stack(layer_id) {
            Some(i) => Some(i as i32),
            None => None,
        }
    }

    /// The topmost shown layer other than `exclude_id` whose window covers `pos`.
    pub fn find_layer_by_position(&self, pos: Vector2D<i32>, exclude_id: LayerID) -> (r: Option<&Layer>)
        requires
            self.wf(),
        ensures
            match self.top_layer_below(pos, exclude_id, self.stack().len() as int) {
                Some(id) => r matches Some(l) && self.layer(id) == Some(*l),
                None => r is None,
            },
    {
        let mut k: usize = self.layer_id_stack.len();
        while k > 0
            invariant
                self.wf(),
                k <= self.layer_id_stack@.len(),
                self.top_layer_below(pos, exclude_id, k as int) == self.top_layer_below(
                    pos,
                    exclude_id,
                    self.stack().len() as int,
                ),
            decreases k,
        {
            let id: LayerID = self.layer_id_stack[k - 1];
            if id != exclude_id {
                assert(self.layer(id) is Some);
                let layer: &Layer = self.layers[id.0 as usize].as_ref().unwrap();
                assert(self.layers@[id.0 as int] == Some(*layer));
                proof {
                    layer.window.lemma_size_ok();
                }
                let win_pos: Vector2D<i32> = layer.position;
                let size: Vector2D<usize> = layer.window.size();
                let end_x: i32 = win_pos.x + size.x as i32;
                let end_y: i32 = win_pos.y + size.y as i32;
                if win_pos.x <= pos.x && pos.x < end_x && win_pos.y <= pos.y && pos.y < end_y {
                    return Some(layer);
                }
            }
            k -= 1;
        }
        None
    }
}


/// The screen after layer `l` drew the screen's `area` over `below`, on a
/// screen of `sw` by `sh` (as `Window::draw_to` does).
pub open spec fn drawn_layer(
    l: Layer,
    sw: int,
    sh: int,
    area: Rectangle<i32>,
    below: spec_fn(int, int) -> PixelColor,
) -> spec_fn(int, int) -> PixelColor {
    let w = l.spec_window();
    let pos = l.spec_position();
    |a: int, b: int|
        match w.spec_transparent_color() {
            None => if in_area(
                opaque_draw_region(sw, sh, pos, area, w.spec_width(), w.spec_height()),
                a,
                b,
            ) {
                w.color(a - pos.x, b - pos.y)
            } else {
                below(a, b)
            },
            Some(t) => if shown_through(sw, sh, pos, w.spec_width(), w.spec_height(), a - pos.x, b - pos.y)
                && w.color(a - pos.x, b - pos.y) != t {
                w.color(a - pos.x, b - pos.y)
            } else {
                below(a, b)
            },
        }
}

/// Whether layer `l` can draw the screen's `area` with no coordinate
/// leaving the `i32` range.
pub open spec fn layer_draw_ok(l: Layer, area: Rectangle<i32>, sw: int, sh: int) -> bool {
    &&& draw_to_fits(l.spec_position(), area, l.spec_window().spec_width(), l.spec_window().spec_height())
    &&& l.spec_window().spec_transparent_color() is Some ==> sw - l.spec_position().x <= i32::MAX && sh
        - l.spec_position().y <= i32::MAX
}

impl LayerManager {
    pub open spec fn screen_w(&self) -> int {
        self.back().spec_config().horizontal_resolution as int
    }

    pub open spec fn screen_h(&self) -> int {
        self.back().spec_config().vertical_resolution as int
    }

    /// The screen after the shown layers at stack indices `from..to`
    /// drew `area` over `base`, bottom first.
    pub open spec fn fold_layers(
        &self,
        from: int,
        to: int,
        area: Rectangle<i32>,
        base: spec_fn(int, int) -> PixelColor,
    ) -> spec_fn(int, int) -> PixelColor
        decreases to - from,
    {
        if to <= from {
            base
        } else {
            drawn_layer(
                self.layer(self.stack()[to - 1])->0,
                self.screen_w(),
                self.screen_h(),
                area,
                self.fold_layers(from, to - 1, area, base),
            )
        }
    }

    /// Whether every shown layer from stack index `from` on can draw `area`.
    pub open spec fn stack_draw_ok(&self, from: int, area: Rectangle<i32>) -> bool {
        forall|k: int|
            from <= k < self.stack().len() ==> layer_draw_ok(
                self.layer(#[trigger] self.stack()[k])->0,
                area,
                self.screen_w(),
                self.screen_h(),
            )
    }

    /// Draws the shown layers from stack index `from` into the back buffer for `area`.
    fn draw_layers(&mut self, from: usize, area: Rectangle<i32>)
        requires
            old(self).wf(),
            from <= old(self).stack().len(),
            old(self).stack_draw_ok(from as int, area),
        ensures
            final(self).wf(),
            final(self).layers == old(self).layers,
            final(self).layer_id_stack == old(self).layer_id_stack,
            final(self).latest_id == old(self).latest_id,
            final(self).screen == old(self).screen,
            final(self).active_layer == old(self).active_layer,
            final(self).layer_task_map == old(self).layer_task_map,
            final(self).back().spec_config() == old(self).back().spec_config(),
            forall|a: int, b: int|
                #[trigger] final(self).back().pixel(a, b) == (old(self).fold_layers(
                    from as int,
                    old(self).stack().len() as int,
                    area,
                    |x: int, y: int| old(self).back().pixel(x, y),
                ))(a, b),
    {
        let ghost s0 = *self;
        let ghost base = |x: int, y: int| s0.back().pixel(x, y);
        let n: usize = self.layer_id_stack.len();
        let mut k: usize = from;
        while k < n
            invariant
                s0.wf(),
                from <= k <= n,
                n == s0.stack().len(),
                s0.stack_draw_ok(from as int, area),
                self.layers == s0.layers,
                self.layer_id_stack == s0.layer_id_stack,
                self.latest_id == s0.latest_id,
                self.screen == s0.screen,
                self.active_layer == s0.active_layer,
                self.layer_task_map == s0.layer_task_map,
                self.back_buffer.wf(),
                self.back_buffer.spec_config() == s0.back_buffer.spec_config(),
                base == (|x: int, y: int| s0.back().pixel(x, y)),
                forall|a: int, b: int|
                    #[trigger] self.back_buffer.pixel(a, b) == (s0.fold_layers(from as int, k as int, area, base))(a, b),
            decreases n - k,
        {
            let id: LayerID = self.layer_id_stack[k];
            assert(s0.layer(id) is Some);
            assert(layer_draw_ok(s0.layer(id)->0, area, s0.screen_w(), s0.screen_h()));
            let layer: &Layer = self.layers[id.0 as usize].as_ref().unwrap();
            assert(self.layers@[id.0 as int] == Some(*layer));
            let ghost prev = self.back_buffer;
            layer.window.draw_to(&mut self.back_buffer, layer.position, area);
            assert forall|a: int, b: int|
                #[trigger] self.back_buffer.pixel(a, b) == (s0.fold_layers(from as int, k + 1, area, base))(a, b) by {
                assert(prev.pixel(a, b) == (s0.fold_layers(from as int, k as int, area, base))(a, b));
            }
            k += 1;
        }
    }

    /// Redraws `area` of the screen from all shown layers, bottom first.
    pub fn draw_on(&mut self, area: Rectangle<i32>)
        requires
            old(self).wf(),
            old(self).stack_draw_ok(0, area),
        ensures
            final(self).wf(),
            forall|i: LayerID| #[trigger] final(self).layer(i) == old(self).layer(i),
            final(self).stack() == old(self).stack(),
            final(self).next_id() == old(self).next_id(),
            final(self).active() == old(self).active(),
            final(self).mouse_layer() == old(self).mouse_layer(),
            forall|i: LayerID| #[trigger] final(self).task_of(i) == old(self).task_of(i),
            final(self).back().spec_config() == old(self).back().spec_config(),
            forall|a: int, b: int|
                #[trigger] final(self).back().pixel(a, b) == (old(self).fold_layers(
                    0,
                    old(self).stack().len() as int,
                    area,
                    |x: int, y: int| old(self).back().pixel(x, y),
                ))(a, b),
            forall|a: int, b: int|
                #[trigger] final(self).spec_screen().pixel(a, b) == if in_area(
                    copy_region(old(self).screen_w(), old(self).screen_h(), area.pos, area),
                    a,
                    b,
                ) {
                    final(self).back().pixel(a, b)
                } else {
                    old(self).spec_screen().pixel(a, b)
                },
    {
        self.draw_layers(0, area);
        let ghost b1 = self.back_buffer;
        proof {
            let r = copy_region(self.screen_w(), self.screen_h(), area.pos, area);
            assert forall|a: int, b: int| in_area(r, a, b) implies in_area(
                self.back_buffer.spec_writer().area(),
                a - (area.pos.x - area.pos.x),
                b - (area.pos.y - area.pos.y),
            ) by {}
        }
        self.screen.copy(area.pos, &self.back_buffer, area);
    }
}


/// The part of the screen that `draw(id, area)` redraws for a layer at
/// `pos` of `w` by `h`: the whole window when `area` has a negative size in
/// both directions, else `area` (relative to the window) clipped to it.
pub open spec fn layer_draw_area(pos: Vector2D<i32>, w: int, h: int, area: Rectangle<i32>) -> Rectangle<i32> {
    let wa = Rectangle { pos, size: Vector2D { x: w as i32, y: h as i32 } };
    if area.size.x >= 0 || area.size.y >= 0 {
        let moved = Rectangle {
            pos: Vector2D { x: (area.pos.x + pos.x) as i32, y: (area.pos.y + pos.y) as i32 },
            size: area.size,
        };
        crate::window::rect_overlap(wa, moved)
    } else {
        wa
    }
}

/// Whether computing `layer_draw_area` keeps every value in the `i32` range.
pub open spec fn layer_draw_area_ok(pos: Vector2D<i32>, w: int, h: int, area: Rectangle<i32>) -> bool {
    (area.size.x >= 0 || area.size.y >= 0) ==> {
        let mx = area.pos.x + pos.x;
        let my = area.pos.y + pos.y;
        &&& i32::MIN <= mx <= i32::MAX
        &&& i32::MIN <= my <= i32::MAX
        &&& i32::MIN <= mx + area.size.x <= i32::MAX
        &&& i32::MIN <= my + area.size.y <= i32::MAX
        &&& i32::MIN <= pos.x + w - mx
        &&& i32::MIN <= pos.y + h - my
        &&& i32::MIN <= mx + area.size.x - pos.x
        &&& i32::MIN <= my + area.size.y - pos.y
    }
}

/// The screen after the region `r` of `src` was copied over `dst`.
pub open spec fn copied_over(r: (int, int, int, int), src: spec_fn(int, int) -> PixelColor, dst: spec_fn(int, int) -> PixelColor) -> spec_fn(int, int) -> PixelColor {
    |a: int, b: int| if in_area(r, a, b) { src(a, b) } else { dst(a, b) }
}

impl LayerManager {
    /// The area that `draw(id, area)` redraws (empty when `id` is not shown).
    pub open spec fn draw_area_of(&self, id: LayerID, area: Rectangle<i32>) -> Rectangle<i32> {
        match stack_index(self.stack(), id) {
            None => Rectangle { pos: Vector2D { x: 0i32, y: 0i32 }, size: Vector2D { x: 0i32, y: 0i32 } },
            Some(_) => {
                let l = self.layer(id)->0;
                layer_draw_area(l.spec_position(), l.spec_window().spec_width(), l.spec_window().spec_height(), area)
            },
        }
    }

    /// Whether `draw(id, area)` can run with no value leaving the `i32` range.
    pub open spec fn draw_ok(&self, id: LayerID, area: Rectangle<i32>) -> bool {
        match stack_index(self.stack(), id) {
            None => true,
            Some(k) => {
                let l = self.layer(id)->0;
                &&& layer_draw_area_ok(l.spec_position(), l.spec_window().spec_width(), l.spec_window().spec_height(), area)
                &&& self.stack_draw_ok(k as int, self.draw_area_of(id, area))
            },
        }
    }

    /// The back buffer after `draw(id, area)` over `base`.
    pub open spec fn drawn_back(&self, id: LayerID, area: Rectangle<i32>, base: spec_fn(int, int) -> PixelColor) -> spec_fn(int, int) -> PixelColor {
        match stack_index(self.stack(), id) {
            None => base,
            Some(k) => self.fold_layers(k as int, self.stack().len() as int, self.draw_area_of(id, area), base),
        }
    }

    /// The screen region that `draw(id, area)` copies to the screen.
    pub open spec fn draw_region(&self, id: LayerID, area: Rectangle<i32>) -> (int, int, int, int) {
        let wa = self.draw_area_of(id, area);
        copy_region(self.screen_w(), self.screen_h(), wa.pos, wa)
    }

    /// Redraws layer `id` and the layers above it inside `area` (relative to
    /// the layer's window; a negative size in both directions means the
    /// whole window), then shows that part of the screen.
    pub fn draw(&mut self, id: LayerID, area: Rectangle<i32>)
        requires
            old(self).wf(),
            old(self).draw_ok(id, area),
        ensures
            final(self).wf(),
            forall|i: LayerID| #[trigger] final(self).layer(i) == old(self).layer(i),
            final(self).stack() == old(self).stack(),
            final(self).next_id() == old(self).next_id(),
            final(self).active() == old(self).active(),
            final(self).mouse_layer() == old(self).mouse_layer(),
            forall|i: LayerID| #[trigger] final(self).task_of(i) == old(self).task_of(i),
            final(self).back().spec_config() == old(self).back().spec_config(),
            forall|a: int, b: int|
                #[trigger] final(self).back().pixel(a, b) == (old(self).drawn_back(
                    id,
                    area,
                    |x: int, y: int| old(self).back().pixel(x, y),
                ))(a, b),
            forall|a: int, b: int|
                #[trigger] final(self).spec_screen().pixel(a, b) == if in_area(old(self).draw_region(id, area), a, b) {
                    final(self).back().pixel(a, b)
                } else {
                    old(self).spec_screen().pixel(a, b)
                },
    {
        proof {
            lemma_index_from(self.layer_id_stack@, id, 0);
        }
        let window_area: Rectangle<i32> = match self.find_in_stack(id) {
            None => Rectangle::new(Vector2D::new(0, 0), Vector2D::new(0, 0)),
            Some(k) => {
                assert(self.layer(id) is Some);
                let layer: &Layer = self.layers[id.0 as usize].as_ref().unwrap();
                assert(self.layers@[id.0 as int] == Some(*layer));
                proof {
                    layer.window.lemma_size_ok();
                }
                let size: Vector2D<usize> = layer.window.size();
                let pos: Vector2D<i32> = layer.position;
                let wa: Rectangle<i32> = Rectangle::new(pos, size.to_i32_vec2d());
                let wa: Rectangle<i32> = if area.size.x >= 0 || area.size.y >= 0 {
                    let moved: Rectangle<i32> = Rectangle::new(
                        Vector2D::new(area.pos.x + pos.x, area.pos.y + pos.y),
                        area.size,
                    );
                    wa.intersect(&moved)
                } else {
                    wa
                };
                assert(wa == self.draw_area_of(id, area));
                self.draw_layers(k, wa);
                wa
            },
        };
        proof {
            let r = copy_region(self.screen_w(), self.screen_h(), window_area.pos, window_area);
            assert forall|a: int, b: int| in_area(r, a, b) implies in_area(
                self.back_buffer.spec_writer().area(),
                a - (window_area.pos.x - window_area.pos.x),
                b - (window_area.pos.y - window_area.pos.y),
            ) by {}
        }
        self.screen.copy(window_area.pos, &self.back_buffer, window_area);
    }

    /// Redraws the whole window of layer `id` and the layers above it.
    pub fn draw_layer_of(&mut self, id: LayerID)
        requires
            old(self).wf(),
            old(self).draw_ok(id, Rectangle { pos: Vector2D { x: 0i32, y: 0i32 }, size: Vector2D { x: -1i32, y: -1i32 } }),
        ensures
            final(self).wf(),
            forall|i: LayerID| #[trigger] final(self).layer(i) == old(self).layer(i),
            final(self).stack() == old(self).stack(),
            final(self).next_id() == old(self).next_id(),
            final(self).active() == old(self).active(),
            final(self).mouse_layer() == old(self).mouse_layer(),
            forall|i: LayerID| #[trigger] final(self).task_of(i) == old(self).task_of(i),
            final(self).back().spec_config() == old(self).back().spec_config(),
            forall|a: int, b: int|
                #[trigger] final(self).back().pixel(a, b) == (old(self).drawn_back(
                    id,
                    Rectangle { pos: Vector2D { x: 0i32, y: 0i32 }, size: Vector2D { x: -1i32, y: -1i32 } },
                    |x: int, y: int| old(self).back().pixel(x, y),
                ))(a, b),
            forall|a: int, b: int|
                #[trigger] final(self).spec_screen().pixel(a, b) == if in_area(
                    old(self).draw_region(id, Rectangle { pos: Vector2D { x: 0i32, y: 0i32 }, size: Vector2D { x: -1i32, y: -1i32 } }),
                    a,
                    b,
                ) {
                    final(self).back().pixel(a, b)
                } else {
                    old(self).spec_screen().pixel(a, b)
                },
    {
        self.draw(id, Rectangle::new(Vector2D::new(0, 0), Vector2D::new(-1, -1)))
    }
}


impl Layer {
    /// The same layer placed at `pos`.
    pub closed spec fn at_position(self, pos: Vector2D<i32>) -> Layer {
        Layer { position: pos, ..self }
    }

    pub proof fn lemma_at_position(self, pos: Vector2D<i32>)
        ensures
            self.at_position(pos).spec_position() == pos,
            self.at_position(pos).spec_id() == self.spec_id(),
            self.at_position(pos).spec_window() == self.spec_window(),
            self.at_position(pos).spec_draggable() == self.spec_draggable(),
    {
    }
}

/// The whole window, as `draw_layer_of` asks for it.
pub open spec fn whole_window() -> Rectangle<i32> {
    Rectangle { pos: Vector2D { x: 0i32, y: 0i32 }, size: Vector2D { x: -1i32, y: -1i32 } }
}

impl LayerManager {
    /// Layer `i` as it is after layer `moved` was placed at `pos`.
    pub open spec fn layer_after_move(&self, i: LayerID, moved: LayerID, pos: Vector2D<i32>) -> Layer {
        if i == moved {
            self.layer(i)->0.at_position(pos)
        } else {
            self.layer(i)->0
        }
    }

    /// Whether, once layer `moved` is at `pos`, every shown layer from
    /// stack index `from` on can draw `area`.
    pub open spec fn moved_stack_ok(&self, moved: LayerID, pos: Vector2D<i32>, from: int, area: Rectangle<i32>) -> bool {
        forall|k: int|
            from <= k < self.stack().len() ==> layer_draw_ok(
                self.layer_after_move(#[trigger] self.stack()[k], moved, pos),
                area,
                self.screen_w(),
                self.screen_h(),
            )
    }

    /// Whether moving layer `id` to `pos` and redrawing keeps every value
    /// in the `i32` range.
    pub open spec fn move_ok(&self, id: LayerID, pos: Vector2D<i32>) -> bool {
        self.layer(id) matches Some(l) ==> {
            let w = l.spec_window().spec_width();
            let h = l.spec_window().spec_height();
            &&& placement_ok(pos, w, h)
            &&& self.moved_stack_ok(id, pos, 0, Rectangle { pos: l.spec_position(), size: Vector2D { x: w as i32, y: h as i32 } })
            &&& (stack_index(self.stack(), id) matches Some(k) ==> self.moved_stack_ok(
                id,
                pos,
                k as int,
                Rectangle { pos, size: Vector2D { x: w as i32, y: h as i32 } },
            ))
        }
    }

    /// What `move_` leaves in the back buffer and on the screen, seen from
    /// the manager after the move (`self`), with `old_pos` the layer's
    /// former place and `back`/`screen` the former images.
    pub open spec fn after_move_back(&self, id: LayerID, old_pos: Vector2D<i32>, back: spec_fn(int, int) -> PixelColor) -> spec_fn(int, int) -> PixelColor {
        let l = self.layer(id)->0;
        let r_old = Rectangle { pos: old_pos, size: Vector2D { x: l.spec_window().spec_width() as i32, y: l.spec_window().spec_height() as i32 } };
        self.drawn_back(id, whole_window(), self.fold_layers(0, self.stack().len() as int, r_old, back))
    }

    pub open spec fn after_move_screen(
        &self,
        id: LayerID,
        old_pos: Vector2D<i32>,
        back: spec_fn(int, int) -> PixelColor,
        screen: spec_fn(int, int) -> PixelColor,
    ) -> spec_fn(int, int) -> PixelColor {
        let l = self.layer(id)->0;
        let r_old = Rectangle { pos: old_pos, size: Vector2D { x: l.spec_window().spec_width() as i32, y: l.spec_window().spec_height() as i32 } };
        let mid_back = self.fold_layers(0, self.stack().len() as int, r_old, back);
        let mid_screen = copied_over(copy_region(self.screen_w(), self.screen_h(), r_old.pos, r_old), mid_back, screen);
        copied_over(self.draw_region(id, whole_window()), self.after_move_back(id, old_pos, back), mid_screen)
    }

    /// Managers with the same layers, stack and screen size compose alike.
    pub proof fn lemma_fold_congruent(
        m1: &LayerManager,
        m2: &LayerManager,
        from: int,
        to: int,
        area: Rectangle<i32>,
        base: spec_fn(int, int) -> PixelColor,
    )
        requires
            m1.stack() == m2.stack(),
            forall|i: LayerID| #[trigger] m1.layer(i) == m2.layer(i),
            m1.screen_w() == m2.screen_w(),
            m1.screen_h() == m2.screen_h(),
        ensures
            m1.fold_layers(from, to, area, base) == m2.fold_layers(from, to, area, base),
        decreases to - from,
    {
        if to > from {
            Self::lemma_fold_congruent(m1, m2, from, to - 1, area, base);
            assert(m1.layer(m1.stack()[to - 1]) == m2.layer(m2.stack()[to - 1]));
        }
    }

    fn place_and_redraw(&mut self, id: LayerID, new_position: Vector2D<i32>)
        requires
            old(self).wf(),
            old(self).layer(id) is Some,
            old(self).move_ok(id, new_position),
        ensures
            final(self).wf(),
            final(self).layer(id) == Some(old(self).layer(id)->0.at_position(new_position)),
            forall|i: LayerID| i != id ==> #[trigger] final(self).layer(i) == old(self).layer(i),
            final(self).stack() == old(self).stack(),
            final(self).next_id() == old(self).next_id(),
            final(self).active() == old(self).active(),
            final(self).mouse_layer() == old(self).mouse_layer(),
            forall|i: LayerID| #[trigger] final(self).task_of(i) == old(self).task_of(i),
            final(self).back().spec_config() == old(self).back().spec_config(),
            forall|a: int, b: int|
                #[trigger] final(self).back().pixel(a, b) == (final(self).after_move_back(
                    id,
                    old(self).layer(id)->0.spec_position(),
                    |x: int, y: int| old(self).back().pixel(x, y),
                ))(a, b),
            forall|a: int, b: int|
                #[trigger] final(self).spec_screen().pixel(a, b) == (final(self).after_move_screen(
                    id,
                    old(self).layer(id)->0.spec_position(),
                    |x: int, y: int| old(self).back().pixel(x, y),
                    |x: int, y: int| old(self).spec_screen().pixel(x, y),
                ))(a, b),
    {
        let ghost s0 = *self;
        let i: usize = id.0 as usize;
        let layer: &mut Layer = self.layer_mut_at(i);
        proof {
            layer.window.lemma_size_ok();
            layer.lemma_at_position(new_position);
        }
        let size: Vector2D<usize> = layer.window.size();
        let old_pos: Vector2D<i32> = layer.position;
        layer.move_(new_position);
        let ghost s1 = *self;
        assert forall|j: LayerID| #[trigger] s1.layer(j) == if j == id {
            Some(s0.layer(id)->0.at_position(new_position))
        } else {
            s0.layer(j)
        } by {}
        assert(s1.wf()) by {
            assert forall|k: int| 0 <= k < s1.layers@.len() implies (#[trigger] s1.layers@[k] matches Some(l) ==> {
                &&& l.spec_id().0 == k
                &&& l.wf()
                &&& l.spec_window().format() == s1.back_buffer.spec_config().pixel_format
            }) by {
                assert(s0.layers@[k] == s0.layer(LayerID(k as u32)));
            }
        }
        let area: Rectangle<i32> = Rectangle::new(old_pos, size.to_i32_vec2d());
        assert forall|k: int| 0 <= k < s1.stack().len() implies layer_draw_ok(
            s1.layer(#[trigger] s1.stack()[k])->0,
            area,
            s1.screen_w(),
            s1.screen_h(),
        ) by {
            assert(layer_draw_ok(s0.layer_after_move(s0.stack()[k], id, new_position), area, s0.screen_w(), s0.screen_h()));
        }
        self.draw_on(area);
        let ghost s2 = *self;
        proof {
            lemma_index_from(s2.stack(), id, 0);
            if let Some(k) = stack_index(s2.stack(), id) {
                assert forall|j: int| k <= j < s2.stack().len() implies layer_draw_ok(
                    s2.layer(#[trigger] s2.stack()[j])->0,
                    s2.draw_area_of(id, whole_window()),
                    s2.screen_w(),
                    s2.screen_h(),
                ) by {
                    assert(layer_draw_ok(
                        s0.layer_after_move(s0.stack()[j], id, new_position),
                        Rectangle { pos: new_position, size: Vector2D { x: size.x as i32, y: size.y as i32 } },
                        s0.screen_w(),
                        s0.screen_h(),
                    ));
                }
            }
        }
        self.draw_layer_of(id);
        let ghost s3 = *self;
        let ghost base0 = |x: int, y: int| s0.back().pixel(x, y);
        proof {
            Self::lemma_fold_congruent(&s1, &s3, 0, s1.stack().len() as int, area, base0);
            let mid = s1.fold_layers(0, s1.stack().len() as int, area, base0);
            assert((|x: int, y: int| s2.back().pixel(x, y)) =~= mid);
            assert((|x: int, y: int| s2.spec_screen().pixel(x, y)) =~= copied_over(
                copy_region(s1.screen_w(), s1.screen_h(), area.pos, area),
                mid,
                |x: int, y: int| s0.spec_screen().pixel(x, y),
            ));
            if let Some(k) = stack_index(s2.stack(), id) {
                Self::lemma_fold_congruent(
                    &s2,
                    &s3,
                    k as int,
                    s2.stack().len() as int,
                    s2.draw_area_of(id, whole_window()),
                    mid,
                );
            }
        }
    }

    /// Whether `new` is what `move_(id, pos)` leaves of this manager.
    pub open spec fn move_done(&self, new: LayerManager, id: LayerID, pos: Vector2D<i32>) -> bool {
        &&& new.wf()
        &&& self.layer(id) is None ==> new == *self
        &&& self.layer(id) is Some ==> {
            &&& new.layer(id) == Some(self.layer(id)->0.at_position(pos))
            &&& forall|i: LayerID| i != id ==> #[trigger] new.layer(i) == self.layer(i)
            &&& new.stack() == self.stack()
            &&& new.next_id() == self.next_id()
            &&& new.active() == self.active()
            &&& new.mouse_layer() == self.mouse_layer()
            &&& forall|i: LayerID| #[trigger] new.task_of(i) == self.task_of(i)
            &&& new.back().spec_config() == self.back().spec_config()
            &&& forall|a: int, b: int|
                #[trigger] new.back().pixel(a, b) == (new.after_move_back(
                    id,
                    self.layer(id)->0.spec_position(),
                    |x: int, y: int| self.back().pixel(x, y),
                ))(a, b)
            &&& forall|a: int, b: int|
                #[trigger] new.spec_screen().pixel(a, b) == (new.after_move_screen(
                    id,
                    self.layer(id)->0.spec_position(),
                    |x: int, y: int| self.back().pixel(x, y),
                    |x: int, y: int| self.spec_screen().pixel(x, y),
                ))(a, b)
        }
    }

    /// Places layer `id` at `new_position` and redraws where it was and
    /// where it is; does nothing when there is no such layer.
    pub fn move_(&mut self, id: LayerID, new_position: Vector2D<i32>)
        requires
            old(self).wf(),
            old(self).move_ok(id, new_position),
        ensures
            old(self).move_done(*final(self), id, new_position),
    {
        if (id.0 as usize) < self.layers.len() && self.layers[id.0 as usize].is_some() {
            self.place_and_redraw(id, new_position);
        }
    }

    /// Moves layer `id` by `pos_diff` and redraws as `move_` does.
    pub fn move_relative(&mut self, id: LayerID, pos_diff: Vector2D<i32>)
        requires
            old(self).wf(),
            old(self).layer(id) matches Some(l) ==> {
                &&& i32::MIN <= l.spec_position().x + pos_diff.x <= i32::MAX
                &&& i32::MIN <= l.spec_position().y + pos_diff.y <= i32::MAX
                &&& old(self).move_ok(id, Vector2D {
                    x: (l.spec_position().x + pos_diff.x) as i32,
                    y: (l.spec_position().y + pos_diff.y) as i32,
                })
            },
        ensures
            final(self).wf(),
            old(self).layer(id) is None ==> *final(self) == *old(self),
            old(self).layer(id) matches Some(l) ==> {
                let p = Vector2D { x: (l.spec_position().x + pos_diff.x) as i32, y: (l.spec_position().y + pos_diff.y) as i32 };
                &&& final(self).layer(id) == Some(l.at_position(p))
                &&& forall|i: LayerID| i != id ==> #[trigger] final(self).layer(i) == old(self).layer(i)
                &&& final(self).stack() == old(self).stack()
                &&& final(self).next_id() == old(self).next_id()
                &&& final(self).active() == old(self).active()
                &&& final(self).mouse_layer() == old(self).mouse_layer()
                &&& forall|i: LayerID| #[trigger] final(self).task_of(i) == old(self).task_of(i)
                &&& final(self).back().spec_config() == old(self).back().spec_config()
                &&& forall|a: int, b: int|
                    #[trigger] final(self).back().pixel(a, b) == (final(self).after_move_back(
                        id,
                        l.spec_position(),
                        |x: int, y: int| old(self).back().pixel(x, y),
                    ))(a, b)
                &&& forall|a: int, b: int|
                    #[trigger] final(self).spec_screen().pixel(a, b) == (final(self).after_move_screen(
                        id,
                        l.spec_position(),
                        |x: int, y: int| old(self).back().pixel(x, y),
                        |x: int, y: int| old(self).spec_screen().pixel(x, y),
                    ))(a, b)
            },
    {
        if (id.0 as usize) < self.layers.len() && self.layers[id.0 as usize].is_some() {
            let p: Vector2D<i32> = self.layers[id.0 as usize].as_ref().unwrap().position;
            assert(self.layers@[id.0 as int]->0.spec_position() == p);
            let new_position: Vector2D<i32> = Vector2D::new(p.x + pos_diff.x, p.y + pos_diff.y);
            self.place_and_redraw(id, new_position);
        }
    }
}


/// `new` is what telling the task registered for a layer (if any) about
/// `mode` leaves of `old`.
pub open spec fn active_message_sent(task: Option<TaskID>, old: TaskManager, new: TaskManager, mode: WindowActiveMode) -> bool {
    match task {
        Some(t) => old.message_sent(new, t, Message { m_type: MessageType::WindowActive(mode) }),
        None => new == old,
    }
}

/// Whether the window of layer `l` can have its title bar redrawn with `font`.
pub open spec fn title_redraw_ok(l: Layer, font: Seq<u8>) -> bool {
    let w = l.spec_window();
    w.is_top_level() ==> title_bar_fits(w.spec_width(), w.spec_height(), (0, 0, w.spec_width(), w.spec_height()), font, w.title())
}

/// The window of `l` with its title bar redrawn (a plain window is left as it is).
pub open spec fn retitled(old: Window, new: Window, font: Seq<u8>, active: bool) -> bool {
    &&& new.wf()
    &&& new.frame_of() == old.frame_of()
    &&& forall|a: int, b: int|
        #[trigger] new.color(a, b) == if old.is_top_level() {
            title_bar_pixel(old.color(a, b), old.spec_width(), font, old.title(), active, a, b)
        } else {
            old.color(a, b)
        }
}

impl LayerManager {
    /// Whether redrawing layer `id` works whatever the order of the stack:
    /// every layer (`id` among them) can draw `id`'s window area.
    pub open spec fn redraw_anywhere_ok(&self, id: LayerID) -> bool {
        let l = self.layer(id)->0;
        let wa = Rectangle { pos: l.spec_position(), size: Vector2D { x: l.spec_window().spec_width() as i32, y: l.spec_window().spec_height() as i32 } };
        &&& layer_draw_ok(l, wa, self.screen_w(), self.screen_h())
        &&& forall|k: int| 0 <= k < self.stack().len() ==> layer_draw_ok(
            self.layer(#[trigger] self.stack()[k])->0,
            wa,
            self.screen_w(),
            self.screen_h(),
        )
    }

    /// The stack after layer `id` was activated: raised to the bottom
    /// first, then put just below the mouse layer (on top when the mouse
    /// layer is not shown).
    pub open spec fn activated_stack(&self, id: LayerID) -> Seq<LayerID> {
        let s1 = up_down_stack(self.stack(), id, 0);
        let mh = match stack_index(s1, self.mouse_layer()) {
            Some(i) => i as int,
            None => -1,
        };
        up_down_stack(s1, id, (mh - 1) as i32)
    }

    pub open spec fn task_of_opt(&self, id: Option<LayerID>) -> Option<TaskID> {
        match id {
            Some(i) => self.task_of(i),
            None => None,
        }
    }

    /// The layers shown, bottom first.
    pub fn layer_id_stack(&self) -> (s: &Vec<LayerID>)
        ensures
            s@ == self.stack(),
    {
        &self.layer_id_stack
    }

    /// The screen image.
    pub fn screen(&self) -> (s: &FrameBuffer)
        ensures
            *s == self.spec_screen(),
    {
        &self.screen
    }

    /// Redraws the title bar of layer `id`'s window.
    fn retitle(&mut self, id: LayerID, font: &[u8], active: bool)
        requires
            old(self).wf(),
            old(self).layer(id) is Some,
            title_redraw_ok(old(self).layer(id)->0, font@),
        ensures
            final(self).wf(),
            final(self).layer(id) is Some,
            retitled(old(self).layer(id)->0.spec_window(), final(self).layer(id)->0.spec_window(), font@, active),
            final(self).layer(id)->0.spec_id() == old(self).layer(id)->0.spec_id(),
            final(self).layer(id)->0.spec_position() == old(self).layer(id)->0.spec_position(),
            final(self).layer(id)->0.spec_draggable() == old(self).layer(id)->0.spec_draggable(),
            forall|i: LayerID| i != id ==> #[trigger] final(self).layer(i) == old(self).layer(i),
            final(self).stack() == old(self).stack(),
            final(self).next_id() == old(self).next_id(),
            final(self).active() == old(self).active(),
            final(self).mouse_layer() == old(self).mouse_layer(),
            forall|i: LayerID| #[trigger] final(self).task_of(i) == old(self).task_of(i),
            final(self).back() == old(self).back(),
            final(self).spec_screen() == old(self).spec_screen(),
    {
        let ghost s0 = *self;
        let layer: &mut Layer = self.layer_mut_at(id.0 as usize);
        let w: &mut Window = layer.get_window_mut();
        if active {
            w.activate(font);
        } else {
            w.deactivate(font);
        }
        assert(self.wf()) by {
            assert forall|k: int| 0 <= k < self.layers@.len() implies (#[trigger] self.layers@[k] matches Some(l) ==> {
                &&& l.spec_id().0 == k
                &&& l.wf()
                &&& l.spec_window().format() == self.back_buffer.spec_config().pixel_format
            }) by {
                assert(s0.layers@[k] == s0.layer(LayerID(k as u32)));
            }
        }
    }

    /// Tells the task that owns layer `layer_id`'s window that it was
    /// activated or deactivated; an error when no task owns it.
    fn send_window_active_message(&self, layer_id: LayerID, mode: WindowActiveMode, tm: &mut TaskManager) -> (r: Result<(), Error>)
        requires
            old(tm).wf(),
        ensures
            active_message_sent(self.task_of(layer_id), *old(tm), *final(tm), mode),
            final(tm).wf(),
            self.task_of(layer_id) is None ==> (r matches Err(e) && e.code == Code::NoSuchTask),
    {
        match self.get_task_id_by_layer_id(layer_id) {
            Some(task_id) => {
                let message = Message::new(MessageType::WindowActive(mode));
                tm.send_message(task_id, message)
            },
            None => Err(Error::new(Code::NoSuchTask, "layer.rs", 0)),
        }
    }

    /// Makes layer `layer_id` the active one (`None`: no active layer): the
    /// former active window gets an inactive title bar and is redrawn, the
    /// new one an active title bar, goes just below the mouse cursor and is
    /// redrawn; the tasks that own the two windows are told.
    pub fn activate_layer(&mut self, layer_id: Option<LayerID>, font: &[u8], tm: &mut TaskManager)
        requires
            old(self).wf(),
            old(tm).wf(),
            old(self).stack().len() < i32::MAX,
            old(self).active() != layer_id ==> {
                &&& old(self).active() matches Some(a) ==> {
                    &&& old(self).layer(a) is Some
                    &&& title_redraw_ok(old(self).layer(a)->0, font@)
                    &&& old(self).redraw_anywhere_ok(a)
                }
                &&& layer_id matches Some(b) ==> {
                    &&& old(self).layer(b) is Some
                    &&& title_redraw_ok(old(self).layer(b)->0, font@)
                    &&& old(self).redraw_anywhere_ok(b)
                }
            },
        ensures
            final(self).wf(),
            final(tm).wf(),
            final(self).active() == layer_id,
            final(self).back().spec_config() == old(self).back().spec_config(),
            old(self).active() == layer_id ==> *final(self) == *old(self) && *final(tm) == *old(tm),
            old(self).active() != layer_id ==> {
                &&& final(self).stack() == match layer_id {
                    Some(b) => old(self).activated_stack(b),
                    None => old(self).stack(),
                }
                &&& final(self).next_id() == old(self).next_id()
                &&& final(self).mouse_layer() == old(self).mouse_layer()
                &&& forall|i: LayerID| #[trigger] final(self).task_of(i) == old(self).task_of(i)
                &&& forall|i: LayerID|
                    old(self).active() != Some(i) && layer_id != Some(i) ==> #[trigger] final(self).layer(i)
                        == old(self).layer(i)
                &&& old(self).active() matches Some(a) ==> {
                    &&& final(self).layer(a) is Some
                    &&& final(self).layer(a)->0.spec_position() == old(self).layer(a)->0.spec_position()
                    &&& retitled(old(self).layer(a)->0.spec_window(), final(self).layer(a)->0.spec_window(), font@, false)
                        || (layer_id == Some(a))
                }
                &&& layer_id matches Some(b) ==> {
                    &&& final(self).layer(b) is Some
                    &&& final(self).layer(b)->0.spec_position() == old(self).layer(b)->0.spec_position()
                    &&& final(self).layer(b)->0.spec_draggable() == old(self).layer(b)->0.spec_draggable()
                    &&& retitled(old(self).layer(b)->0.spec_window(), final(self).layer(b)->0.spec_window(), font@, true)
                    &&& old(self).active() != Some(b)
                }
                &&& exists|tm1: TaskManager|
                    #[trigger] active_message_sent(
                        old(self).task_of_opt(old(self).active()),
                        *old(tm),
                        tm1,
                        WindowActiveMode::Deactivate,
                    ) && active_message_sent(
                        old(self).task_of_opt(layer_id),
                        tm1,
                        *final(tm),
                        WindowActiveMode::Activate,
                    )
            },
    {
        ActiveLayer::_activate(layer_id, self, font, tm);
    }
}

impl ActiveLayer {
    fn _activate(layer_id: Option<LayerID>, manager: &mut LayerManager, font: &[u8], tm: &mut TaskManager)
        requires
            old(manager).wf(),
            old(tm).wf(),
            old(manager).stack().len() < i32::MAX,
            old(manager).active() != layer_id ==> {
                &&& old(manager).active() matches Some(a) ==> {
                    &&& old(manager).layer(a) is Some
                    &&& title_redraw_ok(old(manager).layer(a)->0, font@)
                    &&& old(manager).redraw_anywhere_ok(a)
                }
                &&& layer_id matches Some(b) ==> {
                    &&& old(manager).layer(b) is Some
                    &&& title_redraw_ok(old(manager).layer(b)->0, font@)
                    &&& old(manager).redraw_anywhere_ok(b)
                }
            },
        ensures
            final(manager).wf(),
            final(tm).wf(),
            final(manager).active() == layer_id,
            final(manager).back().spec_config() == old(manager).back().spec_config(),
            old(manager).active() == layer_id ==> *final(manager) == *old(manager) && *final(tm) == *old(tm),
            old(manager).active() != layer_id ==> {
                &&& final(manager).stack() == match layer_id {
                    Some(b) => old(manager).activated_stack(b),
                    None => old(manager).stack(),
                }
                &&& final(manager).next_id() == old(manager).next_id()
                &&& final(manager).mouse_layer() == old(manager).mouse_layer()
                &&& forall|i: LayerID| #[trigger] final(manager).task_of(i) == old(manager).task_of(i)
                &&& forall|i: LayerID|
                    old(manager).active() != Some(i) && layer_id != Some(i) ==> #[trigger] final(manager).layer(i)
                        == old(manager).layer(i)
                &&& old(manager).active() matches Some(a) ==> {
                    &&& final(manager).layer(a) is Some
                    &&& final(manager).layer(a)->0.spec_position() == old(manager).layer(a)->0.spec_position()
                    &&& retitled(old(manager).layer(a)->0.spec_window(), final(manager).layer(a)->0.spec_window(), font@, false)
                        || (layer_id == Some(a))
                }
                &&& layer_id matches Some(b) ==> {
                    &&& final(manager).layer(b) is Some
                    &&& final(manager).layer(b)->0.spec_position() == old(manager).layer(b)->0.spec_position()
                    &&& final(manager).layer(b)->0.spec_draggable() == old(manager).layer(b)->0.spec_draggable()
                    &&& retitled(old(manager).layer(b)->0.spec_window(), final(manager).layer(b)->0.spec_window(), font@, true)
                    &&& old(manager).active() != Some(b)
                }
                &&& exists|tm1: TaskManager|
                    #[trigger] active_message_sent(
                        old(manager).task_of_opt(old(manager).active()),
                        *old(tm),
                        tm1,
                        WindowActiveMode::Deactivate,
                    ) && active_message_sent(
                        old(manager).task_of_opt(layer_id),
                        tm1,
                        *final(tm),
                        WindowActiveMode::Activate,
                    )
            },
    {
        if manager.active_layer.active_layer_id == layer_id {
            return ;
        }
        let ghost m0 = *manager;
        let ghost tm0 = *tm;
        if let Some(active_layer_id) = manager.active_layer.active_layer_id {
            manager.retitle(active_layer_id, font, false);
            proof {
                Self::lemma_redraw_ok_kept(&m0, manager, active_layer_id);
            }
            let ghost ma = *manager;
            manager.draw_layer_of(active_layer_id);
            let _ = manager.send_window_active_message(active_layer_id, WindowActiveMode::Deactivate, tm);
            assert forall|i: LayerID| #[trigger] manager.task_of(i) == m0.task_of(i) by {
                assert(ma.task_of(i) == m0.task_of(i));
            }
            assert forall|i: LayerID| Some(i) != m0.active() implies #[trigger] manager.layer(i) == m0.layer(i) by {
                assert(ma.layer(i) == m0.layer(i));
            }
            assert(manager.layer(active_layer_id) == ma.layer(active_layer_id));
        }
        let ghost m1 = *manager;
        let ghost tm1 = *tm;
        manager.active_layer.active_layer_id = layer_id;
        let ghost m1b = *manager;
        assert forall|i: LayerID| #[trigger] m1b.task_of(i) == m1.task_of(i) && m1b.layer(i) == m1.layer(i) by {}
        assert forall|i: LayerID| #[trigger] m1.task_of(i) == m0.task_of(i) by {}
        assert forall|i: LayerID| Some(i) != m0.active() implies #[trigger] m1.layer(i) == m0.layer(i) by {}
        if let Some(active_layer_id) = layer_id {
            assert(m1.layer(active_layer_id) == m0.layer(active_layer_id));
            assert forall|k: int| 0 <= k < m1.stack().len() implies #[trigger] m1.layer(m1.stack()[k]) == m0.layer(m0.stack()[k]) || m1.stack()[k] == m0.active()->0 by {}
            manager.retitle(active_layer_id, font, true);
            let ghost m2 = *manager;
            assert(m2.has_layers()) by {
                assert(m2.layer(LayerID(active_layer_id.0)) is Some);
            }
            manager.up_down(active_layer_id, 0);
            let ghost m3 = *manager;
            proof {
                lemma_index_from(m3.stack(), manager.active_layer.mouser_layer_id, 0);
                lemma_up_down_elems(m2.stack(), active_layer_id, 0);
            }
            let mouse_height: i32 = match manager.get_height(manager.active_layer.mouser_layer_id) {
                Some(h) => h,
                None => -1,
            };
            manager.up_down(active_layer_id, mouse_height - 1);
            let ghost m4 = *manager;
            proof {
                lemma_up_down_elems(m2.stack(), active_layer_id, 0);
                lemma_up_down_elems(m3.stack(), active_layer_id, (mouse_height - 1) as i32);
                lemma_index_from(m4.stack(), active_layer_id, 0);
                let l = m0.layer(active_layer_id)->0;
                let wa = Rectangle { pos: l.spec_position(), size: Vector2D { x: l.spec_window().spec_width() as i32, y: l.spec_window().spec_height() as i32 } };
                assert forall|k: int| 0 <= k < m4.stack().len() implies layer_draw_ok(
                    m4.layer(#[trigger] m4.stack()[k])->0,
                    wa,
                    m4.screen_w(),
                    m4.screen_h(),
                ) by {
                    let id = m4.stack()[k];
                    if id != active_layer_id {
                        assert(m3.stack().contains(id));
                        assert(m2.stack().contains(id));
                        let j = choose|j: int| 0 <= j < m2.stack().len() && m2.stack()[j] == id;
                        assert(m2.stack()[j] == id);
                        assert(m0.stack()[j] == id);
                        if Some(id) == m0.active() {
                        } else {
                            assert(m4.layer(id) == m0.layer(id));
                        }
                    }
                }
            }
            manager.draw_layer_of(active_layer_id);
            assert(m1.task_of(active_layer_id) == m0.task_of(active_layer_id));
            assert(m2.task_of(active_layer_id) == m0.task_of(active_layer_id));
            assert(m3.task_of(active_layer_id) == m0.task_of(active_layer_id));
            assert(m4.task_of(active_layer_id) == m0.task_of(active_layer_id));
            assert(manager.task_of(active_layer_id) == m0.task_of(active_layer_id));
            assert(*tm == tm1);
            let ghost m5 = *manager;
            assert(m5.layer(active_layer_id) == m2.layer(active_layer_id)) by {
                assert(m5.layer(active_layer_id) == m4.layer(active_layer_id));
                assert(m4.layer(active_layer_id) == m3.layer(active_layer_id));
                assert(m3.layer(active_layer_id) == m2.layer(active_layer_id));
            }
            let _ = manager.send_window_active_message(active_layer_id, WindowActiveMode::Activate, tm);
            assert(active_message_sent(m0.task_of_opt(layer_id), tm1, *tm, WindowActiveMode::Activate));
            assert forall|i: LayerID| #[trigger] manager.task_of(i) == m1.task_of(i) by {
                assert(m5.task_of(i) == m4.task_of(i));
                assert(m4.task_of(i) == m3.task_of(i));
                assert(m3.task_of(i) == m2.task_of(i));
                assert(m2.task_of(i) == m1b.task_of(i));
                assert(m1b.task_of(i) == m1.task_of(i));
            }
            assert forall|i: LayerID| layer_id != Some(i) implies #[trigger] manager.layer(i) == m1.layer(i) by {
                assert(m5.layer(i) == m4.layer(i));
                assert(m4.layer(i) == m3.layer(i));
                assert(m3.layer(i) == m2.layer(i));
                assert(m2.layer(i) == m1b.layer(i));
                assert(m1b.layer(i) == m1.layer(i));
            }
            assert(manager.stack() == m0.activated_stack(active_layer_id));
        }
        assert(active_message_sent(
            m0.task_of_opt(m0.active()),
            tm0,
            tm1,
            WindowActiveMode::Deactivate,
        ));
        assert forall|i: LayerID| layer_id != Some(i) implies #[trigger] manager.layer(i) == m1.layer(i) by {
            if layer_id is None {
                assert(m1b.layer(i) == m1.layer(i));
            }
        }
        assert forall|i: LayerID| m0.active() != Some(i) && layer_id != Some(i) implies #[trigger] manager.layer(i) == m0.layer(i) by {
            assert(manager.layer(i) == m1.layer(i));
            assert(m1.layer(i) == m0.layer(i));
        }
        assert(manager.next_id() == m0.next_id());
        assert(manager.mouse_layer() == m0.mouse_layer());
        assert(forall|i: LayerID| #[trigger] manager.task_of(i) == m0.task_of(i));
        assert(forall|i: LayerID|
            m0.active() != Some(i) && layer_id != Some(i) ==> #[trigger] manager.layer(i) == m0.layer(i));
        assert(m0.active() matches Some(a) ==> {
            &&& manager.layer(a) is Some
            &&& manager.layer(a)->0.spec_position() == m0.layer(a)->0.spec_position()
        });
        assert(m0.active() matches Some(a) ==> retitled(m0.layer(a)->0.spec_window(), manager.layer(a)->0.spec_window(), font@, false) || (layer_id == Some(a)));
        assert(layer_id matches Some(b) ==> {
            &&& manager.layer(b) is Some
            &&& manager.layer(b)->0.spec_position() == m0.layer(b)->0.spec_position()
            &&& retitled(m0.layer(b)->0.spec_window(), manager.layer(b)->0.spec_window(), font@, true)
        });
    }

    proof fn lemma_redraw_ok_kept(m0: &LayerManager, m1: &LayerManager, id: LayerID)
        requires
            m0.layer(id) is Some,
            m0.redraw_anywhere_ok(id),
            m1.stack() == m0.stack(),
            m1.screen_w() == m0.screen_w(),
            m1.screen_h() == m0.screen_h(),
            m1.layer(id) is Some,
            m1.layer(id)->0.spec_position() == m0.layer(id)->0.spec_position(),
            m1.layer(id)->0.spec_window().frame_of() == m0.layer(id)->0.spec_window().frame_of(),
            forall|i: LayerID| i != id ==> #[trigger] m1.layer(i) == m0.layer(i),
        ensures
            m1.redraw_anywhere_ok(id),
    {
    }
}


proof fn lemma_up_down_elems(s: Seq<LayerID>, id: LayerID, h: i32)
    ensures
        up_down_stack(s, id, h).len() <= s.len() + 1,
        forall|k: int|
            0 <= k < up_down_stack(s, id, h).len() ==> #[trigger] up_down_stack(s, id, h)[k] == id
                || s.contains(up_down_stack(s, id, h)[k]),
{
    lemma_index_from(s, id, 0);
    let r = up_down_stack(s, id, h);
    assert forall|k: int| 0 <= k < r.len() implies #[trigger] r[k] == id || s.contains(r[k]) by {
        if h < 0 {
            if let Some(i) = stack_index(s, id) {
                let j = if k < i { k } else { k + 1 };
                assert(r[k] == s[j]);
            }
        } else {
            let hh = if h as int <= s.len() { h as int } else { s.len() as int };
            match stack_index(s, id) {
                None => {
                    if k != hh {
                        let j = if k < hh { k } else { k - 1 };
                        assert(r[k] == s[j]);
                    }
                },
                Some(i) => {
                    let h2 = if hh == s.len() { hh - 1 } else { hh };
                    let s1 = s.remove(i as int);
                    if k != h2 {
                        let k1 = if k < h2 { k } else { k - 1 };
                        assert(r[k] == s1[k1]);
                        let j = if k1 < i { k1 } else { k1 + 1 };
                        assert(s1[k1] == s[j]);
                    }
                },
            }
        }
    }
}


/// The association list without the entries for `layer`.
pub open spec fn without_layer(pairs: Seq<(LayerID, TaskID)>, layer: LayerID) -> Seq<(LayerID, TaskID)>
    decreases pairs.len(),
{
    if pairs.len() == 0 {
        pairs
    } else if pairs[0].0 == layer {
        without_layer(pairs.drop_first(), layer)
    } else {
        seq![pairs[0]] + without_layer(pairs.drop_first(), layer)
    }
}

proof fn lemma_without_layer(pairs: Seq<(LayerID, TaskID)>, layer: LayerID)
    ensures
        forall|id: LayerID|
            #[trigger] lookup_task(without_layer(pairs, layer), id) == if id == layer {
                None
            } else {
                lookup_task(pairs, id)
            },
    decreases pairs.len(),
{
    if pairs.len() > 0 {
        lemma_without_layer(pairs.drop_first(), layer);
        assert forall|id: LayerID|
            #[trigger] lookup_task(without_layer(pairs, layer), id) == if id == layer {
                None
            } else {
                lookup_task(pairs, id)
            } by {
            assert(lookup_task(without_layer(pairs.drop_first(), layer), id) == if id == layer {
                None
            } else {
                lookup_task(pairs.drop_first(), id)
            });
            if pairs[0].0 != layer {
                assert((seq![pairs[0]] + without_layer(pairs.drop_first(), layer)).drop_first()
                    =~= without_layer(pairs.drop_first(), layer));
            }
        }
    } else {
        assert forall|id: LayerID|
            #[trigger] lookup_task(without_layer(pairs, layer), id) == if id == layer {
                None
            } else {
                lookup_task(pairs, id)
            } by {}
    }
}

impl LayerManager {
    fn forget_task_of(&mut self, layer_id: LayerID)
        requires
            old(self).wf(),
        ensures
            final(self).wf(),
            forall|id: LayerID|
                #[trigger] final(self).task_of(id) == if id == layer_id {
                    None
                } else {
                    old(self).task_of(id)
                },
            forall|i: LayerID| #[trigger] final(self).layer(i) == old(self).layer(i),
            final(self).stack() == old(self).stack(),
            final(self).next_id() == old(self).next_id(),
            final(self).active() == old(self).active(),
            final(self).mouse_layer() == old(self).mouse_layer(),
            final(self).back() == old(self).back(),
            final(self).spec_screen() == old(self).spec_screen(),
    {
        let ghost old_pairs = self.layer_task_map@;
        let mut kept: Vec<(LayerID, TaskID)> = Vec::new();
        let n: usize = self.layer_task_map.len();
        let mut i: usize = n;
        let ghost mut suffix: Seq<(LayerID, TaskID)> = Seq::empty();
        while i > 0
            invariant
                i <= n,
                n == old_pairs.len(),
                self.layer_task_map@ == old_pairs,
                kept@ == without_layer(old_pairs.skip(i as int), layer_id).reverse(),
            decreases i,
        {
            i -= 1;
            let entry: (LayerID, TaskID) = self.layer_task_map[i];
            assert(old_pairs.skip(i as int).drop_first() =~= old_pairs.skip(i + 1));
            assert(old_pairs.skip(i as int)[0] == entry);
            if entry.0 != layer_id {
                kept.push(entry);
                assert(kept@ =~= without_layer(old_pairs.skip(i as int), layer_id).reverse());
            }
        }
        assert(old_pairs.skip(0) =~= old_pairs);
        let mut result: Vec<(LayerID, TaskID)> = Vec::new();
        let m: usize = kept.len();
        let mut j: usize = m;
        while j > 0
            invariant
                j <= m,
                m == kept@.len(),
                result@ == kept@.skip(j as int).reverse(),
            decreases j,
        {
            j -= 1;
            result.push(kept[j]);
            assert(result@ =~= kept@.skip(j as int).reverse());
        }
        assert(kept@.skip(0) =~= kept@);
        assert(result@ =~= without_layer(old_pairs, layer_id));
        self.layer_task_map = result;
        proof {
            lemma_without_layer(old_pairs, layer_id);
        }
    }

    /// Takes layer `layer_id` off the screen and out of the manager.
    pub fn remove_layer(&mut self, layer_id: LayerID)
        requires
            old(self).wf(),
            old(self).layer(layer_id) is Some,
        ensures
            final(self).wf(),
            final(self).layer(layer_id) is None,
            forall|i: LayerID| i != layer_id ==> #[trigger] final(self).layer(i) == old(self).layer(i),
            final(self).stack() == hidden_stack(old(self).stack(), layer_id),
            final(self).next_id() == old(self).next_id(),
            final(self).active() == old(self).active(),
            final(self).mouse_layer() == old(self).mouse_layer(),
            forall|i: LayerID| #[trigger] final(self).task_of(i) == old(self).task_of(i),
            final(self).back() == old(self).back(),
            final(self).spec_screen() == old(self).spec_screen(),
    {
        assert(old(self).has_layers()) by {
            assert(old(self).layer(LayerID(layer_id.0)) is Some);
        }
        self.hide_layer(layer_id);
        let ghost mid = *self;
        proof {
            lemma_index_from(old(self).stack(), layer_id, 0);
            lemma_index_from(self.stack(), layer_id, 0);
        }
        self.layers.set(layer_id.0 as usize, None);
        assert forall|i: LayerID| i != layer_id implies #[trigger] self.layer(i) == old(self).layer(i) by {
            assert(mid.layer(i) == old(self).layer(i));
        }
        assert forall|i: LayerID| #[trigger] self.task_of(i) == old(self).task_of(i) by {
            assert(mid.task_of(i) == old(self).task_of(i));
        }
        assert forall|k: int| 0 <= k < self.layer_id_stack@.len() implies self.layer(
            #[trigger] self.layer_id_stack@[k],
        ) is Some by {
            let id = self.layer_id_stack@[k];
            assert(id != layer_id) by {
                if let Some(i) = stack_index(old(self).stack(), layer_id) {
                    let j = if k < i { k } else { k + 1 };
                    assert(old(self).stack()[j] == id);
                }
            }
        }
    }
}


impl LayerManager {
    /// The screen area covered by layer `id`'s window.
    pub open spec fn window_rect(&self, id: LayerID) -> Rectangle<i32> {
        let l = self.layer(id)->0;
        Rectangle { pos: l.spec_position(), size: Vector2D { x: l.spec_window().spec_width() as i32, y: l.spec_window().spec_height() as i32 } }
    }

    /// The requirements of closing layer `layer_id`: the active window's
    /// title can be redrawn anywhere and the layers of the stack can be
    /// drawn over the closed window's area.
    pub open spec fn close_ok(&self, layer_id: LayerID, font: Seq<u8>) -> bool {
        &&& self.active() matches Some(a) ==> {
            &&& self.layer(a) is Some
            &&& title_redraw_ok(self.layer(a)->0, font)
            &&& self.redraw_anywhere_ok(a)
        }
        &&& self.stack_draw_ok(0, self.window_rect(layer_id))
    }

    /// Takes the window of layer `layer_id` off the screen: no layer stays
    /// active, the layer goes away, and the screen under it is redrawn. The
    /// record of the layer's task stays.
    pub fn close_window_of(&mut self, layer_id: LayerID, font: &[u8], tm: &mut TaskManager)
        requires
            old(self).wf(),
            old(tm).wf(),
            old(self).stack().len() < i32::MAX,
            old(self).layer(layer_id) is Some,
            old(self).close_ok(layer_id, font@),
        ensures
            final(self).wf(),
            final(tm).wf(),
            final(self).layer(layer_id) is None,
            final(self).active() is None,
            final(self).stack() == hidden_stack(old(self).stack(), layer_id),
            final(self).next_id() == old(self).next_id(),
            forall|i: LayerID| #[trigger] final(self).task_of(i) == old(self).task_of(i),
            forall|i: LayerID|
                i != layer_id && old(self).active() != Some(i) ==> #[trigger] final(self).layer(i) == old(self).layer(i),
    {
        let (pos, size) = match self.get_layer(layer_id) {
            None => {
                proof {
                    assert(false);
                }
                return ;
            },
            Some(l) => {
                proof {
                    l.window.lemma_size_ok();
                }
                (l.position, l.window.size())
            },
        };
        let ghost m0 = *self;
        let area: Rectangle<i32> = Rectangle::new(pos, size.to_i32_vec2d());
        assert(area == m0.window_rect(layer_id));
        self.activate_layer(None, font, tm);
        let ghost m1 = *self;
        assert(m1.layer(layer_id) is Some) by {
            if m0.active() == Some(layer_id) {
            } else {
                assert(m1.layer(layer_id) == m0.layer(layer_id));
            }
        }
        self.remove_layer(layer_id);
        let ghost m2 = *self;
        proof {
            lemma_index_from(m1.stack(), layer_id, 0);
            assert forall|k: int| 0 <= k < m2.stack().len() implies layer_draw_ok(
                m2.layer(#[trigger] m2.stack()[k])->0,
                area,
                m2.screen_w(),
                m2.screen_h(),
            ) by {
                let id = m2.stack()[k];
                assert(id != layer_id) by {
                    if let Some(i) = stack_index(m1.stack(), layer_id) {
                        let j = if k < i { k } else { k + 1 };
                        assert(m1.stack()[j] == id);
                    }
                }
                assert(m2.layer(id) == m1.layer(id));
                if m0.active() == Some(id) {
                    assert(retitled(m0.layer(id)->0.spec_window(), m1.layer(id)->0.spec_window(), font@, false));
                } else {
                    assert(m1.layer(id) == m0.layer(id));
                }
                if let Some(i) = stack_index(m1.stack(), layer_id) {
                    let j = if k < i { k } else { k + 1 };
                    assert(m1.stack()[j] == id);
                    assert(m0.stack()[j] == id);
                    assert(layer_draw_ok(m0.layer(m0.stack()[j])->0, area, m0.screen_w(), m0.screen_h()));
                } else {
                    assert(m0.stack()[k] == id);
                    assert(layer_draw_ok(m0.layer(m0.stack()[k])->0, area, m0.screen_w(), m0.screen_h()));
                }
            }
        }
        self.draw_on(area);
        let ghost m3 = *self;
        assert forall|i: LayerID|
            i != layer_id && m0.active() != Some(i) implies #[trigger] self.layer(i) == m0.layer(i) by {
            assert(m3.layer(i) == m2.layer(i));
            assert(m2.layer(i) == m1.layer(i));
            assert(m1.layer(i) == m0.layer(i));
        }
        assert forall|i: LayerID| #[trigger] self.task_of(i) == m0.task_of(i) by {
            assert(m3.task_of(i) == m2.task_of(i));
            assert(m2.task_of(i) == m1.task_of(i));
            assert(m1.task_of(i) == m0.task_of(i));
        }
    }

    /// Closes layer `layer_id`: no layer stays active, the layer goes away
    /// with its task record, and the screen under it is redrawn. An error
    /// when there is no such layer.
    pub fn close_layer(&mut self, layer_id: LayerID, font: &[u8], tm: &mut TaskManager) -> (r: Result<(), Error>)
        requires
            old(self).wf(),
            old(tm).wf(),
            old(self).stack().len() < i32::MAX,
            old(self).layer(layer_id) is Some ==> old(self).close_ok(layer_id, font@),
        ensures
            final(self).wf(),
            final(tm).wf(),
            old(self).layer(layer_id) is None ==> (r matches Err(e) && e.code == Code::NoSuchEntry)
                && *final(self) == *old(self) && *final(tm) == *old(tm),
            old(self).layer(layer_id) is Some ==> {
                &&& r is Ok
                &&& final(self).layer(layer_id) is None
                &&& final(self).task_of(layer_id) is None
                &&& final(self).active() is None
                &&& final(self).stack() == hidden_stack(old(self).stack(), layer_id)
                &&& final(self).next_id() == old(self).next_id()
                &&& forall|i: LayerID| i != layer_id ==> #[trigger] final(self).task_of(i) == old(self).task_of(i)
                &&& forall|i: LayerID|
                    i != layer_id && old(self).active() != Some(i) ==> #[trigger] final(self).layer(i)
                        == old(self).layer(i)
            },
    {
        if self.get_layer(layer_id).is_none() {
            return Err(Error::new(Code::NoSuchEntry, "layer.rs", 0));
        }
        let ghost m0 = *self;
        self.close_window_of(layer_id, font, tm);
        let ghost m3 = *self;
        self.forget_task_of(layer_id);
        assert forall|i: LayerID|
            i != layer_id && m0.active() != Some(i) implies #[trigger] self.layer(i) == m0.layer(i) by {
            assert(m3.layer(i) == m0.layer(i));
        }
        assert forall|i: LayerID| i != layer_id implies #[trigger] self.task_of(i) == m0.task_of(i) by {
            assert(m3.task_of(i) == m0.task_of(i));
        }
        Ok(())
    }

    /// Carries out a request to move or redraw a layer.
    pub fn process_message(&mut self, message: &LayerMessage)
        requires
            old(self).wf(),
            match message.op {
                LayerOperation::Move { pos } => old(self).move_ok(message.layer_id, pos),
                LayerOperation::MoveRelative { pos } => old(self).layer(message.layer_id) matches Some(l) ==> {
                    &&& i32::MIN <= l.spec_position().x + pos.x <= i32::MAX
                    &&& i32::MIN <= l.spec_position().y + pos.y <= i32::MAX
                    &&& old(self).move_ok(message.layer_id, Vector2D {
                        x: (l.spec_position().x + pos.x) as i32,
                        y: (l.spec_position().y + pos.y) as i32,
                    })
                },
                LayerOperation::Draw => old(self).draw_ok(message.layer_id, whole_window()),
                LayerOperation::DrawArea(area) => old(self).draw_ok(message.layer_id, area),
            },
        ensures
            final(self).wf(),
            final(self).stack() == old(self).stack(),
            final(self).next_id() == old(self).next_id(),
            final(self).active() == old(self).active(),
            final(self).mouse_layer() == old(self).mouse_layer(),
            forall|i: LayerID| #[trigger] final(self).task_of(i) == old(self).task_of(i),
            forall|i: LayerID| i != message.layer_id ==> #[trigger] final(self).layer(i) == old(self).layer(i),
            match message.op {
                LayerOperation::Move { pos } => old(self).layer(message.layer_id) matches Some(l) ==> final(self).layer(message.layer_id) == Some(l.at_position(pos)),
                LayerOperation::MoveRelative { pos } => old(self).layer(message.layer_id) matches Some(l) ==> final(self).layer(message.layer_id) == Some(l.at_position(Vector2D {
                    x: (l.spec_position().x + pos.x) as i32,
                    y: (l.spec_position().y + pos.y) as i32,
                })),
                LayerOperation::Draw => {
                    &&& final(self).layer(message.layer_id) == old(self).layer(message.layer_id)
                    &&& forall|a: int, b: int|
                        #[trigger] final(self).back().pixel(a, b) == (old(self).drawn_back(
                            message.layer_id,
                            whole_window(),
                            |x: int, y: int| old(self).back().pixel(x, y),
                        ))(a, b)
                    &&& forall|a: int, b: int|
                        #[trigger] final(self).spec_screen().pixel(a, b) == if in_area(
                            old(self).draw_region(message.layer_id, whole_window()),
                            a,
                            b,
                        ) {
                            final(self).back().pixel(a, b)
                        } else {
                            old(self).spec_screen().pixel(a, b)
                        }
                },
                LayerOperation::DrawArea(area) => {
                    &&& final(self).layer(message.layer_id) == old(self).layer(message.layer_id)
                    &&& forall|a: int, b: int|
                        #[trigger] final(self).back().pixel(a, b) == (old(self).drawn_back(
                            message.layer_id,
                            area,
                            |x: int, y: int| old(self).back().pixel(x, y),
                        ))(a, b)
                    &&& forall|a: int, b: int|
                        #[trigger] final(self).spec_screen().pixel(a, b) == if in_area(
                            old(self).draw_region(message.layer_id, area),
                            a,
                            b,
                        ) {
                            final(self).back().pixel(a, b)
                        } else {
                            old(self).spec_screen().pixel(a, b)
                        }
                },
            },
    {
        match message.op {
            LayerOperation::Move { pos } => self.move_(message.layer_id, pos),
            LayerOperation::MoveRelative { pos } => self.move_relative(message.layer_id, pos),
            LayerOperation::Draw => self.draw_layer_of(message.layer_id),
            LayerOperation::DrawArea(area) => self.draw(message.layer_id, area),
        }
    }
}


impl LayerManager {
    /// Whether every task that owns a layer's window exists in `tm`.
    pub open spec fn tasks_known(&self, tm: TaskManager) -> bool {
        forall|i: LayerID| #[trigger] self.task_of(i) matches Some(t) ==> t.0 < tm.task_list().len()
    }
}

impl LayerManager {
    /// The layer found at `pos` does not depend on where the skipped
    /// layer is.
    pub proof fn lemma_top_layer_below_same(&self, other: LayerManager, pos: Vector2D<i32>, exclude_id: LayerID, k: int)
        requires
            other.stack() == self.stack(),
            forall|i: LayerID| i != exclude_id ==> #[trigger] other.layer(i) == self.layer(i),
        ensures
            other.top_layer_below(pos, exclude_id, k) == self.top_layer_below(pos, exclude_id, k),
        decreases k,
    {
        if k > 0 {
            self.lemma_top_layer_below_same(other, pos, exclude_id, k - 1);
            let id = self.stack()[k - 1];
            if id != exclude_id {
                assert(other.layer(id) == self.layer(id));
            }
        }
    }
}

/// `new` is what making `new_active` the active layer of `lm` leaves of
/// the task manager `old`: the tasks of the former and of the new active
/// window are told, in that order (nothing happens when it is already
/// active).
pub open spec fn activation_sent(lm: LayerManager, new_active: Option<LayerID>, old: TaskManager, new: TaskManager) -> bool {
    if lm.active() == new_active {
        new == old
    } else {
        exists|mid: TaskManager|
            #[trigger] active_message_sent(lm.task_of_opt(lm.active()), old, mid, WindowActiveMode::Deactivate)
                && active_message_sent(lm.task_of_opt(new_active), mid, new, WindowActiveMode::Activate)
    }
}


impl LayerManager {
    /// What `top_layer_below` finds is a shown layer other than the one
    /// skipped, and it covers `pos`.
    pub proof fn lemma_top_layer_below_found(&self, pos: Vector2D<i32>, exclude_id: LayerID, k: int)
        ensures
            self.top_layer_below(pos, exclude_id, k) matches Some(id) ==> {
                &&& id != exclude_id
                &&& self.layer(id) is Some
                &&& layer_covers(self.layer(id)->0, pos)
            },
        decreases k,
    {
        if k > 0 {
            self.lemma_top_layer_below_found(pos, exclude_id, k - 1);
        }
    }
}


impl LayerManager {
    /// Every layer of a sound manager is sound.
    pub proof fn lemma_layer_wf(&self, id: LayerID)
        requires
            self.wf(),
        ensures
            self.layer(id) matches Some(l) ==> l.wf() && l.spec_id() == id && l.spec_window().format() == self.format(),
    {
    }
}

impl LayerManager {
    /// No layer has the identifier that the next new layer gets.
    pub proof fn lemma_next_id_free(&self)
        requires
            self.wf(),
        ensures
            self.layer(LayerID(self.next_id())) is None,
    {
    }
}

impl LayerManager {
    /// Every shown layer of a sound manager exists.
    pub proof fn lemma_stack_layers(&self)
        requires
            self.wf(),
        ensures
            forall|k: int| 0 <= k < self.stack().len() ==> #[trigger] self.layer(self.stack()[k]) is Some,
    {
    }
}

} // verus!
