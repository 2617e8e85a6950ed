use crate::graphics::{color_black, color_white, in_area, PixelColor, PixelWriter, Rectangle, Vector2D};
use crate::layer::{
    activation_sent, active_message_sent, layer_draw_ok, placement_ok, stack_index, title_redraw_ok, Layer, LayerID,
    LayerManager,
};
use crate::message::{Message, MessageType, MouseButtonMessage, MouseMoveMessage, WindowActiveMode, WindowCloseMessage};
use crate::shared::PixelFormat;
use crate::task::{lemma_messages_sent_none, lemma_messages_sent_push, messages_sent, TaskID, TaskManager};
use crate::window::{window_region, Window, WindowRegion};
use vstd::prelude::*;

verus! {

/// The width and height of the mouse cursor.
pub const CURSOR_WIDTH: usize = 15;

pub const CURSOR_HEIGHT: usize = 24;

/// The color the cursor's window treats as transparent.
pub open spec fn mouse_transparent_color() -> PixelColor {
    PixelColor { r: 0, g: 0, b: 1 }
}

/// The rows of the cursor's shape as bit masks (bit `x` for column `x`):
/// the outline, drawn in `color_black()`, and the inside, drawn in
/// `color_white()`.
pub open spec fn cursor_rows(y: int) -> (u16, u16) {
    if y == 0 { (0x0001, 0x0000) }
    else if y == 1 { (0x0003, 0x0000) }
    else if y == 2 { (0x0005, 0x0002) }
    else if y == 3 { (0x0009, 0x0006) }
    else if y == 4 { (0x0011, 0x000e) }
    else if y == 5 { (0x0021, 0x001e) }
    else if y == 6 { (0x0041, 0x003e) }
    else if y == 7 { (0x0081, 0x007e) }
    else if y == 8 { (0x0101, 0x00fe) }
    else if y == 9 { (0x0201, 0x01fe) }
    else if y == 10 { (0x0401, 0x03fe) }
    else if y == 11 { (0x0801, 0x07fe) }
    else if y == 12 { (0x1001, 0x0ffe) }
    else if y == 13 { (0x2001, 0x1ffe) }
    else if y == 14 { (0x7f81, 0x007e) }
    else if y == 15 { (0x0081, 0x007e) }
    else if y == 16 { (0x0161, 0x009e) }
    else if y == 17 { (0x0151, 0x008e) }
    else if y == 18 { (0x0289, 0x0106) }
    else if y == 19 { (0x0285, 0x0102) }
    else if y == 20 { (0x0503, 0x0200) }
    else if y == 21 { (0x0501, 0x0200) }
    else if y == 22 { (0x0a00, 0x0400) }
    else { (0x0e00, 0x0000) }
}

fn cursor_row(y: u16) -> (m: (u16, u16))
    requires
        y < 24,
    ensures
        m == cursor_rows(y as int),
{
    if y == 0 { (0x0001, 0x0000) }
    else if y == 1 { (0x0003, 0x0000) }
    else if y == 2 { (0x0005, 0x0002) }
    else if y == 3 { (0x0009, 0x0006) }
    else if y == 4 { (0x0011, 0x000e) }
    else if y == 5 { (0x0021, 0x001e) }
    else if y == 6 { (0x0041, 0x003e) }
    else if y == 7 { (0x0081, 0x007e) }
    else if y == 8 { (0x0101, 0x00fe) }
    else if y == 9 { (0x0201, 0x01fe) }
    else if y == 10 { (0x0401, 0x03fe) }
    else if y == 11 { (0x0801, 0x07fe) }
    else if y == 12 { (0x1001, 0x0ffe) }
    else if y == 13 { (0x2001, 0x1ffe) }
    else if y == 14 { (0x7f81, 0x007e) }
    else if y == 15 { (0x0081, 0x007e) }
    else if y == 16 { (0x0161, 0x009e) }
    else if y == 17 { (0x0151, 0x008e) }
    else if y == 18 { (0x0289, 0x0106) }
    else if y == 19 { (0x0285, 0x0102) }
    else if y == 20 { (0x0503, 0x0200) }
    else if y == 21 { (0x0501, 0x0200) }
    else if y == 22 { (0x0a00, 0x0400) }
    else { (0x0e00, 0x0000) }
}

/// The color of the cursor's pixel (x, y): `color_black()` on the outline,
/// `color_white()` inside, the transparent color elsewhere.
pub open spec fn cursor_color(x: int, y: int) -> PixelColor {
    let (outline, inside) = cursor_rows(y);
    if (outline >> (x as u16)) & 1u16 == 1u16 {
        color_black()
    } else if (inside >> (x as u16)) & 1u16 == 1u16 {
        color_white()
    } else {
        mouse_transparent_color()
    }
}

/// Draws the mouse cursor with its top left corner at `position`.
pub fn draw_mouse_cursor<W: PixelWriter>(writer: &mut W, position: &Vector2D<i32>)
    requires
        old(writer).inv(),
        old(writer).area().0 <= position.x,
        position.x + 15 <= old(writer).area().2,
        old(writer).area().1 <= position.y,
        position.y + 24 <= old(writer).area().3,
        position.x + 15 <= i32::MAX,
        position.y + 24 <= i32::MAX,
    ensures
        final(writer).inv(),
        final(writer).frame() == old(writer).frame(),
        final(writer).area() == old(writer).area(),
        final(writer).spec_width() == old(writer).spec_width(),
        final(writer).spec_height() == old(writer).spec_height(),
        forall|a: int, b: int|
            #[trigger] final(writer).pixel_at(a, b) == if position.x <= a < position.x + 15 && position.y
                <= b < position.y + 24 {
                cursor_color(a - position.x, b - position.y)
            } else {
                old(writer).pixel_at(a, b)
            },
{
    let ghost w0 = *writer;
    let mut dy: u16 = 0;
    while dy < 24
        invariant
            0 <= dy <= 24,
            writer.inv(),
            writer.frame() == w0.frame(),
            writer.area() == w0.area(),
            writer.spec_width() == w0.spec_width(),
            writer.spec_height() == w0.spec_height(),
            w0.area().0 <= position.x,
            position.x + 15 <= w0.area().2,
            w0.area().1 <= position.y,
            position.y + 24 <= w0.area().3,
            position.x + 15 <= i32::MAX,
            position.y + 24 <= i32::MAX,
            forall|a: int, b: int|
                #[trigger] writer.pixel_at(a, b) == if position.x <= a < position.x + 15 && position.y
                    <= b < position.y + dy {
                    cursor_color(a - position.x, b - position.y)
                } else {
                    w0.pixel_at(a, b)
                },
        decreases 24 - dy,
    {
        let (outline, inside) = cursor_row(dy);
        let mut dx: u16 = 0;
        while dx < 15
            invariant
                0 <= dx <= 15,
                0 <= dy < 24,
                (outline, inside) == cursor_rows(dy as int),
                writer.inv(),
                writer.frame() == w0.frame(),
                writer.area() == w0.area(),
                writer.spec_width() == w0.spec_width(),
                writer.spec_height() == w0.spec_height(),
                w0.area().0 <= position.x,
                position.x + 15 <= w0.area().2,
                w0.area().1 <= position.y,
                position.y + 24 <= w0.area().3,
                position.x + 15 <= i32::MAX,
                position.y + 24 <= i32::MAX,
                forall|a: int, b: int|
                    #[trigger] writer.pixel_at(a, b) == if (position.x <= a < position.x + 15 && position.y
                        <= b < position.y + dy) || (position.x <= a < position.x + dx && b == position.y + dy) {
                        cursor_color(a - position.x, b - position.y)
                    } else {
                        w0.pixel_at(a, b)
                    },
            decreases 15 - dx,
        {
            let color: PixelColor = if (outline >> dx) & 1 == 1 {
                PixelColor::new(255, 255, 255)
            } else if (inside >> dx) & 1 == 1 {
                PixelColor::new(0, 0, 0)
            } else {
                PixelColor::new(0, 0, 1)
            };
            assert(color == cursor_color(dx as int, dy as int));
            writer.write(position.x + dx as i32, position.y + dy as i32, &color);
            dx += 1;
        }
        dy += 1;
    }
}

/// A window the size of the cursor whose transparent color is the one the
/// cursor leaves around its shape.
pub fn new_mouse_cursor_window(pixel_format: PixelFormat) -> (w: Window)
    ensures
        w.wf(),
        w.spec_width() == CURSOR_WIDTH,
        w.spec_height() == CURSOR_HEIGHT,
        w.format() == pixel_format,
        !w.is_top_level(),
        w.spec_transparent_color() == Some(mouse_transparent_color()),
{
    let mut window = Window::new(CURSOR_WIDTH, CURSOR_HEIGHT, pixel_format);
    window.set_transparent_color(PixelColor::new(0, 0, 1));
    window
}

/// The active layer and the task that owns its window, when both exist.
pub open spec fn active_layer_task(lm: LayerManager) -> Option<(LayerID, TaskID)> {
    match lm.active() {
        Some(l) => match lm.task_of(l) {
            Some(t) => Some((l, t)),
            None => None,
        },
        None => None,
    }
}

fn find_active_layer_task(lm: &LayerManager) -> (r: Option<(LayerID, TaskID)>)
    ensures
        r == active_layer_task(*lm),
{
    let layer_id: LayerID = match lm.get_active_layer_id() {
        None => {
            return None;
        },
        Some(id) => id,
    };
    let task_id: TaskID = match lm.get_task_id_by_layer_id(layer_id) {
        None => {
            return None;
        },
        Some(id) => id,
    };
    Some((layer_id, task_id))
}

/// The button messages for the buttons from `i` on whose state differs
/// between `previous` and `buttons`, at (x, y).
pub open spec fn button_messages(x: i32, y: i32, buttons: u8, previous: u8, i: int) -> Seq<Message>
    decreases 8 - i,
{
    if i >= 8 || i < 0 {
        Seq::empty()
    } else if ((previous ^ buttons) >> (i as u8)) & 1u8 == 1u8 {
        seq![Message { m_type: MessageType::MouseButton(MouseButtonMessage {
            x,
            y,
            press: ((buttons >> (i as u8)) & 1u8) as i32,
            button: i as i32,
        }) }] + button_messages(x, y, buttons, previous, i + 1)
    } else {
        button_messages(x, y, buttons, previous, i + 1)
    }
}

/// The messages that a mouse event sends to the task of the active layer
/// at `layer_pos`: a move when the mouse moved, then one message for each
/// button whose state changed.
pub open spec fn mouse_messages(newpos: Vector2D<i32>, posdiff: Vector2D<i32>, buttons: u8, previous: u8, layer_pos: Vector2D<i32>) -> Seq<Message> {
    let x = (newpos.x - layer_pos.x) as i32;
    let y = (newpos.y - layer_pos.y) as i32;
    let moves = if posdiff.x != 0 || posdiff.y != 0 {
        seq![Message { m_type: MessageType::MouseMove(MouseMoveMessage { x, y, dx: posdiff.x, dy: posdiff.y, buttons }) }]
    } else {
        Seq::empty()
    };
    moves + if previous != buttons {
        button_messages(x, y, buttons, previous, 0)
    } else {
        Seq::empty()
    }
}

/// `new` is what telling the task of `lm`'s active layer about a mouse
/// event leaves of `old` (nothing changes when there is no such task).
pub open spec fn mouse_message_sent(
    lm: LayerManager,
    old: TaskManager,
    new: TaskManager,
    newpos: Vector2D<i32>,
    posdiff: Vector2D<i32>,
    buttons: u8,
    previous: u8,
) -> bool {
    match active_layer_task(lm) {
        Some((l, t)) => match lm.layer(l) {
            Some(layer) => messages_sent(old, new, t, mouse_messages(newpos, posdiff, buttons, previous, layer.spec_position())),
            None => new == old,
        },
        None => new == old,
    }
}

/// `new` is what asking the task of `lm`'s active layer to close its
/// window leaves of `old` (nothing changes when there is no such task).
pub open spec fn close_message_sent(lm: LayerManager, old: TaskManager, new: TaskManager) -> bool {
    match active_layer_task(lm) {
        Some((l, t)) => old.message_sent(new, t, Message { m_type: MessageType::WindowClose(WindowCloseMessage { layer_id: l }) }),
        None => new == old,
    }
}

/// Tells the task of the active layer about a mouse event: where the mouse
/// is relative to the layer, how it moved and which buttons changed.
pub fn send_mouse_message(
    newpos: Vector2D<i32>,
    posdiff: Vector2D<i32>,
    buttons: u8,
    previous_buttons: u8,
    layer_manager: &LayerManager,
    task_manager: &mut TaskManager,
)
    requires
        old(task_manager).wf(),
        active_layer_task(*layer_manager) matches Some((l, t)) ==> layer_manager.layer(l) matches Some(layer) ==> {
            &&& t.0 < old(task_manager).task_list().len()
            &&& i32::MIN <= newpos.x - layer.spec_position().x <= i32::MAX
            &&& i32::MIN <= newpos.y - layer.spec_position().y <= i32::MAX
        },
    ensures
        final(task_manager).wf(),
        mouse_message_sent(*layer_manager, *old(task_manager), *final(task_manager), newpos, posdiff, buttons, previous_buttons),
{
    let (layer_id, task_id) = match find_active_layer_task(layer_manager) {
        None => {
            return ;
        },
        Some(pair) => pair,
    };
    let layer = match layer_manager.get_layer(layer_id) {
        None => {
            return ;
        },
        Some(l) => l,
    };
    let lpos: Vector2D<i32> = layer.position();
    let relpos: Vector2D<i32> = Vector2D::new(newpos.x - lpos.x, newpos.y - lpos.y);
    let ghost tm0 = *task_manager;
    let ghost mut sent: Seq<Message> = Seq::empty();
    proof {
        lemma_messages_sent_none(tm0, task_id);
    }
    if posdiff.x != 0 || posdiff.y != 0 {
        let msg = Message::new(MessageType::MouseMove(MouseMoveMessage {
            x: relpos.x,
            y: relpos.y,
            dx: posdiff.x,
            dy: posdiff.y,
            buttons,
        }));
        let ghost before = *task_manager;
        let r = task_manager.send_message(task_id, msg);
        proof {
            lemma_messages_sent_push(tm0, before, *task_manager, task_id, sent, msg);
            sent = sent.push(msg);
        }
    }
    let ghost moves = sent;
    if previous_buttons != buttons {
        let diff: u8 = previous_buttons ^ buttons;
        let mut i: u8 = 0;
        while i < 8
            invariant
                0 <= i <= 8,
                diff == previous_buttons ^ buttons,
                task_manager.wf(),
                task_id.0 < task_manager.task_list().len(),
                messages_sent(tm0, *task_manager, task_id, sent),
                sent + button_messages(relpos.x, relpos.y, buttons, previous_buttons, i as int)
                    == moves + button_messages(relpos.x, relpos.y, buttons, previous_buttons, 0),
            decreases 8 - i,
        {
            if (diff >> i) & 1 == 1 {
                let msg = Message::new(MessageType::MouseButton(MouseButtonMessage {
                    x: relpos.x,
                    y: relpos.y,
                    press: ((buttons >> i) & 1) as i32,
                    button: i as i32,
                }));
                let ghost before = *task_manager;
                let r = task_manager.send_message(task_id, msg);
                proof {
                    lemma_messages_sent_push(tm0, before, *task_manager, task_id, sent, msg);
                    assert(sent.push(msg) + button_messages(relpos.x, relpos.y, buttons, previous_buttons, i + 1)
                        =~= sent + button_messages(relpos.x, relpos.y, buttons, previous_buttons, i as int));
                    sent = sent.push(msg);
                }
            }
            i += 1;
        }
        assert(sent =~= sent + button_messages(relpos.x, relpos.y, buttons, previous_buttons, 8));
    } else {
        assert(sent =~= moves + Seq::<Message>::empty());
    }
    assert(sent =~= mouse_messages(newpos, posdiff, buttons, previous_buttons, lpos));
}

/// Asks the task of the active layer to close its window.
pub fn send_close_message(layer_manager: &LayerManager, task_manager: &mut TaskManager)
    requires
        old(task_manager).wf(),
    ensures
        final(task_manager).wf(),
        close_message_sent(*layer_manager, *old(task_manager), *final(task_manager)),
{
    let (layer_id, task_id) = match find_active_layer_task(layer_manager) {
        None => {
            return ;
        },
        Some(pair) => pair,
    };
    let message = Message::new(MessageType::WindowClose(WindowCloseMessage { layer_id }));
    let _ = task_manager.send_message(task_id, message);
}


/// The mouse: the layer that shows its cursor, where it is, the layer it
/// drags, and the buttons that were down at the last event.
pub struct Mouse {
    layer_id: LayerID,
    position: Vector2D<i32>,
    drag_layer_id: Option<LayerID>,
    previous_buttons: u8,
}

/// Whether the left button is down in the button state `b`.
pub open spec fn left_down(b: u8) -> bool {
    b & 1u8 != 0u8
}

/// `v` kept within `0..size` (0 when `size` is not positive).
pub open spec fn clamp_coord(v: int, size: int) -> int {
    let m = if v <= size - 1 { v } else { size - 1 };
    if m >= 0 { m } else { 0 }
}

/// Where the mouse at `p` lands after moving by (dx, dy) on a screen of
/// `screen` pixels.
pub open spec fn next_position(p: Vector2D<i32>, dx: i8, dy: i8, screen: Vector2D<i32>) -> Vector2D<i32> {
    Vector2D { x: clamp_coord(p.x + dx, screen.x as int) as i32, y: clamp_coord(p.y + dy, screen.y as int) as i32 }
}

/// The layer that a press of the left button at `pos` picks: the topmost
/// shown layer under `pos` other than the mouse's own, when it can be
/// dragged.
pub open spec fn press_target(lm: LayerManager, pos: Vector2D<i32>, mouse_layer: LayerID) -> Option<LayerID> {
    match lm.top_layer_below(pos, mouse_layer, lm.stack().len() as int) {
        Some(id) => if lm.layer(id)->0.spec_draggable() { Some(id) } else { None },
        None => None,
    }
}

/// The part of layer `id`'s window that the screen point `pos` lies in.
pub open spec fn press_region(lm: LayerManager, id: LayerID, pos: Vector2D<i32>) -> WindowRegion {
    let l = lm.layer(id)->0;
    window_region(
        l.spec_window().is_top_level(),
        l.spec_window().spec_width(),
        l.spec_window().spec_height(),
        pos.x - l.spec_position().x,
        pos.y - l.spec_position().y,
    )
}

impl Mouse {
    pub closed spec fn spec_layer_id(&self) -> LayerID {
        self.layer_id
    }

    pub closed spec fn spec_position(&self) -> Vector2D<i32> {
        self.position
    }

    pub closed spec fn spec_drag(&self) -> Option<LayerID> {
        self.drag_layer_id
    }

    pub closed spec fn spec_previous_buttons(&self) -> u8 {
        self.previous_buttons
    }

    /// The mouse never drags its own layer.
    pub open spec fn wf(&self) -> bool {
        self.spec_drag() != Some(self.spec_layer_id())
    }

    /// A mouse at (0, 0) shown by layer `layer_id`, dragging nothing, with
    /// no button down.
    pub fn new(layer_id: LayerID) -> (m: Mouse)
        ensures
            m.wf(),
            m.spec_layer_id() == layer_id,
            m.spec_position() == (Vector2D { x: 0i32, y: 0i32 }),
            m.spec_drag() is None,
            m.spec_previous_buttons() == 0,
    {
        Mouse { layer_id, position: Vector2D::new(0, 0), drag_layer_id: None, previous_buttons: 0 }
    }

    /// Puts the mouse at `position` and moves its layer there.
    pub fn set_position(&mut self, position: Vector2D<i32>, layer_manager: &mut LayerManager)
        requires
            old(layer_manager).wf(),
            old(layer_manager).move_ok(old(self).spec_layer_id(), position),
        ensures
            final(self).spec_position() == position,
            final(self).spec_layer_id() == old(self).spec_layer_id(),
            final(self).spec_drag() == old(self).spec_drag(),
            final(self).spec_previous_buttons() == old(self).spec_previous_buttons(),
            old(layer_manager).move_done(*final(layer_manager), old(self).spec_layer_id(), position),
    {
        self.position = position;
        layer_manager.move_(self.layer_id, self.position);
    }

    /// Handles a mouse event: the mouse moves by (dx, dy), kept on the
    /// screen; a press of the left button activates the draggable layer
    /// under the mouse and, on its title bar, starts dragging it; holding
    /// the button drags; releasing it stops dragging. When nothing is
    /// dragged, the task of the active layer is told about the event, or
    /// asked to close its window when the press was on the close button.
    #[verifier::rlimit(60)]
    pub fn on_interrupt(
        &mut self,
        buttons: u8,
        displacement_x: i8,
        displacement_y: i8,
        screen_size: Vector2D<i32>,
        layer_manager: &mut LayerManager,
        font: &[u8],
        task_manager: &mut TaskManager,
    )
        requires
            old(self).interrupt_ok(
                buttons,
                displacement_x,
                displacement_y,
                screen_size,
                *old(layer_manager),
                font@,
                *old(task_manager),
            ),
        ensures
            final(self).wf(),
            final(self).spec_layer_id() == old(self).spec_layer_id(),
            final(self).spec_position() == next_position(old(self).spec_position(), displacement_x, displacement_y, screen_size),
            final(self).spec_previous_buttons() == buttons,
            final(self).spec_drag() == next_drag(*old(self), buttons, *old(layer_manager), final(self).spec_position()),
            final(layer_manager).wf(),
            final(task_manager).wf(),
            final(layer_manager).active() == next_active(*old(self), buttons, *old(layer_manager), final(self).spec_position()),
            forall|i: LayerID| #[trigger] final(layer_manager).task_of(i) == old(layer_manager).task_of(i),
            old(layer_manager).layer(old(self).spec_layer_id()) is Some ==> {
                &&& final(layer_manager).layer(old(self).spec_layer_id()) is Some
                &&& final(layer_manager).layer(old(self).spec_layer_id())->0.spec_position() == final(self).spec_position()
            },
            left_down(old(self).spec_previous_buttons()) && left_down(buttons) ==> (old(self).spec_drag() matches Some(d) ==> (
                old(layer_manager).layer(d) matches Some(l) ==> {
                    &&& final(layer_manager).layer(d) is Some
                    &&& final(layer_manager).layer(d)->0.spec_position().x == l.spec_position().x + final(self).spec_position().x - old(self).spec_position().x
                    &&& final(layer_manager).layer(d)->0.spec_position().y == l.spec_position().y + final(self).spec_position().y - old(self).spec_position().y
                })),
            exists|tm1: TaskManager|
                #[trigger] activation_sent(
                    *old(layer_manager),
                    next_active(*old(self), buttons, *old(layer_manager), final(self).spec_position()),
                    *old(task_manager),
                    tm1,
                ) && (final(self).spec_drag() is Some ==> *final(task_manager) == tm1) && (final(self).spec_drag() is None ==> if presses_close(
                    *old(self),
                    buttons,
                    *old(layer_manager),
                    final(self).spec_position(),
                ) {
                    close_message_sent(*final(layer_manager), tm1, *final(task_manager))
                } else {
                    mouse_message_sent(
                        *final(layer_manager),
                        tm1,
                        *final(task_manager),
                        final(self).spec_position(),
                        Vector2D {
                            x: (final(self).spec_position().x - old(self).spec_position().x) as i32,
                            y: (final(self).spec_position().y - old(self).spec_position().y) as i32,
                        },
                        buttons,
                        old(self).spec_previous_buttons(),
                    )
                }),
    {
        let ghost m0 = *self;
        let ghost lm0 = *layer_manager;
        let ghost tm0 = *task_manager;
        let mouse_layer: LayerID = self.layer_id;
        let moved: Vector2D<i32> = self.position.add(Vector2D::new(displacement_x as i32, displacement_y as i32));
        let new_pos: Vector2D<i32> = moved.element_min(Vector2D::new(screen_size.x - 1, screen_size.y - 1)).element_max(
            Vector2D::new(0, 0),
        );
        assert(new_pos == next_position(m0.spec_position(), displacement_x, displacement_y, screen_size));
        let old_pos: Vector2D<i32> = self.position;
        self.position = new_pos;
        let pos_diff: Vector2D<i32> = new_pos.sub(old_pos);
        layer_manager.move_(mouse_layer, new_pos);
        let ghost lm1 = *layer_manager;
        proof {
            lemma_after_mouse_move(lm0, lm1, mouse_layer, new_pos);
            if lm0.layer(mouse_layer) is Some {
                lm0.layer(mouse_layer)->0.lemma_at_position(new_pos);
            }
            lm0.lemma_top_layer_below_same(lm1, new_pos, mouse_layer, lm0.stack().len() as int);
            lm0.lemma_top_layer_below_found(new_pos, mouse_layer, lm0.stack().len() as int);
            assert forall|i: LayerID| i != mouse_layer implies #[trigger] lm1.layer(i) == lm0.layer(i) by {
                if lm0.layer(mouse_layer) is None {
                    assert(lm1 == lm0);
                }
            }
        }
        let mut close_layer_id: Option<LayerID> = None;
        let previous_left_pressed: bool = (self.previous_buttons & 0x01) != 0;
        let left_pressed: bool = (buttons & 0x01) != 0;
        proof {
            assert(previous_left_pressed == left_down(m0.spec_previous_buttons()));
            assert(left_pressed == left_down(buttons));
        }
        if !previous_left_pressed && left_pressed {
            let found: Option<&Layer> = layer_manager.find_layer_by_position(new_pos, mouse_layer);
            proof {
                lm1.lemma_top_layer_below_found(new_pos, mouse_layer, lm1.stack().len() as int);
                if let Some(t) = lm1.top_layer_below(new_pos, mouse_layer, lm1.stack().len() as int) {
                    lm1.lemma_layer_wf(t);
                    lm1.layer(t)->0.spec_window().lemma_size_ok();
                }
            }
            let draggable_id: Option<LayerID> = match found {
                Some(layer) => {
                    if layer.is_draggable() {
                        let id: LayerID = layer.id();
                        let lpos: Vector2D<i32> = layer.position();
                        let region = layer.get_window_ref().get_window_region(new_pos.sub(lpos));
                        match region {
                            WindowRegion::TitleBar => self.drag_layer_id = Some(id),
                            WindowRegion::CloseButton => close_layer_id = Some(id),
                            WindowRegion::Border => {},
                            WindowRegion::Other => {},
                        }
                        Some(id)
                    } else {
                        None
                    }
                },
                None => None,
            };
            assert(draggable_id == press_target(lm0, new_pos, mouse_layer));
            proof {
                if lm1.active() != draggable_id {
                    assert forall|i: LayerID| lm1.layer(i) is Some implies title_redraw_ok(#[trigger] lm1.layer(i)->0, font@) by {
                        assert(lm0.layer(i) is Some);
                        if i == mouse_layer {
                            lm0.layer(i)->0.lemma_at_position(new_pos);
                        }
                    }
                    if let Some(a) = lm1.active() {
                        if lm1.layer(a) is Some {
                            lemma_redraw_ok_after(lm0, lm1, mouse_layer, new_pos, a);
                        }
                    }
                    if let Some(b) = draggable_id {
                        lemma_redraw_ok_after(lm0, lm1, mouse_layer, new_pos, b);
                    }
                }
            }
            layer_manager.activate_layer(draggable_id, font, task_manager);
            proof {
                assert forall|i: LayerID| #[trigger] lm1.task_of(i) == lm0.task_of(i) by {
                    if lm0.layer(mouse_layer) is None {
                        assert(lm1 == lm0);
                    }
                }
                assert(lm1.task_of_opt(lm1.active()) == lm0.task_of_opt(lm0.active()));
                assert(lm1.task_of_opt(draggable_id) == lm0.task_of_opt(draggable_id));
                if lm1.active() != draggable_id {
                    let mid = choose|mid: TaskManager|
                        #[trigger] active_message_sent(lm1.task_of_opt(lm1.active()), tm0, mid, WindowActiveMode::Deactivate)
                            && active_message_sent(lm1.task_of_opt(draggable_id), mid, *task_manager, WindowActiveMode::Activate);
                    assert(active_message_sent(lm0.task_of_opt(lm0.active()), tm0, mid, WindowActiveMode::Deactivate));
                }
                assert(activation_sent(lm0, draggable_id, tm0, *task_manager));
            }
        } else if previous_left_pressed && left_pressed {
            if let Some(drag_layer_id) = self.drag_layer_id {
                proof {
                    let l = lm0.layer(drag_layer_id)->0;
                    lemma_drag_ok(
                        lm0,
                        lm1,
                        mouse_layer,
                        new_pos,
                        drag_layer_id,
                        Vector2D { x: (l.spec_position().x + pos_diff.x) as i32, y: (l.spec_position().y + pos_diff.y) as i32 },
                    );
                }
                layer_manager.move_relative(drag_layer_id, pos_diff);
                proof {
                    assert(lm1.layer(drag_layer_id) == lm0.layer(drag_layer_id));
                    if lm1.layer(drag_layer_id) is Some {
                        let l = lm1.layer(drag_layer_id)->0;
                        l.lemma_at_position(Vector2D { x: (l.spec_position().x + pos_diff.x) as i32, y: (l.spec_position().y + pos_diff.y) as i32 });
                    }
                }
            }
        } else if previous_left_pressed && !left_pressed {
            self.drag_layer_id = None;
        }
        let ghost lm2 = *layer_manager;
        let ghost tm1 = *task_manager;
        proof {
            if previous_left_pressed || !left_pressed {
                assert(tm1 == tm0);
            }
            assert(activation_sent(lm0, next_active(m0, buttons, lm0, new_pos), tm0, tm1));
            assert(close_layer_id.is_some() == presses_close(m0, buttons, lm0, new_pos));
        }
        if self.drag_layer_id.is_none() {
            if close_layer_id.is_some() {
                send_close_message(layer_manager, task_manager);
            } else {
                send_mouse_message(new_pos, pos_diff, buttons, self.previous_buttons, layer_manager, task_manager);
            }
        }
        self.previous_buttons = buttons;
    }

    /// Whether `on_interrupt` can handle a movement by (dx, dy) with the
    /// buttons `buttons` on a screen of `screen` pixels: the managers are
    /// sound, every title bar can be redrawn with `font`, every task that
    /// owns a window exists, and no coordinate that moving the cursor,
    /// redrawing the windows that change, dragging a layer or telling the
    /// active window's task about the event computes leaves the `i32` range.
    pub open spec fn interrupt_ok(
        &self,
        buttons: u8,
        dx: i8,
        dy: i8,
        screen: Vector2D<i32>,
        lm: LayerManager,
        font: Seq<u8>,
        tm: TaskManager,
    ) -> bool {
        let np = next_position(self.spec_position(), dx, dy, screen);
        let mouse = self.spec_layer_id();
        &&& self.wf()
        &&& lm.wf()
        &&& tm.wf()
        &&& lm.tasks_known(tm)
        &&& lm.stack().len() < i32::MAX
        &&& lm.active() matches Some(a) ==> lm.layer(a) is Some
        &&& forall|i: LayerID| #[trigger] lm.layer(i) matches Some(l) ==> title_redraw_ok(l, font)
        &&& i32::MIN < screen.x
        &&& i32::MIN < screen.y
        &&& i32::MIN <= self.spec_position().x + dx <= i32::MAX
        &&& i32::MIN <= self.spec_position().y + dy <= i32::MAX
        &&& i32::MIN <= np.x - self.spec_position().x <= i32::MAX
        &&& i32::MIN <= np.y - self.spec_position().y <= i32::MAX
        &&& lm.move_ok(mouse, np)
        &&& (!left_down(self.spec_previous_buttons()) && left_down(buttons) && lm.active() != press_target(
            lm,
            np,
            mouse,
        )) ==> {
            &&& lm.active() matches Some(a) ==> redraw_ok_after(lm, mouse, np, a)
            &&& press_target(lm, np, mouse) matches Some(b) ==> redraw_ok_after(lm, mouse, np, b)
        }
        &&& (left_down(self.spec_previous_buttons()) && left_down(buttons)) ==> (self.spec_drag() matches Some(d) ==> (
            lm.layer(d) matches Some(l) ==> {
                &&& i32::MIN <= l.spec_position().x + np.x - self.spec_position().x <= i32::MAX
                &&& i32::MIN <= l.spec_position().y + np.y - self.spec_position().y <= i32::MAX
                &&& drag_ok(
                    lm,
                    mouse,
                    np,
                    d,
                    Vector2D {
                        x: (l.spec_position().x + np.x - self.spec_position().x) as i32,
                        y: (l.spec_position().y + np.y - self.spec_position().y) as i32,
                    },
                )
            }))
        &&& (next_drag(*self, buttons, lm, np) is None && !presses_close(*self, buttons, lm, np)) ==> (next_active(
            *self,
            buttons,
            lm,
            np,
        ) matches Some(a) ==> (lm.layer(a) is Some ==> {
            &&& i32::MIN <= np.x - lm.layer_after_move(a, mouse, np).spec_position().x <= i32::MAX
            &&& i32::MIN <= np.y - lm.layer_after_move(a, mouse, np).spec_position().y <= i32::MAX
        }))
    }
}

/// Whether layer `id` of `lm` can be redrawn wherever it stands in the
/// stack once the mouse's layer `mouse` is at `np`: every shown layer can
/// draw the area of `id`'s window.
pub open spec fn redraw_ok_after(lm: LayerManager, mouse: LayerID, np: Vector2D<i32>, id: LayerID) -> bool {
    let l = lm.layer_after_move(id, mouse, np);
    let wa = Rectangle {
        pos: l.spec_position(),
        size: Vector2D { x: l.spec_window().spec_width() as i32, y: l.spec_window().spec_height() as i32 },
    };
    &&& layer_draw_ok(l, wa, lm.screen_w(), lm.screen_h())
    &&& forall|k: int|
        0 <= k < lm.stack().len() ==> layer_draw_ok(
            lm.layer_after_move(#[trigger] lm.stack()[k], mouse, np),
            wa,
            lm.screen_w(),
            lm.screen_h(),
        )
}

/// Layer `i` of `lm` once the mouse's layer `mouse` is at `np` and layer
/// `d` at `pos`.
pub open spec fn dragged_layer(lm: LayerManager, mouse: LayerID, np: Vector2D<i32>, d: LayerID, pos: Vector2D<i32>, i: LayerID) -> Layer {
    if i == d {
        lm.layer(d)->0.at_position(pos)
    } else {
        lm.layer_after_move(i, mouse, np)
    }
}

/// Whether dragging layer `d` to `pos`, once the mouse's layer is at `np`,
/// keeps every value of the move and of the redraws in the `i32` range
/// (the condition of `LayerManager::move_ok` on the manager after the
/// mouse moved).
pub open spec fn drag_ok(lm: LayerManager, mouse: LayerID, np: Vector2D<i32>, d: LayerID, pos: Vector2D<i32>) -> bool {
    lm.layer(d) matches Some(l) ==> {
        let w = l.spec_window().spec_width();
        let h = l.spec_window().spec_height();
        &&& placement_ok(pos, w, h)
        &&& forall|k: int|
            0 <= k < lm.stack().len() ==> layer_draw_ok(
                dragged_layer(lm, mouse, np, d, pos, #[trigger] lm.stack()[k]),
                Rectangle { pos: l.spec_position(), size: Vector2D { x: w as i32, y: h as i32 } },
                lm.screen_w(),
                lm.screen_h(),
            )
        &&& (stack_index(lm.stack(), d) matches Some(k0) ==> forall|k: int|
            k0 <= k < lm.stack().len() ==> layer_draw_ok(
                dragged_layer(lm, mouse, np, d, pos, #[trigger] lm.stack()[k]),
                Rectangle { pos, size: Vector2D { x: w as i32, y: h as i32 } },
                lm.screen_w(),
                lm.screen_h(),
            ))
    }
}

/// After the mouse's layer moved, the shown layers are those of
/// `layer_after_move`.
proof fn lemma_after_mouse_move(lm0: LayerManager, lm1: LayerManager, mouse: LayerID, np: Vector2D<i32>)
    requires
        lm0.wf(),
        lm0.move_done(lm1, mouse, np),
    ensures
        lm1.stack() == lm0.stack(),
        lm1.screen_w() == lm0.screen_w(),
        lm1.screen_h() == lm0.screen_h(),
        forall|i: LayerID| #[trigger] lm0.layer(i) is Some ==> lm1.layer(i) == Some(lm0.layer_after_move(i, mouse, np)),
        forall|k: int| 0 <= k < lm0.stack().len() ==> #[trigger] lm0.layer(lm0.stack()[k]) is Some,
{
    assert forall|i: LayerID| #[trigger] lm0.layer(i) is Some implies lm1.layer(i) == Some(lm0.layer_after_move(i, mouse, np)) by {
        if lm0.layer(mouse) is None {
            assert(i != mouse);
        }
    }
    lm0.lemma_stack_layers();
}

proof fn lemma_redraw_ok_after(lm0: LayerManager, lm1: LayerManager, mouse: LayerID, np: Vector2D<i32>, id: LayerID)
    requires
        lm0.wf(),
        lm0.move_done(lm1, mouse, np),
        lm0.layer(id) is Some,
        redraw_ok_after(lm0, mouse, np, id),
    ensures
        lm1.redraw_anywhere_ok(id),
{
    lemma_after_mouse_move(lm0, lm1, mouse, np);
    assert(lm1.layer(id)->0 == lm0.layer_after_move(id, mouse, np));
    let l = lm0.layer_after_move(id, mouse, np);
    let wa = Rectangle {
        pos: l.spec_position(),
        size: Vector2D { x: l.spec_window().spec_width() as i32, y: l.spec_window().spec_height() as i32 },
    };
    assert forall|k: int| 0 <= k < lm1.stack().len() implies layer_draw_ok(
        lm1.layer(#[trigger] lm1.stack()[k])->0,
        wa,
        lm1.screen_w(),
        lm1.screen_h(),
    ) by {
        assert(lm0.layer(lm0.stack()[k]) is Some);
        assert(lm1.layer(lm0.stack()[k]) == Some(lm0.layer_after_move(lm0.stack()[k], mouse, np)));
    }
}

proof fn lemma_drag_ok(lm0: LayerManager, lm1: LayerManager, mouse: LayerID, np: Vector2D<i32>, d: LayerID, pos: Vector2D<i32>)
    requires
        lm0.wf(),
        lm0.move_done(lm1, mouse, np),
        d != mouse,
        drag_ok(lm0, mouse, np, d, pos),
    ensures
        lm1.move_ok(d, pos),
{
    lemma_after_mouse_move(lm0, lm1, mouse, np);
    if lm0.layer(d) is Some {
        assert(lm1.layer(d) == lm0.layer(d));
        assert forall|k: int| 0 <= k < lm1.stack().len() implies #[trigger] lm1.layer_after_move(lm1.stack()[k], d, pos)
            == dragged_layer(lm0, mouse, np, d, pos, lm0.stack()[k]) by {
            let i = lm0.stack()[k];
            assert(lm0.layer(i) is Some);
        }
    } else {
        if lm0.layer(mouse) is None {
            assert(lm1 == lm0);
        }
        assert(lm1.layer(d) is None);
    }
}

/// The drag target after an event with `buttons`: the press of the left
/// button on a title bar starts dragging that layer, its release stops
/// any dragging.
pub open spec fn next_drag(m: Mouse, buttons: u8, lm: LayerManager, np: Vector2D<i32>) -> Option<LayerID> {
    let before = left_down(m.spec_previous_buttons());
    let now = left_down(buttons);
    if !before && now {
        match press_target(lm, np, m.spec_layer_id()) {
            Some(t) => if press_region(lm, t, np) == WindowRegion::TitleBar { Some(t) } else { m.spec_drag() },
            None => m.spec_drag(),
        }
    } else if before && !now {
        None
    } else {
        m.spec_drag()
    }
}

/// Whether the event presses the left button on a close button.
pub open spec fn presses_close(m: Mouse, buttons: u8, lm: LayerManager, np: Vector2D<i32>) -> bool {
    &&& !left_down(m.spec_previous_buttons())
    &&& left_down(buttons)
    &&& press_target(lm, np, m.spec_layer_id()) matches Some(t)
    &&& press_region(lm, t, np) == WindowRegion::CloseButton
}

/// The active layer after the event: a press of the left button
/// activates the layer it picks (none when it picks none).
pub open spec fn next_active(m: Mouse, buttons: u8, lm: LayerManager, np: Vector2D<i32>) -> Option<LayerID> {
    if !left_down(m.spec_previous_buttons()) && left_down(buttons) {
        press_target(lm, np, m.spec_layer_id())
    } else {
        lm.active()
    }
}

proof fn lemma_message_sent_len(old: TaskManager, new: TaskManager, t: TaskID, m: Message)
    requires
        old.message_sent(new, t, m),
    ensures
        new.task_list().len() == old.task_list().len(),
{
}

proof fn lemma_active_message_sent_len(t: Option<TaskID>, old: TaskManager, new: TaskManager, mode: WindowActiveMode)
    requires
        active_message_sent(t, old, new, mode),
    ensures
        new.task_list().len() == old.task_list().len(),
{
    if let Some(task) = t {
        lemma_message_sent_len(old, new, task, Message { m_type: MessageType::WindowActive(mode) });
    }
}

} // verus!
