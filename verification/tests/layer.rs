use rusty_mikanos::graphics::{PixelColor, PixelWriter, Rectangle, Vector2D};
use rusty_mikanos::layer::{LayerID, LayerManager};
use rusty_mikanos::message::{LayerMessage, LayerOperation};
use rusty_mikanos::shared::{FrameBufferConfig, PixelFormat};
use rusty_mikanos::task::{TaskID, TaskManager};
use rusty_mikanos::window::Window;

fn window() -> Window {
    Window::new(1, 1, PixelFormat::KPixelBGRResv8BitPerColor)
}

fn frame_buffer_config() -> FrameBufferConfig {
    FrameBufferConfig::new(1, 1, 1, PixelFormat::KPixelBGRResv8BitPerColor)
}

#[test]
fn new_layer() {
    let window1 = window();
    let mut lm = LayerManager::new(&frame_buffer_config());
    let id1 = lm.new_layer(window1).id();
    // verify layer's id equals to index of lm.layers
    assert_eq!(lm.get_layer(id1).unwrap().id(), id1);
}

#[test]
fn move_() {
    let window1 = window();
    let mut lm = LayerManager::new(&frame_buffer_config());
    let id1 = lm.new_layer(window1).id();

    lm.move_(id1, Vector2D::new(100, 10));

    let l1 = lm.get_layer(id1).unwrap();
    assert_eq!(l1.position(), Vector2D::new(100, 10));
}

#[test]
fn move_relative() {
    let window1 = window();
    let mut lm = LayerManager::new(&frame_buffer_config());
    let id1 = lm.new_layer(window1).move_(Vector2D::new(100, 100)).id();

    lm.move_relative(id1, Vector2D::new(-50, -30));
    {
        let l1 = lm.get_layer(id1).unwrap();
        assert_eq!(l1.position(), Vector2D::new(50, 70));
    }

    lm.move_relative(id1, Vector2D::new(-60, -60));
    let l1 = lm.get_layer(id1).unwrap();
    assert_eq!(l1.position(), Vector2D::new(-10, 10));
}

#[test]
fn up_down() {
    let mut lm = LayerManager::new(&frame_buffer_config());
    let id0 = lm.new_layer(window()).id();
    let id1 = lm.new_layer(window()).id();
    let id2 = lm.new_layer(window()).id();
    let id3 = lm.new_layer(window()).id();

    lm.up_down(id0, 0);
    lm.up_down(id1, 100);
    assert_eq!(&vec![id0, id1], lm.layer_id_stack());

    lm.up_down(id2, 0);
    assert_eq!(&vec![id2, id0, id1], lm.layer_id_stack());

    lm.up_down(id3, 100);
    assert_eq!(&vec![id2, id0, id1, id3], lm.layer_id_stack());

    lm.up_down(id0, i32::MAX);
    assert_eq!(&vec![id2, id1, id3, id0], lm.layer_id_stack());

    lm.up_down(id1, -1);
    assert_eq!(&vec![id2, id3, id0], lm.layer_id_stack());

    lm.up_down(id2, -1);
    assert_eq!(&vec![id3, id0], lm.layer_id_stack());
}

fn color(r: u8) -> PixelColor {
    PixelColor::new(r, 0, 0)
}

fn screen_at(lm: &LayerManager, x: i32, y: i32) -> PixelColor {
    let mut fb = rusty_mikanos::frame_buffer::FrameBuffer::new(FrameBufferConfig::new(
        4,
        4,
        4,
        PixelFormat::KPixelBGRResv8BitPerColor,
    ));
    fb.copy(Vector2D::new(0, 0), lm.screen(), Rectangle::new(Vector2D::new(0, 0), Vector2D::new(4, 4)));
    fb.writer().read(x, y)
}

#[test]
fn layers_compose_bottom_first() {
    let cfg = FrameBufferConfig::new(4, 4, 4, PixelFormat::KPixelBGRResv8BitPerColor);
    let mut lm = LayerManager::new(&cfg);
    let mut bottom = Window::new(4, 4, PixelFormat::KPixelBGRResv8BitPerColor);
    for y in 0..4 {
        for x in 0..4 {
            bottom.write(x, y, &color(1));
        }
    }
    let mut top = Window::new(2, 2, PixelFormat::KPixelBGRResv8BitPerColor);
    top.write(0, 0, &color(2));
    top.write(1, 1, &color(3));
    top.set_transparent_color(PixelColor::new(0, 0, 0));
    let b = lm.new_layer(bottom).id();
    let t = lm.new_layer(top).move_(Vector2D::new(1, 1)).id();
    lm.up_down(b, 0);
    lm.up_down(t, 1);
    lm.draw_on(Rectangle::new(Vector2D::new(0, 0), Vector2D::new(4, 4)));
    assert_eq!(screen_at(&lm, 0, 0), color(1));
    assert_eq!(screen_at(&lm, 1, 1), color(2));
    assert_eq!(screen_at(&lm, 2, 1), color(1));
    assert_eq!(screen_at(&lm, 2, 2), color(3));

    let found = lm.find_layer_by_position(Vector2D::new(2, 2), LayerID::max()).unwrap();
    assert_eq!(found.id(), t);
    let found = lm.find_layer_by_position(Vector2D::new(2, 2), t).unwrap();
    assert_eq!(found.id(), b);
    assert!(lm.find_layer_by_position(Vector2D::new(9, 9), t).is_none());
    assert_eq!(lm.get_height(t), Some(1));

    lm.process_message(&LayerMessage {
        layer_id: t,
        op: LayerOperation::Move { pos: Vector2D::new(2, 2) },
        src_task_id: TaskID::new(0),
    });
    assert_eq!(screen_at(&lm, 1, 1), color(1));
    assert_eq!(screen_at(&lm, 2, 2), color(2));
    assert_eq!(screen_at(&lm, 3, 3), color(3));
}

#[test]
fn activate_and_close() {
    let mut tm = TaskManager::new();
    let font = vec![0u8; 4096];
    let cfg = FrameBufferConfig::new(8, 8, 8, PixelFormat::KPixelBGRResv8BitPerColor);
    let mut lm = LayerManager::new(&cfg);
    let a = lm.new_layer(window()).id();
    let b = lm.new_layer(window()).id();
    let mouse = lm.new_layer(window()).id();
    lm.set_mouse_layer_id(mouse);
    lm.up_down(a, 0);
    lm.up_down(b, 1);
    lm.up_down(mouse, 2);
    lm.activate_layer(Some(a), &font, &mut tm);
    assert_eq!(lm.get_active_layer_id(), Some(a));
    // The active layer goes just below the mouse cursor.
    assert_eq!(lm.layer_id_stack(), &vec![b, a, mouse]);
    lm.register_layer_task_relation(a, TaskID::new(0));
    assert_eq!(lm.get_task_id_by_layer_id(a), Some(TaskID::new(0)));
    assert!(lm.close_layer(a, &font, &mut tm).is_ok());
    assert_eq!(lm.get_active_layer_id(), None);
    assert!(lm.get_layer(a).is_none());
    assert_eq!(lm.get_task_id_by_layer_id(a), None);
    assert_eq!(lm.layer_id_stack(), &vec![b, mouse]);
    assert!(lm.close_layer(a, &font, &mut tm).is_err());

    // Without a shown mouse layer, an activated layer is taken off the stack.
    lm.set_mouse_layer_id(LayerID::max());
    lm.activate_layer(Some(b), &font, &mut tm);
    assert_eq!(lm.layer_id_stack(), &vec![mouse]);
}
