use client::events::key::{KeyEvent, KeyPressedEvent, KeyReleasedEvent};
use client::events::mouse::{MouseButton, MouseButtonEvent, MouseButtonPressedEvent, MouseButtonReleasedEvent};
use client::events::window::{WindowCloseEvent, WindowResizeEvent};
use client::events::{Dispatcher, Event};
use client::renderer::window::MouseButton as WindowMouseButton;

#[test]
fn key_pressed_event_keeps_its_values() {
    let mut e = KeyPressedEvent::new(65, 3);
    assert_eq!(e.key_code(), 65);
    assert_eq!(e.repeat_count(), 3);
    assert!(!e.handled());
    e.set_handled();
    assert!(e.handled());
    assert_eq!(e.key_code(), 65);
    assert_eq!(e.repeat_count(), 3);
    assert_eq!(KeyPressedEvent::name(), "KeyPressed");
}

#[test]
fn key_released_event_keeps_its_values() {
    let e = KeyReleasedEvent::new(-1);
    assert_eq!(e.key_code(), -1);
    assert!(!e.handled());
    assert_eq!(KeyReleasedEvent::name(), "KeyReleased");
}

#[test]
fn mouse_button_events() {
    let p = MouseButtonPressedEvent::new(MouseButton::Middle);
    assert_eq!(p.mouse_button(), MouseButton::Middle);
    assert!(!p.handled());
    let mut r = MouseButtonReleasedEvent::new(MouseButton::Right);
    r.set_handled();
    assert!(r.handled());
    assert_eq!(r.mouse_button(), MouseButton::Right);
    assert_eq!(MouseButtonPressedEvent::name(), "MouseButtonPressed");
    assert_eq!(MouseButtonReleasedEvent::name(), "MouseButtonReleased");
}

#[test]
fn window_events() {
    let c = WindowCloseEvent::new();
    assert!(!c.handled());
    assert_eq!(WindowCloseEvent::name(), "WindowClose");
    let mut r = WindowResizeEvent::new(800, 600);
    assert_eq!(r.width(), 800);
    assert_eq!(r.height(), 600);
    r.set_handled();
    assert!(r.handled());
    assert_eq!((r.width(), r.height()), (800, 600));
    assert_eq!(WindowResizeEvent::name(), "WindowResize");
}

#[test]
fn dispatch_marks_event_handled_only_when_the_handler_says_so() {
    let mut d = Dispatcher::new(WindowResizeEvent::new(10, 20));
    d.dispatch(|e: &WindowResizeEvent| e.width() == 99);
    d.dispatch(|e: &WindowResizeEvent| {
        assert!(!e.handled());
        true
    });
    d.dispatch(|e: &WindowResizeEvent| {
        assert!(e.handled());
        assert_eq!(e.height(), 20);
        false
    });
}

#[test]
fn window_mouse_buttons_from_numbers() {
    assert_eq!(WindowMouseButton::from_button_number(0), WindowMouseButton::Left);
    assert_eq!(WindowMouseButton::from_button_number(1), WindowMouseButton::Right);
    assert_eq!(WindowMouseButton::from_button_number(2), WindowMouseButton::Middle);
    assert_eq!(WindowMouseButton::from_button_number(3), WindowMouseButton::Other);
    assert_eq!(WindowMouseButton::from_button_number(-1), WindowMouseButton::Other);
}
