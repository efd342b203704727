use client::renderer::layer_stack::{LayerStack, RenderContext};

#[test]
fn overlays_stay_above_ordinary_layers() {
    let mut s: LayerStack<&str> = LayerStack::new();
    s.push("a", 1);
    s.push_overlay("o1", 2);
    s.push("b", 3);
    s.push_overlay("o2", 4);
    let names: Vec<&str> = s.layers().iter().map(|(n, _)| *n).collect();
    assert_eq!(names, vec!["a", "b", "o2", "o1"]);
    assert!(s.contains(3));
    assert!(!s.contains(5));
}

#[test]
fn a_second_layer_of_a_kind_is_refused() {
    let mut c: RenderContext<u8> = RenderContext::new();
    assert!(c.push(10, 1, "World", false).is_ok());
    assert!(c.push(11, 2, "Hud", true).is_ok());
    let e = c.push(12, 1, "World", false).unwrap_err();
    assert_eq!(e.0, "World");
    assert_eq!(e.message(), "layer \"World\" already exists");
    assert_eq!(c.layer_stack().layers().len(), 2);
}
