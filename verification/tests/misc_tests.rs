use niels1020_graphics_engine::surface::choose_surface_setup;
use wgpu::{PresentMode, TextureFormat};
use niels1020_graphics_engine::children::{find_name, vertex_buffer_action, BufferAction, Children};
use niels1020_graphics_engine::common::{CompareFunction, MAX_FRAME_LATENCY};
use niels1020_graphics_engine::demo::{TextureTest, VerticesTest};
use niels1020_graphics_engine::events::{plan_window_event, WindowEventKind};
use niels1020_graphics_engine::surface::SurfaceSize;

fn names(ns: &[&str]) -> Vec<String> {
    ns.iter().map(|s| s.to_string()).collect()
}

#[test]
fn children_add_get_remove_by_name() {
    let mut c: Children<u32> = Children::new();
    assert!(!c.number_of_children_changed);
    c.add_child(1);
    c.add_child(2);
    c.add_child(3);
    assert!(c.number_of_children_changed);
    let n = names(&["a", "b", "b"]);
    assert_eq!(c.get_child(&n, "b".to_string()), Some(&2));
    assert_eq!(c.get_child(&n, "z".to_string()), None);
    assert_eq!(c.position_of(&n, "b".to_string()), Some(1));
    assert!(c.plan_vertices(true, false, false));
    assert!(!c.number_of_children_changed);
    c.remove_child(&n, "b".to_string());
    assert_eq!(c.to_render, vec![1, 3]);
    assert!(c.number_of_children_changed);
    let n = names(&["a", "b"]);
    c.remove_child(&n, "q".to_string());
    assert_eq!(c.to_render, vec![1, 3]);
}

#[test]
fn children_plan_vertices() {
    let mut c: Children<u32> = Children::new();
    assert!(c.plan_vertices(false, false, false));
    assert!(!c.plan_vertices(true, false, false));
    assert!(c.plan_vertices(true, true, false));
    assert!(c.plan_vertices(true, false, true));
    c.add_child(4);
    assert!(c.plan_vertices(true, false, false));
    assert!(!c.number_of_children_changed);
}

#[test]
fn vertex_buffer_actions() {
    assert_eq!(vertex_buffer_action(true, true), BufferAction::Drop);
    assert_eq!(vertex_buffer_action(false, false), BufferAction::Create);
    assert_eq!(vertex_buffer_action(false, true), BufferAction::Write);
    assert_eq!(find_name(&names(&["x", "y"]), &"y".to_string()), Some(1));
}

#[test]
fn surface_resize_ignores_zero_sides() {
    let mut s = SurfaceSize::new(800, 600);
    assert!(s.is_surface_configured);
    assert!(!s.resize(0, 100));
    assert_eq!((s.width, s.height, s.window_res), (800, 600, [800, 600]));
    assert!(s.resize(1024, 768));
    assert_eq!((s.width, s.height, s.window_res), (1024, 768, [1024, 768]));
}

#[test]
fn window_event_plans() {
    let p = plan_window_event(WindowEventKind::CloseRequested, true);
    assert!(p.close && !p.forward && !p.redraw && p.resize.is_none());
    let p = plan_window_event(WindowEventKind::Destroyed, false);
    assert!(p.close && !p.forward);
    let p = plan_window_event(WindowEventKind::Resized(5, 6), true);
    assert_eq!(p.resize, Some((5, 6)));
    assert!(p.forward && !p.close);
    let p = plan_window_event(WindowEventKind::Resized(5, 6), false);
    assert_eq!(p.resize, None);
    let p = plan_window_event(WindowEventKind::RedrawRequested, true);
    assert!(p.redraw && p.forward);
    let p = plan_window_event(WindowEventKind::RedrawRequested, false);
    assert!(!p.redraw && p.forward);
    let p = plan_window_event(WindowEventKind::Other, true);
    assert!(p.forward && !p.redraw && !p.close);
}

#[test]
fn demo_objects_update_once() {
    let mut v = VerticesTest::new();
    assert!(v.have_vertices_changed());
    v.mark_updated();
    assert!(!v.have_vertices_changed());

    let mut t = TextureTest::new();
    assert!(t.have_vertices_changed());
    assert!(t.take_image_to_add());
    assert!(!t.take_image_to_add());
    t.mark_updated();
    assert!(!t.have_vertices_changed());
}

#[test]
fn common_values() {
    assert_eq!(MAX_FRAME_LATENCY, 2);
    assert_ne!(CompareFunction::Less, CompareFunction::Greater);
    assert_eq!(CompareFunction::Always as u32, 8);
    assert_eq!(CompareFunction::Undefined as u32, 0);
}

#[test]
fn surface_setup_prefers_srgb_and_fifo() {
    let formats = vec![TextureFormat::Bgra8Unorm, TextureFormat::Bgra8UnormSrgb, TextureFormat::Rgba8UnormSrgb];
    let modes = vec![PresentMode::Mailbox, PresentMode::Fifo];
    assert_eq!(choose_surface_setup(&formats, &modes), (1, 1));
    let plain = vec![TextureFormat::Rgba8Unorm, TextureFormat::Bgra8Unorm];
    let no_fifo = vec![PresentMode::Immediate, PresentMode::Mailbox];
    assert_eq!(choose_surface_setup(&plain, &no_fifo), (0, 0));
}
