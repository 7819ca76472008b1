use niels1020_graphics_engine::commands::{Command, Request};
use niels1020_graphics_engine::engine::{Engine, Outcome};

type TestCommand = Command<&'static str, u8, u32, u8>;

fn engine_with(ids: &[u64]) -> Engine<&'static str, u32> {
    let mut e = Engine::new();
    for id in ids {
        e.add_window(*id, "window");
    }
    e
}

#[test]
fn engine_add_and_remove_layer() {
    let mut e = engine_with(&[1, 2]);
    let c: TestCommand = Command::AddRenderLayer(2, 10);
    assert!(matches!(e.run_command(c), Outcome::Done));
    let c: TestCommand = Command::AddRenderLayer(2, 11);
    e.run_command(c);
    assert_eq!(e.windows[1].layers, vec![10, 11]);
    assert!(e.windows[0].layers.is_empty());
    let c: TestCommand = Command::RemoveRenderLayer(2, 0);
    assert!(matches!(e.run_command(c), Outcome::Done));
    assert_eq!(e.windows[1].layers, vec![11]);
}

#[test]
fn engine_unknown_window_changes_nothing() {
    let mut e = engine_with(&[1]);
    let c: TestCommand = Command::AddRenderLayer(9, 10);
    assert!(matches!(e.run_command(c), Outcome::Done));
    assert!(e.windows[0].layers.is_empty());
    let c: TestCommand = Command::RemoveRenderLayer(9, 4);
    assert!(matches!(e.run_command(c), Outcome::Done));
}

#[test]
fn engine_first_matching_window_wins() {
    let mut e = engine_with(&[3, 3]);
    let c: TestCommand = Command::AddRenderLayer(3, 5);
    e.run_command(c);
    assert_eq!(e.windows[0].layers, vec![5]);
    assert!(e.windows[1].layers.is_empty());
    assert_eq!(e.find_window(3), Some(0));
    assert_eq!(e.find_window(4), None);
}

#[test]
fn engine_modify_layer_outcome() {
    let mut e = engine_with(&[1, 2]);
    let c: TestCommand = Command::AddRenderLayer(2, 10);
    e.run_command(c);
    let c: TestCommand = Command::ModifyRenderLayer(2, 0, 42);
    assert!(matches!(e.run_command(c), Outcome::ModifyLayer(1, 0, 42)));
    let c: TestCommand = Command::ModifyRenderLayer(2, 1, 42);
    assert!(matches!(e.run_command(c), Outcome::Done));
    let c: TestCommand = Command::ModifyRenderLayer(5, 0, 42);
    assert!(matches!(e.run_command(c), Outcome::Done));
}

#[test]
fn engine_clone_is_delivered_to_target() {
    let mut e = engine_with(&[1, 2]);
    let c: TestCommand = Command::AddRenderLayer(1, 77);
    e.run_command(c);
    let c: TestCommand = Command::GetRenderLayerClone(1, 0, 2);
    assert!(matches!(e.run_command(c), Outcome::Done));
    assert_eq!(e.windows[1].requests.len(), 1);
    assert!(matches!(e.windows[1].requests[0], Request::RenderLayerClone(77)));
    assert!(e.windows[0].requests.is_empty());
    let c: TestCommand = Command::GetRenderLayerClone(1, 3, 2);
    e.run_command(c);
    let c: TestCommand = Command::GetRenderLayerClone(1, 0, 9);
    e.run_command(c);
    assert_eq!(e.windows[1].requests.len(), 1);
}

#[test]
fn engine_close_window_despawns_all_and_drops_target() {
    let mut e = engine_with(&[1, 2, 1]);
    let c: TestCommand = Command::CloseWindow(1);
    assert!(matches!(e.run_command(c), Outcome::Done));
    assert_eq!(e.windows.len(), 1);
    assert_eq!(e.windows[0].window_id, 2);
    assert!(e.windows[0].should_despawn);
    let c: TestCommand = Command::CloseWindow(2);
    assert!(matches!(e.run_command(c), Outcome::AllWindowsClosed));
    assert!(e.windows.is_empty());
}

#[test]
fn engine_close_unknown_window_still_despawns() {
    let mut e = engine_with(&[1]);
    let c: TestCommand = Command::CloseWindow(5);
    assert!(matches!(e.run_command(c), Outcome::Done));
    assert_eq!(e.windows.len(), 1);
    assert!(e.windows[0].should_despawn);
}

#[test]
fn engine_exit_and_new_window() {
    let mut e = engine_with(&[1]);
    let c: TestCommand = Command::Exit;
    assert!(matches!(e.run_command(c), Outcome::ExitLoop));
    let c: TestCommand = Command::NewWindow("handler", 3);
    assert!(matches!(e.run_command(c), Outcome::StartWindow("handler", 3)));
    assert_eq!(e.windows.len(), 1);
    e.add_window(4, "second");
    assert_eq!(e.windows[1].window_id, 4);
    assert!(!e.windows[1].should_despawn);
}
