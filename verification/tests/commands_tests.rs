use niels1020_graphics_engine::commands::{Command, Commands};

type TestCommands = Commands<u8, u8, u8, u8>;

#[test]
fn commands_append_new() {
    let mut a: TestCommands = Commands::new();
    let mut b: TestCommands = Commands::new();
    b.exit();
    a.append(&mut b);
    assert_eq!(a.queue.len(), 1);
    assert_eq!(b.queue.len(), 0);
}

#[test]
fn commands_queue_in_order() {
    let mut c: TestCommands = Commands::new();
    c.close_window(7);
    c.new_window(1, 2);
    c.add_render_layer(7, 3);
    c.remove_render_layer(7, 0);
    c.modify_render_layer(7, 1, 9);
    c.get_render_layer_clone(7, 2, 8);
    assert_eq!(c.queue.len(), 6);
    assert!(matches!(c.next_command(), Some(Command::CloseWindow(7))));
    assert!(matches!(c.next_command(), Some(Command::NewWindow(1, 2))));
    assert!(matches!(c.next_command(), Some(Command::AddRenderLayer(7, 3))));
    assert!(matches!(c.next_command(), Some(Command::RemoveRenderLayer(7, 0))));
    assert!(matches!(c.next_command(), Some(Command::ModifyRenderLayer(7, 1, 9))));
    assert!(matches!(c.next_command(), Some(Command::GetRenderLayerClone(7, 2, 8))));
    assert!(c.next_command().is_none());
}

#[test]
fn commands_append_keeps_order() {
    let mut a: TestCommands = Commands::new();
    let mut b: TestCommands = Commands::new();
    a.close_window(1);
    b.close_window(2);
    b.exit();
    a.append(&mut b);
    assert!(matches!(a.queue[0], Command::CloseWindow(1)));
    assert!(matches!(a.queue[1], Command::CloseWindow(2)));
    assert!(matches!(a.queue[2], Command::Exit));
    assert!(b.queue.is_empty());
}
