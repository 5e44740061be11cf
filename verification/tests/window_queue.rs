use pandora_core::window_queue::WindowQueue;

#[test]
fn messages_wait_for_the_window_in_order() {
    let mut queue = WindowQueue::new();
    assert!(!queue.window_open());
    assert_eq!(queue.route("accounts"), None);
    assert_eq!(queue.route("instances"), None);
    assert_eq!(queue.route("notification"), None);
    assert_eq!(queue.waiting_len(), 3);
    assert_eq!(queue.open_window(), vec!["accounts", "instances", "notification"]);
    assert!(queue.window_open());
    assert_eq!(queue.waiting_len(), 0);
}

#[test]
fn messages_pass_once_the_window_is_open() {
    let mut queue = WindowQueue::new();
    assert_eq!(queue.open_window(), Vec::<u32>::new());
    assert_eq!(queue.route(7), Some(7));
    assert_eq!(queue.route(8), Some(8));
    assert_eq!(queue.waiting_len(), 0);
    assert_eq!(queue.open_window(), Vec::<u32>::new());
}
