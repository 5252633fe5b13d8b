use lumina::{rejection_messages, Dispatch, MainState, Message, Modifiers, Operation, Received, Task, MAX_WORKERS};

fn plain() -> Modifiers {
    Modifiers { command_only: false, shift_only: false }
}

fn burst(state: &mut MainState, n: usize) -> Vec<Dispatch> {
    let mut started = Vec::new();
    for k in 0..n {
        if let Some(d) = state.enqueue(format!("item{}", k), plain()) {
            started.push(d);
        }
    }
    started
}

#[test]
fn burst_fills_slots_then_backlog() {
    let mut state = MainState::new();
    let started = burst(&mut state, MAX_WORKERS + 4);
    assert_eq!(started.len(), MAX_WORKERS);
    assert_eq!(state.tasks.len(), MAX_WORKERS);
    assert_eq!(state.backlog.len(), 4);
    assert_eq!(state.pending_count(), MAX_WORKERS + 4);
    let waiting: Vec<&str> = state.backlog.iter().map(|b| b.path.as_str()).collect();
    assert_eq!(waiting, vec!["item16", "item17", "item18", "item19"]);
    for (k, d) in started.iter().enumerate() {
        assert_eq!(d.path, format!("item{}", k));
    }
}

#[test]
fn small_burst_runs_at_once() {
    let mut state = MainState::new();
    let started = burst(&mut state, 3);
    assert_eq!(started.len(), 3);
    assert_eq!(state.tasks.len(), 3);
    assert!(state.backlog.is_empty());
}

#[test]
fn tick_gathers_messages_and_admits_in_order() {
    let mut state = MainState::new();
    let started = burst(&mut state, MAX_WORKERS + 4);
    started[2].sender.send(vec![Message::Success("two".to_string())]).unwrap();
    started[0]
        .sender
        .send(vec![Message::Success("zero".to_string()), Message::Error("zero bad".to_string())])
        .unwrap();
    started[5].sender.send(vec![]).unwrap();
    let admitted = state.update_backlog();
    assert_eq!(
        state.messages,
        vec![
            Message::Success("zero".to_string()),
            Message::Error("zero bad".to_string()),
            Message::Success("two".to_string()),
        ]
    );
    let paths: Vec<&str> = admitted.iter().map(|d| d.path.as_str()).collect();
    assert_eq!(paths, vec!["item16", "item17", "item18"]);
    assert_eq!(state.tasks.len(), MAX_WORKERS);
    assert_eq!(state.backlog.len(), 1);
    assert_eq!(state.backlog[0].path, "item19");
    assert!(state.tasks.iter().all(|t| !t.done));
    let running: Vec<&str> = state.tasks.iter().map(|t| t.path.as_str()).collect();
    assert!(!running.contains(&"item0"));
    assert!(running.contains(&"item16"));
    drop(started);
}

#[test]
fn tick_without_completions_changes_nothing() {
    let mut state = MainState::new();
    let started = burst(&mut state, MAX_WORKERS + 2);
    let admitted = state.update_backlog();
    assert!(admitted.is_empty());
    assert!(state.messages.is_empty());
    assert_eq!(state.tasks.len(), MAX_WORKERS);
    assert_eq!(state.backlog.len(), 2);
    drop(started);
}

#[test]
fn vanished_worker_reports_abnormal_end() {
    let (sender, receiver) = std::sync::mpsc::channel::<Vec<Message>>();
    let mut task = Task::new("a.bin".to_string(), receiver);
    assert_eq!(task.poll(), None);
    assert!(!task.done);
    drop(sender);
    assert_eq!(task.poll(), Some(vec![Message::Error("Thread panicked.".to_string())]));
    assert!(task.done);
}

#[test]
fn poll_hands_back_the_batch() {
    let (sender, receiver) = std::sync::mpsc::channel::<Vec<Message>>();
    let mut task = Task::new("a.bin".to_string(), receiver);
    sender.send(vec![Message::Success("ok".to_string())]).unwrap();
    assert_eq!(task.poll(), Some(vec![Message::Success("ok".to_string())]));
    assert!(task.done);
    assert_eq!(task.path, "a.bin");
}

#[test]
fn settle_follows_what_was_found() {
    let (_sender, receiver) = std::sync::mpsc::channel::<Vec<Message>>();
    let mut task = Task::new("x".to_string(), receiver);
    assert_eq!(task.settle(Received::Empty), None);
    assert!(!task.done);
    assert_eq!(task.settle(Received::Disconnected), Some(vec![Message::Error("Thread panicked.".to_string())]));
    assert!(task.done);
}

#[test]
fn collect_keeps_unfinished_tasks() {
    let mut state = MainState::new();
    let started = burst(&mut state, 3);
    state.collect(vec![
        Received::Batch(vec![Message::Success("a".to_string())]),
        Received::Empty,
        Received::Disconnected,
    ]);
    assert_eq!(state.tasks.len(), 1);
    assert_eq!(state.tasks[0].path, "item1");
    assert_eq!(
        state.messages,
        vec![Message::Success("a".to_string()), Message::Error("Thread panicked.".to_string())]
    );
    drop(started);
}

#[test]
fn failing_item_does_not_touch_others() {
    let mut state = MainState::new();
    let started = burst(&mut state, 3);
    let failure = rejection_messages(Operation::UnsupportedExtension, "foo.xyz").unwrap();
    assert_eq!(failure.len(), 2);
    assert!(failure.iter().all(|m| matches!(m, Message::Error(_))));
    started[1].sender.send(failure).unwrap();
    started[2].sender.send(vec![Message::Success("fine".to_string())]).unwrap();
    state.update_backlog();
    let mut expected = rejection_messages(Operation::UnsupportedExtension, "foo.xyz").unwrap();
    expected.push(Message::Success("fine".to_string()));
    assert_eq!(state.messages, expected);
    assert_eq!(state.tasks.len(), 1);
    assert_eq!(state.tasks[0].path, "item0");
    drop(started);
}

#[test]
fn backlog_drains_over_ticks() {
    let mut state = MainState::new();
    let mut live = burst(&mut state, MAX_WORKERS + 20);
    let mut order = Vec::new();
    for _ in 0..10 {
        for d in live.drain(..) {
            d.sender.send(vec![]).unwrap();
        }
        for d in state.update_backlog() {
            order.push(d.path.clone());
            live.push(d);
        }
    }
    let expected: Vec<String> = (MAX_WORKERS..MAX_WORKERS + 20).map(|k| format!("item{}", k)).collect();
    assert_eq!(order, expected);
    assert!(state.backlog.is_empty());
}

#[test]
fn clearing_the_log_keeps_the_work() {
    let mut state = MainState::new();
    let started = burst(&mut state, MAX_WORKERS + 1);
    started[0].sender.send(vec![Message::Success("done".to_string())]).unwrap();
    state.update_backlog();
    assert_eq!(state.messages.len(), 1);
    state.clear_messages();
    assert!(state.messages.is_empty());
    assert_eq!(state.tasks.len(), MAX_WORKERS);
    assert!(state.backlog.is_empty());
    drop(started);
}
