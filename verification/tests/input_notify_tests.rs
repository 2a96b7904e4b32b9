use zelland::mouse::{mouse_event_plan, process_mouse, MouseAction, MouseButton, MouseEventPlan};
use zelland::notifications::{agent_event, alert_body, notify_request_from_env, parse_u32, trigger_notify, trigger_url};
use zelland::projects::{NotificationSource, NotifyRequest};

fn plan(action: MouseAction, button: Option<MouseButton>) -> MouseEventPlan {
    MouseEventPlan { action, button }
}

#[test]
fn test_mouse_event_plans() {
    assert_eq!(mouse_event_plan("click"), plan(MouseAction::Press, Some(MouseButton::Left)));
    assert_eq!(mouse_event_plan("release"), plan(MouseAction::Release, Some(MouseButton::Left)));
    assert_eq!(mouse_event_plan("right_click"), plan(MouseAction::Press, Some(MouseButton::Right)));
    assert_eq!(mouse_event_plan("scroll_up"), plan(MouseAction::Press, Some(MouseButton::Four)));
    assert_eq!(mouse_event_plan("release_scroll_down"), plan(MouseAction::Release, Some(MouseButton::Five)));
    assert_eq!(mouse_event_plan("drag"), plan(MouseAction::Press, None));
}

#[test]
fn test_process_mouse_gestures() {
    assert!(process_mouse("click", false).is_empty());
    assert_eq!(
        process_mouse("scroll_up", true),
        vec![plan(MouseAction::Press, Some(MouseButton::Four)), plan(MouseAction::Release, Some(MouseButton::Four))]
    );
    assert_eq!(
        process_mouse("scroll_down", true),
        vec![plan(MouseAction::Press, Some(MouseButton::Five)), plan(MouseAction::Release, Some(MouseButton::Five))]
    );
    assert_eq!(
        process_mouse("click", true),
        vec![plan(MouseAction::Press, Some(MouseButton::Left)), plan(MouseAction::Release, Some(MouseButton::Left))]
    );
    assert_eq!(process_mouse("right_click", true), vec![plan(MouseAction::Press, Some(MouseButton::Right))]);
}

fn request(question: Option<&str>, session: Option<&str>, source: Option<&str>) -> NotifyRequest {
    NotifyRequest {
        title: "Build".to_string(),
        body: "Tests finished".to_string(),
        question: question.map(|s| s.to_string()),
        session_name: session.map(|s| s.to_string()),
        tab_index: Some(2),
        pane_id: None,
        source: source.map(|s| s.to_string()),
    }
}

#[test]
fn test_trigger_notify_builds_notification() {
    let n = trigger_notify(&request(Some("Deploy now?"), Some("work"), Some("claude_code")));
    assert_eq!(n.title, "Build");
    assert_eq!(n.body, "Tests finished");
    assert_eq!(n.question, "Deploy now?");
    assert_eq!(n.source, NotificationSource::ClaudeCode);
    let t = n.target.as_ref().unwrap();
    assert_eq!(t.session_name, "work");
    assert_eq!(t.tab_index, 2);
    assert_eq!(t.pane_id, 0);
    assert_eq!(alert_body(&n), "Deploy now?");

    let ev = agent_event(&n);
    assert_eq!(ev.session_name.as_deref(), Some("work"));
    assert_eq!(ev.tab_index, 2);
    assert_eq!(ev.pane_id, 0);
    assert_eq!(ev.question, "Deploy now?");
}

#[test]
fn test_trigger_notify_without_target_or_question() {
    let n = trigger_notify(&request(None, None, Some("something_else")));
    assert_eq!(n.question, "");
    assert!(n.target.is_none());
    assert_eq!(n.source, NotificationSource::User);
    assert_eq!(alert_body(&n), "Tests finished");
    let ev = agent_event(&n);
    assert_eq!(ev.session_name, None);
    assert_eq!((ev.tab_index, ev.pane_id), (0, 0));
}

#[test]
fn test_notify_request_from_env() {
    let req = notify_request_from_env(
        "Done".to_string(),
        "All green".to_string(),
        Some("Merge?".to_string()),
        "gemini_cli".to_string(),
        Some("work".to_string()),
        Some("3"),
        Some("x7"),
    );
    assert_eq!(req.tab_index, Some(3));
    assert_eq!(req.pane_id, None);
    assert_eq!(req.session_name.as_deref(), Some("work"));
    assert_eq!(req.source.as_deref(), Some("gemini_cli"));
    assert_eq!(trigger_notify(&req).source, NotificationSource::GeminiCli);
    assert_eq!(parse_u32("+42"), Some(42));
    assert_eq!(parse_u32("4294967295"), Some(u32::MAX));
    assert_eq!(parse_u32("4294967296"), None);
    assert_eq!(parse_u32(""), None);
    assert_eq!(trigger_url(8083, "md"), "http://127.0.0.1:8083/api/v1/trigger/md");
}
