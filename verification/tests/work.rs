use tilde::deployment::store::ThreadState;
use tilde::deployment::wire::ChatError;
use tilde::deployment::work::sorted_dependencies;

const G1: &str = "00000000-0000-4000-8000-000000000001";
const T1: &str = "00000000-0000-4000-8000-0000000000a1";
const T2: &str = "00000000-0000-4000-8000-0000000000a2";
const T3: &str = "00000000-0000-4000-8000-0000000000a3";
const C1: &str = "00000000-0000-4000-8000-0000000000c1";

fn invalid<T: std::fmt::Debug>(r: Result<T, ChatError>, m: &str) {
    match r {
        Err(ChatError::Invalid(e)) => assert_eq!(e, m),
        other => panic!("{other:?}"),
    }
}

#[test]
fn dependencies_are_kept_in_order() {
    let deps = vec!["b".to_string(), "c".to_string(), "a".to_string()];
    assert_eq!(sorted_dependencies("x", &deps).unwrap(), vec!["a", "b", "c"]);
    invalid(sorted_dependencies("x", &vec!["a".into(), "b".into(), "a".into()]), "Invalid task dependencies");
    invalid(sorted_dependencies("a", &vec!["a".into()]), "Invalid task dependencies");
    let many: Vec<String> = (0..101).map(|n| format!("{n:03}")).collect();
    invalid(sorted_dependencies("x", &many), "Invalid task dependencies");
    assert_eq!(sorted_dependencies("x", &many[..100].to_vec()).unwrap().len(), 100);
    assert_eq!(sorted_dependencies("x", &vec!["é".into(), "z".into(), "Z".into()]).unwrap(), vec!["Z", "z", "é"]);
}

#[test]
fn goals_are_created_once_and_settle() {
    let mut t = ThreadState::new(0);
    let (g, e) = t.create_goal(true, G1, "ship it", 5).unwrap();
    assert_eq!(g.status, "active");
    assert_eq!(e.unwrap().kind, "goal.updated");
    let (again, e) = t.create_goal(true, G1, "ship it", 6).unwrap();
    assert_eq!(again.objective, "ship it");
    assert!(e.is_none());
    assert!(matches!(t.create_goal(true, G1, "other", 6), Err(ChatError::Conflict)));
    assert!(matches!(t.create_goal(false, G1, "ship it", 6), Err(ChatError::Denied)));
    invalid(t.create_goal(true, "g", "x", 6), "Invalid UUID");
    invalid(t.update_goal(true, G1, "bogus", 7), "Invalid goal status");
    let (done, _) = t.update_goal(true, G1, "completed", 7).unwrap();
    assert_eq!(done.status, "completed");
    assert!(t.update_goal(true, G1, "completed", 8).is_ok());
    assert!(matches!(t.update_goal(true, G1, "active", 8), Err(ChatError::Conflict)));
    assert!(matches!(t.update_goal(true, T1, "active", 8), Err(ChatError::NotFound)));
}

#[test]
fn tasks_wait_for_their_dependencies() {
    let mut t = ThreadState::new(0);
    t.create_goal(true, G1, "ship it", 1).unwrap();
    let (a, _) = t.create_task(true, T1, "first", Some(G1), &vec![], 2).unwrap();
    assert_eq!(a.status, "pending");
    assert!(matches!(t.create_task(true, T2, "second", None, &vec![T3.into()], 3), Err(ChatError::NotFound)));
    invalid(t.create_task(true, T2, "second", None, &vec!["nope".into()], 3), "Invalid UUID");
    assert!(matches!(t.create_task(true, T2, "second", Some(T3), &vec![], 3), Err(ChatError::NotFound)));
    let (b, _) = t.create_task(true, T2, "second", None, &vec![T1.into()], 3).unwrap();
    assert_eq!(b.dependency_ids, vec![T1.to_string()]);
    let (same, e) = t.create_task(true, T2, "second", None, &vec![T1.into()], 4).unwrap();
    assert!(e.is_none());
    assert_eq!(same.title, "second");
    assert!(matches!(t.create_task(true, T2, "renamed", None, &vec![T1.into()], 4), Err(ChatError::Conflict)));
    assert!(matches!(t.update_task(true, T2, "working", "", 5), Err(ChatError::Conflict)));
    let (blocked, _) = t.update_task(true, T2, "blocked", "waiting on first", 5).unwrap();
    assert_eq!(blocked.blocked_reason, "waiting on first");
    t.update_task(true, T1, "completed", "", 6).unwrap();
    let (working, _) = t.update_task(true, T2, "working", "", 7).unwrap();
    assert_eq!(working.status, "working");
    assert!(matches!(t.update_task(true, T1, "working", "", 8), Err(ChatError::Conflict)));
    invalid(t.update_task(true, T1, "done", "", 8), "Invalid task update");
    invalid(t.update_task(true, T1, "blocked", &"x".repeat(16385), 8), "Invalid task update");
    assert_eq!(t.work.tasks.len(), 2);
}

#[test]
fn tool_reports_settle_once() {
    let mut t = ThreadState::new(0);
    assert!(t.report_tool_call(true, C1, "search", "p", "running", "{}", 1).unwrap().is_some());
    assert!(matches!(t.report_tool_call(true, C1, "fetch", "p", "running", "{}", 2), Err(ChatError::Conflict)));
    assert!(t.report_tool_call(true, C1, "search", "p", "completed", "{\"ok\":1}", 2).unwrap().is_some());
    assert!(t.report_tool_call(true, C1, "search", "p", "completed", "{\"ok\":1}", 3).unwrap().is_none());
    assert!(matches!(t.report_tool_call(true, C1, "search", "p", "failed", "{}", 3), Err(ChatError::Conflict)));
    invalid(t.report_tool_call(true, C1, "", "p", "running", "{}", 3), "Invalid tool report");
    invalid(t.report_tool_call(true, "x", "search", "p", "running", "{}", 3), "Invalid UUID");
    assert_eq!(t.work.tool_calls.len(), 1);
    assert_eq!(t.work.tool_calls[0].status, "completed");
}
