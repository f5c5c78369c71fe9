use wikipedia_sz_bot::server::{on_request, outcome_reply, parse_port, Reply, Trigger, DEFAULT_PORT};
use wikipedia_sz_bot::tasks::{patience, Schedule, Task};

#[test]
fn parses_valid_port() {
    assert_eq!(parse_port(Some("9000".to_string())), 9000);
}

#[test]
fn ignores_invalid_port() {
    assert_eq!(parse_port(Some("not-a-port".to_string())), DEFAULT_PORT);
}

#[test]
fn falls_back_to_default_port() {
    assert_eq!(parse_port(None), DEFAULT_PORT);
}

#[test]
fn reads_ports_as_integers_of_two_bytes() {
    assert_eq!(DEFAULT_PORT, 8080);
    assert_eq!(parse_port(Some("0".to_string())), 0);
    assert_eq!(parse_port(Some("65535".to_string())), 65535);
    assert_eq!(parse_port(Some("65536".to_string())), DEFAULT_PORT);
    assert_eq!(parse_port(Some("+80".to_string())), 80);
    assert_eq!(parse_port(Some("0080".to_string())), 80);
    assert_eq!(parse_port(Some(" 80".to_string())), DEFAULT_PORT);
    assert_eq!(parse_port(Some("-1".to_string())), DEFAULT_PORT);
    assert_eq!(parse_port(Some("+".to_string())), DEFAULT_PORT);
    assert_eq!(parse_port(Some(String::new())), DEFAULT_PORT);
}

#[test]
fn triggers_batch_tasks() {
    assert_eq!(on_request("templatedata"), Trigger::Run(Task::Templatedata));
    assert_eq!(on_request("ill"), Trigger::Run(Task::Ill));
}

#[test]
fn rejects_resident_tasks() {
    let expected = Reply {
        status: 400,
        body: "recentchanges: runs continuously".to_string(),
    };
    assert_eq!(on_request("recentchanges"), Trigger::Reject(expected));
}

#[test]
fn rejects_unknown_tasks() {
    for name in ["", "Ill", "templatedata ", "other"] {
        let expected = Reply {
            status: 404,
            body: format!("unknown task: {name}"),
        };
        assert_eq!(on_request(name), Trigger::Reject(expected));
    }
}

#[test]
fn reports_outcomes() {
    let done = outcome_reply("ill", None);
    assert_eq!((done.status, done.body.as_str()), (200, "ill: done"));
    let failed = outcome_reply("ill", Some("no network"));
    assert_eq!((failed.status, failed.body.as_str()), (500, "ill: no network"));
}

#[test]
fn finds_tasks_by_name() {
    for task in Task::all() {
        assert_eq!(Task::from_name(task.name()), Some(task));
    }
    assert_eq!(Task::all().len(), 3);
    assert_eq!(Task::from_name("nothing"), None);
}

#[test]
fn a_dry_run_waits_for_every_task() {
    assert_eq!(patience(true), None);
    assert_eq!(patience(false), Some(30));
}

#[test]
fn schedules_tasks() {
    assert_eq!(Task::Templatedata.interval(), Some(48 * 3600));
    assert_eq!(Task::Ill.interval(), Some(7 * 24 * 3600));
    assert_eq!(Task::Recentchanges.interval(), None);
    assert!(Task::Recentchanges.is_resident());
    assert!(!Task::Ill.is_resident());
    assert_eq!(Task::Ill.schedule(false), Schedule::Every(604_800));
    assert_eq!(Task::Ill.schedule(true), Schedule::Once);
    assert_eq!(Task::Templatedata.schedule(false), Schedule::Every(172_800));
    assert_eq!(Task::Recentchanges.schedule(false), Schedule::Once);
}
