use moirai::logging::format_event;
use moirai::logging::LogEvent;
use moirai::logging::Logger;
use moirai::logging::LogLevel;
use moirai::logging::StubLogger;
use moirai::manager::StubTaskManager;
use moirai::manager::TaskManager;
use moirai::queue::TaskDescriptor;

#[test]
fn formats_a_line_with_a_target() {
    let line = format_event(LogLevel::Info, "task admitted", Some("A"));
    assert_eq!(line, "[STUB LOG] INFO [A] task admitted");
}

#[test]
fn formats_a_line_without_a_target() {
    let line = format_event(LogLevel::Warn, "queue full", None);
    assert_eq!(line, "[STUB LOG] WARN queue full");
}

#[test]
fn every_level_has_its_label() {
    assert_eq!(LogLevel::Info.label(), "INFO");
    assert_eq!(LogLevel::Warn.label(), "WARN");
    assert_eq!(LogLevel::Error.label(), "ERROR");
    assert_eq!(LogLevel::Debug.label(), "DEBUG");
    assert_eq!(
        format_event(LogLevel::Error, "task failed", Some("B")),
        "[STUB LOG] ERROR [B] task failed"
    );
    assert_eq!(
        format_event(LogLevel::Debug, "probe", None),
        "[STUB LOG] DEBUG probe"
    );
}

#[test]
fn events_carry_their_parts() {
    let e = LogEvent { level: LogLevel::Info, message: "done".to_string(), target_id: Some("A".to_string()) };
    assert_eq!(e.level, LogLevel::Info);
    assert_eq!(e.message, "done");
    assert_eq!(e.target_id.as_deref(), Some("A"));
}

#[test]
fn stub_sinks_accept_everything() {
    let logger = StubLogger;
    logger.log_event(LogLevel::Info, "hello", Some("A"));
    logger.log_event(LogLevel::Error, "oops", None);
    logger.log_stealth("quiet");

    let manager = StubTaskManager;
    assert!(manager.can_schedule("A", "fetch"));
    manager.record_completion("A", "fetch");
    manager.spawn_task(TaskDescriptor {
        task_id: 0,
        target_id: "A".to_string(),
        task_type: "fetch".to_string(),
        enqueue_time: 0,
    });
}
