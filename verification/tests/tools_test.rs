use swal_agent::json::{object1, JsonValue};
use swal_agent::sched::{interval_millis, subagent_id, Scheduler, ScheduledTask};
use swal_agent::tools::{sorted_names, EchoTool, ReadFileTool, ToolError, ToolTable};

#[test]
fn echo_tool_echoes_text() {
    let out = EchoTool.execute(&object1("text", JsonValue::string("hi"))).unwrap();
    assert_eq!(out.get("text").and_then(|v| v.as_str()).map(|s| s.as_str()), Some("hi"));
    let out = EchoTool.execute(&JsonValue::Null).unwrap();
    assert_eq!(out.get("text").and_then(|v| v.as_str()).map(|s| s.as_str()), Some(""));
    assert_eq!(EchoTool.name(), "echo");
}

#[test]
fn read_file_tool_arguments() {
    let t = ReadFileTool;
    assert_eq!(t.path_arg(&object1("path", JsonValue::string("a.txt"))).unwrap(), "a.txt");
    assert_eq!(t.path_arg(&JsonValue::Null).unwrap_err(), ToolError::Execution("Missing 'path' parameter".to_string()));
    let err = t.finish("a.txt", Err("denied".to_string())).unwrap_err();
    assert_eq!(err.to_string(), "Execution error: Failed to read file 'a.txt': denied");
    let ok = t.finish("a.txt", Ok("text".to_string())).unwrap();
    assert_eq!(ok.get("content").and_then(|v| v.as_str()).map(|s| s.as_str()), Some("text"));
}

#[test]
fn registry_names_sorted() {
    let names = vec!["echo".to_string(), "adder".to_string(), "Zed".to_string(), "echo".to_string()];
    assert_eq!(sorted_names(names), vec!["Zed".to_string(), "adder".to_string(), "echo".to_string(), "echo".to_string()]);
    assert_eq!(ToolError::NotFound("subtractor".to_string()).to_string(), "Tool not found: subtractor");
    assert_eq!(ToolError::Serialization("x".to_string()).to_string(), "Serialization error: x");
}

#[test]
fn test_scheduler_add_task_seconds() {
    let mut scheduler = Scheduler::new(());
    scheduler.add_task("seconds-task".to_string(), 1, "test-prompt".to_string());
    assert_eq!(scheduler.tasks.len(), 1);
    assert_eq!(scheduler.tasks[0].cron_expr, "1");
    assert_eq!(scheduler.tasks[0], ScheduledTask { name: "seconds-task".to_string(), cron_expr: "1".to_string(), prompt: "test-prompt".to_string() });
}

#[test]
fn scheduler_intervals() {
    assert_eq!(interval_millis("50ms"), Some(50));
    assert_eq!(interval_millis("5msms"), Some(5));
    assert_eq!(interval_millis("xms"), Some(1000));
    assert_eq!(interval_millis("5"), None);
    assert_eq!(subagent_id(3), "subagent-3");
}

#[test]
fn sorted_names_of_distinct_tools_strictly_increase() {
    let names = vec!["echo".to_string(), "read_file".to_string(), "adder".to_string()];
    let sorted = sorted_names(names);
    assert_eq!(sorted, vec!["adder".to_string(), "echo".to_string(), "read_file".to_string()]);
    assert!(sorted.windows(2).all(|w| w[0] < w[1]));
}

#[test]
fn tool_table_lists_each_registered_name_once() {
    let mut table: ToolTable<u32> = ToolTable::new();
    assert!(table.list().is_empty());
    table.register("echo".to_string(), 1);
    table.register("adder".to_string(), 2);
    table.register("echo".to_string(), 3);
    assert_eq!(table.list(), vec!["adder".to_string(), "echo".to_string()]);
    assert_eq!(table.get("echo"), Some(&3));
    assert_eq!(table.get("adder"), Some(&2));
    assert_eq!(table.get("missing"), None);
}
