//! The agent loop's parts: agents, loop detection, stop reasons and prompts.

use octane::engine::loop_guard::{signature_of, LoopGuard};
use octane::engine::prompt::{mode_switch_notice, sorted_tools, PromptAssembler, ToolSchema};
use octane::engine::{Agent, StopReason};
use octane::permission::{Decision, Resource};
use octane::protocol::{Message, Part, Role};

#[test]
fn empty_allow_list_means_everything() {
    assert!(Agent::build().permits_tool("bash"));
    assert!(Agent::build().permits_tool("anything"));
}

#[test]
fn explore_is_restricted_to_read_only_tools() {
    let explore = Agent::explore();
    assert!(explore.permits_tool("grep"));
    assert!(!explore.permits_tool("write"));
    assert!(!explore.permits_tool("bash"));
}

#[test]
fn plan_restricts_by_mode_so_new_tools_are_covered() {
    let plan = Agent::plan();
    // The tool list is open...
    assert!(plan.permits_tool("some_future_mutating_tool"));
    // ...but the mode denies mutation regardless.
    assert_eq!(
        plan.mode.force(&Resource::write_file("/p/f")),
        Some(Decision::Deny)
    );
}

#[test]
fn agent_subagents_cannot_delegate_further() {
    assert!(Agent::build().can_delegate());
    assert!(Agent::plan().can_delegate());
    assert!(!Agent::explore().can_delegate());
}

fn call(tool: &str, input: &str, output: &str) -> Vec<(String, String, String)> {
    vec![(tool.into(), input.into(), output.into())]
}

#[test]
fn quiet_until_the_window_is_full() {
    let mut guard = LoopGuard::new(10, 5);
    for _ in 0..9 {
        guard.record(&call("read", "a.rs", "contents"));
    }
    // Nine identical steps, but the window is not yet full.
    assert!(guard.detect().is_none());
}

#[test]
fn detects_a_stuck_repeat() {
    let mut guard = LoopGuard::new(10, 5);
    for _ in 0..10 {
        guard.record(&call("read", "a.rs", "contents"));
    }
    let (_, repeats) = guard.detect().expect("should detect a loop");
    assert!(repeats > 5);
}

#[test]
fn changing_output_is_progress_not_a_loop() {
    let mut guard = LoopGuard::new(10, 5);
    // Polling a build: same call, different output each time.
    for i in 0..10 {
        guard.record(&call("bash", "cargo build", &format!("compiling crate {i}")));
    }
    assert!(guard.detect().is_none(), "identical calls with differing output are progress");
}

#[test]
fn varied_work_is_not_a_loop() {
    let mut guard = LoopGuard::new(10, 5);
    for i in 0..10 {
        guard.record(&call("read", &format!("file{i}.rs"), "contents"));
    }
    assert!(guard.detect().is_none());
}

#[test]
fn parallel_call_order_does_not_matter() {
    let forward = vec![
        ("read".to_string(), "a".to_string(), "x".to_string()),
        ("read".to_string(), "b".to_string(), "y".to_string()),
    ];
    let reversed: Vec<_> = forward.iter().rev().cloned().collect();
    assert_eq!(signature_of(&forward), signature_of(&reversed));
}

#[test]
fn reasoning_only_steps_do_not_fill_the_window() {
    let mut guard = LoopGuard::new(10, 5);
    for _ in 0..20 {
        guard.record(&[]);
    }
    assert!(guard.detect().is_none());
}

#[test]
fn reset_clears_history() {
    let mut guard = LoopGuard::new(10, 5);
    for _ in 0..10 {
        guard.record(&call("read", "a.rs", "contents"));
    }
    assert!(guard.detect().is_some());
    guard.reset();
    assert!(guard.detect().is_none());
}

#[test]
fn only_completion_counts_as_success() {
    assert!(StopReason::Completed.is_success());
    assert!(!StopReason::StepLimit { limit: 10 }.is_success());
    assert!(!StopReason::Interrupted.is_success());
    assert!(!StopReason::OutputTruncated.is_success());
}

#[test]
fn summaries_name_the_cause() {
    assert!(StopReason::Denied { resource: "command(rm)".into() }.summary().contains("command(rm)"));
    assert!(
        StopReason::LoopDetected { signature: "s".into(), repeats: 6 }
            .summary()
            .contains('6')
    );
}

/// Server guidance must land in the cached prefix and behind project memory.
///
/// In front of it, a third-party server would read as outranking the
/// project's own instructions; outside the preamble, it would sit in the
/// history where compaction can drop it.
#[test]
fn mcp_instructions_ride_in_the_preamble_after_memory() {
    let assembler = PromptAssembler::new("base")
        .memory("project rules")
        .mcp_instructions("<mcp-server-instructions server=\"x\" trust=\"third-party\">hi</mcp-server-instructions>");

    let messages = assembler.assemble(&[], None);
    assert_eq!(messages.len(), assembler.preamble_len(), "preamble_len must match");

    let memory =
        messages.iter().position(|m| m.text_content().contains("project rules")).unwrap();
    let mcp = messages
        .iter()
        .position(|m| m.text_content().contains("mcp-server-instructions"))
        .unwrap();
    assert!(mcp > memory, "server guidance must not precede project memory");
    assert_eq!(messages[mcp].role, Role::Developer, "it is context, never a system rule");
}

/// No servers, no message — and critically, no change to `preamble_len`, or
/// every existing session's cached prefix would shift by one.
#[test]
fn no_servers_adds_nothing_to_the_prefix() {
    let bare = PromptAssembler::new("base");
    let empty = PromptAssembler::new("base").mcp_instructions("   ");
    assert_eq!(bare.preamble_len(), empty.preamble_len());
    assert_eq!(bare.assemble(&[], None).len(), empty.assemble(&[], None).len());
}

fn assembler() -> PromptAssembler {
    PromptAssembler::new("You are octane.")
        .sandbox("Writes are limited to the workspace.")
        .skills("- pdf: handle PDFs")
        .memory("<instructions>Use tabs.</instructions>")
        .environment("cwd: /proj")
}

#[test]
fn system_instructions_come_first() {
    let messages = assembler().assemble(&[], None);
    assert_eq!(messages[0].role, Role::System);
    assert_eq!(messages[0].text_content(), "You are octane.");
}

#[test]
fn static_layers_precede_dynamic_ones() {
    let messages = assembler().assemble(&[], None);
    let text: Vec<String> = messages.iter().map(Message::text_content).collect();

    let sandbox = text.iter().position(|t| t.contains("Writes are limited")).unwrap();
    let environment = text.iter().position(|t| t.contains("cwd:")).unwrap();
    // Environment changes more often than the sandbox description, so it must
    // sit later in the prefix.
    assert!(sandbox < environment);
}

#[test]
fn prefix_is_identical_across_turns() {
    let assembler = assembler();

    let turn_one = assembler.assemble(&[], Some(Message::text(Role::User, "first")));

    // `history` is conversation-only. `assemble` output is *not* history: it
    // includes the preamble, and feeding it back would duplicate it.
    let conversation = vec![
        Message::text(Role::User, "first"),
        Message::text(Role::Assistant, "reply"),
    ];
    let turn_two =
        assembler.assemble(&conversation, Some(Message::text(Role::User, "second")));

    // Everything from turn one must reappear byte-identically at the front of
    // turn two, or the prefix cache misses and cost goes quadratic.
    assert_eq!(&turn_two[..turn_one.len()], &turn_one[..]);
}

#[test]
fn history_order_is_preserved() {
    let history = vec![
        Message::text(Role::User, "a"),
        Message::text(Role::Assistant, "b"),
        Message::text(Role::User, "c"),
    ];
    let messages = assembler().assemble(&history, None);
    let tail = &messages[messages.len() - 3..];
    assert_eq!(tail, &history[..]);
}

#[test]
fn change_notices_append_rather_than_edit() {
    let mut history = vec![Message::text(Role::User, "original")];
    let before = history[0].clone();

    PromptAssembler::append_change_notice(&mut history, "cwd changed");

    // The existing message is untouched; the notice is at the end.
    assert_eq!(history[0], before);
    assert_eq!(history.len(), 2);
    assert!(matches!(history[1].parts[0], Part::Synthetic { .. }));
}

#[test]
fn tools_sort_by_name() {
    let schema = |name: &str| ToolSchema {
        name: name.into(),
        description: String::new(),
        input_schema: "null".to_string(),
    };
    let sorted = sorted_tools(vec![schema("write"), schema("bash"), schema("read")]);
    let names: Vec<&str> = sorted.iter().map(|t| t.name.as_str()).collect();
    assert_eq!(names, vec!["bash", "read", "write"]);
}

#[test]
fn mode_switch_notice_names_both_modes() {
    let notice = mode_switch_notice("plan", "build");
    assert!(notice.contains("plan"));
    assert!(notice.contains("build"));
    assert!(notice.contains("system-reminder"));
}

#[test]
fn a_signature_is_sixteen_hexadecimal_digits() {
    // FNV-1a of "a\0b\0c".
    let one = vec![("a".to_string(), "b".to_string(), "c".to_string())];
    let mut hash: u64 = 0xcbf2_9ce4_8422_2325;
    for byte in "a\u{0}b\u{0}c".bytes() {
        hash = (hash ^ u64::from(byte)).wrapping_mul(0x100_0000_01b3);
    }
    assert_eq!(signature_of(&one), format!("{hash:016x}"));
}

#[test]
fn old_steps_leave_the_window() {
    let mut guard = LoopGuard::new(3, 1);
    guard.record(&call("a", "", ""));
    guard.record(&call("a", "", ""));
    guard.record(&call("b", "", ""));
    assert_eq!(guard.detect().unwrap().1, 2);
    guard.record(&call("c", "", ""));
    assert!(guard.detect().is_none());
}

#[test]
fn every_stop_reason_has_its_line() {
    assert_eq!(StopReason::Completed.summary(), "done");
    assert_eq!(StopReason::StepLimit { limit: 10 }.summary(), "stopped after 10 steps");
    assert_eq!(
        StopReason::LoopDetected { signature: "s".into(), repeats: 6 }.summary(),
        "stopped: same action repeated 6 times without progress"
    );
    assert_eq!(StopReason::Interrupted.summary(), "interrupted");
    assert_eq!(
        StopReason::OutputTruncated.summary(),
        "stopped: response hit the output limit"
    );
    assert_eq!(StopReason::Failed { message: "x".into() }.summary(), "failed: x");
}

#[test]
fn a_mode_switch_is_told_word_for_word() {
    assert_eq!(
        mode_switch_notice("plan", "default"),
        "<system-reminder>\nYour operational mode changed from plan to default.\nThe tools and \
         permissions available to you have changed accordingly.\n</system-reminder>"
    );
}

#[test]
fn every_id_holds_a_uuid_of_version_seven() {
    let ids = [
        octane::protocol::ThreadId::new().as_str().to_string(),
        octane::protocol::TurnId::new().as_str().to_string(),
        octane::protocol::ItemId::new().as_str().to_string(),
        octane::protocol::ToolCallId::new().as_str().to_string(),
        octane::protocol::SessionId::new().as_str().to_string(),
    ];
    for id in ids {
        let (_, digits) = id.split_once('_').unwrap();
        assert_eq!(digits.len(), 32);
        assert_eq!(digits.as_bytes()[12], b'7');
        assert!(b"89ab".contains(&digits.as_bytes()[16]));
    }
}
