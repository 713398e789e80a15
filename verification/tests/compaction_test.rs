use swal_agent::compaction::{compact, should_compact};
use swal_agent::provider::Message;

fn msg(role: &str, content: &str) -> Message {
    Message {
        role: role.to_string(),
        content: content.to_string(),
    }
}

#[test]
fn test_should_compact_boundary() {
    // max_tokens = 10, so threshold is 40 characters
    let max_tokens = 10;

    let msg_short = vec![
        msg("system", "1234567890"),
        msg("user", "1234567890123456789"),
        msg("assistant", "1234567890"),
    ];
    assert_eq!(msg_short.iter().map(|m| m.content.len()).sum::<usize>(), 39);
    assert!(!should_compact(&msg_short, max_tokens));

    let msg_boundary = vec![
        msg("system", "1234567890"),
        msg("user", "12345678901234567890"),
        msg("assistant", "1234567890"),
    ];
    assert_eq!(msg_boundary.iter().map(|m| m.content.len()).sum::<usize>(), 40);
    assert!(!should_compact(&msg_boundary, max_tokens));

    let msg_long = vec![
        msg("system", "1234567890"),
        msg("user", "123456789012345678901"),
        msg("assistant", "1234567890"),
    ];
    assert_eq!(msg_long.iter().map(|m| m.content.len()).sum::<usize>(), 41);
    assert!(should_compact(&msg_long, max_tokens));
}

#[test]
fn test_compact_short_list() {
    let max_tokens = 10;
    let messages = vec![msg("system", "System prompt"), msg("user", "Hello")];
    let result = compact(&messages, max_tokens);
    assert_eq!(result, messages);
}

#[test]
fn test_compact_long_list() {
    let max_tokens = 25; // threshold = 100 chars
    let messages = vec![
        msg("system", "System prompt here"),
        msg("user", "Very long message indeed that contains a huge amount of text, definitely exceeding any reasonable short limit and triggering compaction properly."),
        msg("assistant", "Brief response"),
    ];
    let total_orig_chars: usize = messages.iter().map(|m| m.content.len()).sum();
    assert!(total_orig_chars > max_tokens * 4);

    let compacted = compact(&messages, max_tokens);
    assert_eq!(compacted[0].role, "system");
    assert_eq!(compacted[0].content, "System prompt here");
    assert_eq!(compacted[1].role, "system");
    assert!(compacted[1].content.contains("compacted"));
    let total_compacted_chars: usize = compacted.iter().map(|m| m.content.len()).sum();
    assert!(total_compacted_chars < total_orig_chars);
}

#[test]
fn compact_keeps_last_message_that_fits_exactly() {
    // threshold 100: prompt 18 + marker "[compacted: kept last 1 of 3 messages]" (38) + 14 = 70
    let messages = vec![
        msg("system", "System prompt here"),
        msg("user", &"x".repeat(151)),
        msg("assistant", "Brief response"),
    ];
    let compacted = compact(&messages, 25);
    assert_eq!(compacted.len(), 3);
    assert_eq!(compacted[1].content, "[compacted: kept last 1 of 3 messages]");
    assert_eq!(compacted[2].content, "Brief response");
}

#[test]
fn compact_keeps_one_message_when_not_even_the_marker_fits() {
    // budget 20: the marker alone is 38 bytes
    let messages = vec![msg("user", &"a".repeat(50)), msg("user", &"b".repeat(60))];
    let compacted = compact(&messages, 5);
    assert_eq!(compacted.len(), 2);
    assert_eq!(compacted[0].role, "system");
    assert_eq!(compacted[0].content, "[compacted: kept last 1 of 2 messages]");
    assert_eq!(compacted[1].content, "b".repeat(60));
    let single = vec![msg("user", "abcde")];
    let compacted = compact(&single, 1);
    assert_eq!(compacted.len(), 2);
    assert_eq!(compacted[0].content, "[compacted: kept last 1 of 1 messages]");
    assert_eq!(compacted[1].content, "abcde");
    let only_prompt = vec![msg("system", &"s".repeat(100))];
    let compacted = compact(&only_prompt, 1);
    assert_eq!(compacted.len(), 2);
    assert_eq!(compacted[1].content, "[compacted: kept last 0 of 1 messages]");
}

#[test]
fn compact_stays_within_budget_when_marker_fits() {
    // budget 40: the marker for zero messages is 38 bytes, no message fits beside it
    let messages = vec![msg("user", &"a".repeat(50)), msg("user", &"b".repeat(60))];
    let compacted = compact(&messages, 10);
    let total: usize = compacted.iter().map(|m| m.content.len()).sum();
    assert!(total <= 40);
    assert_eq!(compacted.len(), 1);
    assert_eq!(compacted[0].content, "[compacted: kept last 0 of 2 messages]");
}

#[test]
fn compact_counts_bytes_not_characters() {
    // "é" is two bytes: 25 of them are 50 bytes, above a budget of 48
    let messages = vec![msg("user", &"é".repeat(25))];
    assert!(should_compact(&messages, 12));
    assert!(!should_compact(&messages, 13));
}
