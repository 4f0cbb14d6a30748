//! Names of the reasoning efforts, and the defaults of the canonical request.

use ai_api_bridge::canonical::{ReasoningEffort, ToolChoice};

#[test]
fn reasoning_effort_roundtrip() {
    assert_eq!(ReasoningEffort::from_str_opt("xhigh"), Some(ReasoningEffort::XHigh));
    assert_eq!(ReasoningEffort::XHigh.as_str(), "xhigh");
    assert_eq!(ReasoningEffort::from_str_opt("bogus"), None);
}

#[test]
fn every_effort_is_read_back_from_its_name() {
    let efforts = [
        (ReasoningEffort::Minimal, "minimal"),
        (ReasoningEffort::Low, "low"),
        (ReasoningEffort::Medium, "medium"),
        (ReasoningEffort::High, "high"),
        (ReasoningEffort::XHigh, "xhigh"),
    ];
    for (effort, name) in efforts {
        assert_eq!(effort.as_str(), name);
        assert_eq!(ReasoningEffort::from_str_opt(name), Some(effort));
    }
    assert_eq!(ReasoningEffort::from_str_opt("High"), None);
    assert_eq!(ReasoningEffort::from_str_opt(""), None);
}

#[test]
fn tool_choice_default_is_auto() {
    assert_eq!(ToolChoice::default(), ToolChoice::Auto);
}
