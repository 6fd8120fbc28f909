use icalendar::{Component, EventLike};
use ical_merge::config::{CaseTransform, MatchMode, Step};
use ical_merge::ical::Event;
use ical_merge::steps::{apply_steps, process_events, CompiledStep, StepResult};

fn create_event(summary: &str, description: Option<&str>) -> Event {
    let mut event = icalendar::Event::new();
    event.summary(summary);
    if let Some(desc) = description {
        event.description(desc);
    }
    Event::new(event)
}

fn create_event_with_location(
    summary: &str,
    description: Option<&str>,
    location: Option<&str>,
) -> Event {
    let mut event = icalendar::Event::new();
    event.summary(summary);
    if let Some(desc) = description {
        event.description(desc);
    }
    if let Some(loc) = location {
        event.location(loc);
    }
    Event::new(event)
}

#[test]
fn test_allow_step_any_mode() {
    let step = Step::Allow {
        patterns: vec!["(?i)meeting".to_string(), "(?i)standup".to_string()],
        mode: MatchMode::Any,
        fields: vec!["summary".to_string()],
    };
    let compiled = CompiledStep::compile(&step).unwrap();

    let mut event1 = create_event("Meeting with team", None);
    assert_eq!(compiled.apply(&mut event1), StepResult::Keep);

    let mut event2 = create_event("Daily standup", None);
    assert_eq!(compiled.apply(&mut event2), StepResult::Keep);

    let mut event3 = create_event("Lunch", None);
    assert_eq!(compiled.apply(&mut event3), StepResult::Reject);
}

#[test]
fn test_allow_step_all_mode() {
    let step = Step::Allow {
        patterns: vec!["(?i)important".to_string(), "(?i)meeting".to_string()],
        mode: MatchMode::All,
        fields: vec!["summary".to_string()],
    };
    let compiled = CompiledStep::compile(&step).unwrap();

    let mut event1 = create_event("Important meeting", None);
    assert_eq!(compiled.apply(&mut event1), StepResult::Keep);

    let mut event2 = create_event("Important discussion", None);
    assert_eq!(compiled.apply(&mut event2), StepResult::Reject);

    let mut event3 = create_event("Regular meeting", None);
    assert_eq!(compiled.apply(&mut event3), StepResult::Reject);
}

#[test]
fn test_deny_step_any_mode() {
    let step = Step::Deny {
        patterns: vec!["(?i)optional".to_string(), "(?i)canceled".to_string()],
        mode: MatchMode::Any,
        fields: vec!["summary".to_string()],
    };
    let compiled = CompiledStep::compile(&step).unwrap();

    let mut event1 = create_event("Optional meeting", None);
    assert_eq!(compiled.apply(&mut event1), StepResult::Reject);

    let mut event2 = create_event("Canceled event", None);
    assert_eq!(compiled.apply(&mut event2), StepResult::Reject);

    let mut event3 = create_event("Regular meeting", None);
    assert_eq!(compiled.apply(&mut event3), StepResult::Keep);
}

#[test]
fn test_deny_step_all_mode() {
    let step = Step::Deny {
        patterns: vec!["(?i)optional".to_string(), "(?i)meeting".to_string()],
        mode: MatchMode::All,
        fields: vec!["summary".to_string()],
    };
    let compiled = CompiledStep::compile(&step).unwrap();

    let mut event1 = create_event("Optional meeting", None);
    assert_eq!(compiled.apply(&mut event1), StepResult::Reject);

    let mut event2 = create_event("Optional lunch", None);
    assert_eq!(compiled.apply(&mut event2), StepResult::Keep);

    let mut event3 = create_event("Regular meeting", None);
    assert_eq!(compiled.apply(&mut event3), StepResult::Keep);
}

#[test]
fn test_replace_step() {
    let step = Step::Replace {
        pattern: "^Meeting:".to_string(),
        replacement: "[WORK]".to_string(),
        field: "summary".to_string(),
    };
    let compiled = CompiledStep::compile(&step).unwrap();

    let mut event = create_event("Meeting: Team sync", None);
    assert_eq!(compiled.apply(&mut event), StepResult::Keep);
    assert_eq!(event.summary(), Some("[WORK] Team sync"));
}

#[test]
fn test_replace_step_empty_replacement() {
    // Test that empty replacement removes the matched text
    let step = Step::Replace {
        pattern: "ðŸ”” ".to_string(),
        replacement: "".to_string(),
        field: "summary".to_string(),
    };
    let compiled = CompiledStep::compile(&step).unwrap();

    let mut event = create_event("ðŸ”” Important Meeting", None);
    assert_eq!(compiled.apply(&mut event), StepResult::Keep);
    assert_eq!(event.summary(), Some("Important Meeting"));
}

#[test]
fn test_strip_step() {
    let step = Step::Strip {
        field: "reminder".to_string(),
    };
    let compiled = CompiledStep::compile(&step).unwrap();

    let mut event = create_event("Meeting", None);
    assert_eq!(compiled.apply(&mut event), StepResult::Keep);
}

#[test]
fn test_step_ordering() {
    // Allow then replace
    let steps = vec![
        Step::Allow {
            patterns: vec!["(?i)meeting".to_string()],
            mode: MatchMode::Any,
            fields: vec!["summary".to_string()],
        },
        Step::Replace {
            pattern: "Meeting".to_string(),
            replacement: "[WORK]".to_string(),
            field: "summary".to_string(),
        },
    ];
    let compiled = CompiledStep::compile_many(&steps).unwrap();

    let mut event1 = create_event("Meeting with team", None);
    assert_eq!(apply_steps(&mut event1, &compiled), StepResult::Keep);
    assert_eq!(event1.summary(), Some("[WORK] with team"));

    let mut event2 = create_event("Lunch", None);
    assert_eq!(apply_steps(&mut event2, &compiled), StepResult::Reject);
}

#[test]
fn test_replace_then_allow() {
    // Replace then allow - shows order matters
    let steps = vec![
        Step::Replace {
            pattern: "Meeting".to_string(),
            replacement: "Event".to_string(),
            field: "summary".to_string(),
        },
        Step::Allow {
            patterns: vec!["Event".to_string()],
            mode: MatchMode::Any,
            fields: vec!["summary".to_string()],
        },
    ];
    let compiled = CompiledStep::compile_many(&steps).unwrap();

    // "Meeting" gets replaced to "Event", then allow checks for "Event"
    let mut event = create_event("Meeting with team", None);
    assert_eq!(apply_steps(&mut event, &compiled), StepResult::Keep);
    assert_eq!(event.summary(), Some("Event with team"));
}

#[test]
fn test_process_events() {
    let steps = vec![
        Step::Allow {
            patterns: vec!["(?i)meeting".to_string()],
            mode: MatchMode::Any,
            fields: vec!["summary".to_string()],
        },
        Step::Replace {
            pattern: "Meeting".to_string(),
            replacement: "[WORK]".to_string(),
            field: "summary".to_string(),
        },
    ];
    let compiled = CompiledStep::compile_many(&steps).unwrap();

    let events = vec![
        create_event("Meeting 1", None),
        create_event("Lunch", None),
        create_event("Meeting 2", None),
        create_event("Break", None),
    ];

    let processed = process_events(events, &compiled);

    assert_eq!(processed.len(), 2);
    assert_eq!(processed[0].summary(), Some("[WORK] 1"));
    assert_eq!(processed[1].summary(), Some("[WORK] 2"));
}

#[test]
fn steps_test_multi_field_matching() {
    let step = Step::Allow {
        patterns: vec!["(?i)important".to_string()],
        mode: MatchMode::Any,
        fields: vec!["summary".to_string(), "description".to_string()],
    };
    let compiled = CompiledStep::compile(&step).unwrap();

    let mut event1 = create_event("Important meeting", None);
    assert_eq!(compiled.apply(&mut event1), StepResult::Keep);

    let mut event2 = create_event("Meeting", Some("This is important"));
    assert_eq!(compiled.apply(&mut event2), StepResult::Keep);

    let mut event3 = create_event("Meeting", None);
    assert_eq!(compiled.apply(&mut event3), StepResult::Reject);
}

#[test]
fn test_location_field() {
    let step = Step::Allow {
        patterns: vec!["(?i)stadium".to_string()],
        mode: MatchMode::Any,
        fields: vec!["location".to_string()],
    };
    let compiled = CompiledStep::compile(&step).unwrap();

    let mut event1 = create_event_with_location("Match", None, Some("Allianz Stadium"));
    assert_eq!(compiled.apply(&mut event1), StepResult::Keep);

    let mut event2 = create_event_with_location("Match", None, Some("Park"));
    assert_eq!(compiled.apply(&mut event2), StepResult::Reject);

    let mut event3 = create_event_with_location("Match", None, None);
    assert_eq!(compiled.apply(&mut event3), StepResult::Reject);
}

#[test]
fn test_deny_then_allow() {
    // Deny optional, then allow meetings
    let steps = vec![
        Step::Deny {
            patterns: vec!["(?i)optional".to_string()],
            mode: MatchMode::Any,
            fields: vec!["summary".to_string()],
        },
        Step::Allow {
            patterns: vec!["(?i)meeting".to_string()],
            mode: MatchMode::Any,
            fields: vec!["summary".to_string()],
        },
    ];
    let compiled = CompiledStep::compile_many(&steps).unwrap();

    let mut event1 = create_event("Meeting", None);
    assert_eq!(apply_steps(&mut event1, &compiled), StepResult::Keep);

    let mut event2 = create_event("Optional meeting", None);
    assert_eq!(apply_steps(&mut event2, &compiled), StepResult::Reject);

    let mut event3 = create_event("Lunch", None);
    assert_eq!(apply_steps(&mut event3, &compiled), StepResult::Reject);
}

#[test]
fn test_multiple_replacements() {
    let steps = vec![
        Step::Replace {
            pattern: "Meeting".to_string(),
            replacement: "Event".to_string(),
            field: "summary".to_string(),
        },
        Step::Replace {
            pattern: "Event".to_string(),
            replacement: "Activity".to_string(),
            field: "summary".to_string(),
        },
    ];
    let compiled = CompiledStep::compile_many(&steps).unwrap();

    let mut event = create_event("Meeting with team", None);
    assert_eq!(apply_steps(&mut event, &compiled), StepResult::Keep);
    assert_eq!(event.summary(), Some("Activity with team"));
}

#[test]
fn test_replace_multiple_fields() {
    let steps = vec![
        Step::Replace {
            pattern: "Meeting".to_string(),
            replacement: "Event".to_string(),
            field: "summary".to_string(),
        },
        Step::Replace {
            pattern: "discuss".to_string(),
            replacement: "talk about".to_string(),
            field: "description".to_string(),
        },
        Step::Replace {
            pattern: "Room".to_string(),
            replacement: "Space".to_string(),
            field: "location".to_string(),
        },
    ];
    let compiled = CompiledStep::compile_many(&steps).unwrap();

    let mut event = icalendar::Event::new();
    event.summary("Meeting with team");
    event.description("Let's discuss the project");
    event.location("Conference Room A");
    let mut event = Event::new(event);

    assert_eq!(apply_steps(&mut event, &compiled), StepResult::Keep);
    assert_eq!(event.summary(), Some("Event with team"));
    assert_eq!(event.description(), Some("Let's talk about the project"));
    assert_eq!(event.location(), Some("Conference Space A"));
}

#[test]
fn test_case_lower() {
    let step = Step::Case {
        transform: CaseTransform::Lower,
        field: "summary".to_string(),
    };
    let compiled = CompiledStep::compile(&step).unwrap();

    let mut event = create_event("Meeting With TEAM", None);
    assert_eq!(compiled.apply(&mut event), StepResult::Keep);
    assert_eq!(event.summary(), Some("meeting with team"));
}

#[test]
fn test_case_upper() {
    let step = Step::Case {
        transform: CaseTransform::Upper,
        field: "summary".to_string(),
    };
    let compiled = CompiledStep::compile(&step).unwrap();

    let mut event = create_event("meeting with team", None);
    assert_eq!(compiled.apply(&mut event), StepResult::Keep);
    assert_eq!(event.summary(), Some("MEETING WITH TEAM"));
}

#[test]
fn test_case_sentence() {
    let step = Step::Case {
        transform: CaseTransform::Sentence,
        field: "summary".to_string(),
    };
    let compiled = CompiledStep::compile(&step).unwrap();

    let mut event = create_event("MEETING WITH TEAM", None);
    assert_eq!(compiled.apply(&mut event), StepResult::Keep);
    assert_eq!(event.summary(), Some("Meeting with team"));

    let mut event2 = create_event("meeting with team", None);
    assert_eq!(compiled.apply(&mut event2), StepResult::Keep);
    assert_eq!(event2.summary(), Some("Meeting with team"));
}

#[test]
fn test_case_title() {
    let step = Step::Case {
        transform: CaseTransform::Title,
        field: "summary".to_string(),
    };
    let compiled = CompiledStep::compile(&step).unwrap();

    let mut event = create_event("meeting with team", None);
    assert_eq!(compiled.apply(&mut event), StepResult::Keep);
    assert_eq!(event.summary(), Some("Meeting With Team"));

    let mut event2 = create_event("MEETING WITH TEAM", None);
    assert_eq!(compiled.apply(&mut event2), StepResult::Keep);
    assert_eq!(event2.summary(), Some("Meeting With Team"));

    let mut event3 = create_event("meeting WITH team", None);
    assert_eq!(compiled.apply(&mut event3), StepResult::Keep);
    assert_eq!(event3.summary(), Some("Meeting With Team"));
}

#[test]
fn test_case_on_description() {
    let step = Step::Case {
        transform: CaseTransform::Upper,
        field: "description".to_string(),
    };
    let compiled = CompiledStep::compile(&step).unwrap();

    let mut event = create_event("Meeting", Some("important discussion"));
    assert_eq!(compiled.apply(&mut event), StepResult::Keep);
    assert_eq!(event.summary(), Some("Meeting"));
    assert_eq!(event.description(), Some("IMPORTANT DISCUSSION"));
}

#[test]
fn test_case_on_location() {
    let step = Step::Case {
        transform: CaseTransform::Lower,
        field: "location".to_string(),
    };
    let compiled = CompiledStep::compile(&step).unwrap();

    let mut event = create_event_with_location("Meeting", None, Some("Conference ROOM A"));
    assert_eq!(compiled.apply(&mut event), StepResult::Keep);
    assert_eq!(event.location(), Some("conference room a"));
}

#[test]
fn replace_then_allow_keeps_but_reverse_rejects() {
    let replace = Step::Replace {
        pattern: "Meeting".to_string(),
        replacement: "Event".to_string(),
        field: "summary".to_string(),
    };
    let allow = Step::Allow {
        patterns: vec!["Event".to_string()],
        mode: MatchMode::Any,
        fields: vec!["summary".to_string()],
    };
    let forward = vec![
        CompiledStep::compile(&replace).unwrap(),
        CompiledStep::compile(&allow).unwrap(),
    ];
    let mut event = create_event("Meeting update", None);
    assert_eq!(apply_steps(&mut event, &forward), StepResult::Keep);
    assert_eq!(event.summary(), Some("Event update"));

    let reverse = vec![
        CompiledStep::compile(&allow).unwrap(),
        CompiledStep::compile(&replace).unwrap(),
    ];
    let mut event = create_event("Meeting update", None);
    assert_eq!(apply_steps(&mut event, &reverse), StepResult::Reject);
    assert_eq!(event.summary(), Some("Meeting update"));
}

#[test]
fn title_and_sentence_case_of_mixed_text() {
    let title = CompiledStep::compile(&Step::Case {
        transform: CaseTransform::Title,
        field: "summary".to_string(),
    })
    .unwrap();
    let mut event = create_event("MEETING with TEAM", None);
    assert_eq!(title.apply(&mut event), StepResult::Keep);
    assert_eq!(event.summary(), Some("Meeting With Team"));

    let sentence = CompiledStep::compile(&Step::Case {
        transform: CaseTransform::Sentence,
        field: "summary".to_string(),
    })
    .unwrap();
    let mut event = create_event("MEETING with TEAM", None);
    assert_eq!(sentence.apply(&mut event), StepResult::Keep);
    assert_eq!(event.summary(), Some("Meeting with team"));
}

#[test]
fn title_case_collapses_whitespace() {
    let title = CompiledStep::compile(&Step::Case {
        transform: CaseTransform::Title,
        field: "summary".to_string(),
    })
    .unwrap();
    let mut event = create_event("  team\tsync   now ", None);
    assert_eq!(title.apply(&mut event), StepResult::Keep);
    assert_eq!(event.summary(), Some("Team Sync Now"));
}

#[test]
fn case_on_missing_field_changes_nothing() {
    let step = CompiledStep::compile(&Step::Case {
        transform: CaseTransform::Upper,
        field: "description".to_string(),
    })
    .unwrap();
    let mut event = create_event("Meeting", None);
    assert_eq!(step.apply(&mut event), StepResult::Keep);
    assert_eq!(event.description(), None);
    assert_eq!(event.summary(), Some("Meeting"));
}

#[test]
fn replace_with_capture_group() {
    let step = CompiledStep::compile(&Step::Replace {
        pattern: "^Meeting: (.+)$".to_string(),
        replacement: "[WORK] $1".to_string(),
        field: "summary".to_string(),
    })
    .unwrap();
    let mut event = create_event("Meeting: Team sync", None);
    assert_eq!(step.apply(&mut event), StepResult::Keep);
    assert_eq!(event.summary(), Some("[WORK] Team sync"));
}

#[test]
fn replace_every_occurrence() {
    let step = CompiledStep::compile(&Step::Replace {
        pattern: "meeting".to_string(),
        replacement: "event".to_string(),
        field: "summary".to_string(),
    })
    .unwrap();
    let mut event = create_event("meeting about meeting preparation", None);
    assert_eq!(step.apply(&mut event), StepResult::Keep);
    assert_eq!(event.summary(), Some("event about event preparation"));
}

#[test]
fn allow_and_deny_with_no_patterns() {
    let allow_any = CompiledStep::compile(&Step::Allow {
        patterns: vec![],
        mode: MatchMode::Any,
        fields: vec!["summary".to_string()],
    })
    .unwrap();
    let allow_all = CompiledStep::compile(&Step::Allow {
        patterns: vec![],
        mode: MatchMode::All,
        fields: vec!["summary".to_string()],
    })
    .unwrap();
    let mut event = create_event("Anything", None);
    assert_eq!(allow_any.apply(&mut event), StepResult::Reject);
    assert_eq!(allow_all.apply(&mut event), StepResult::Keep);
}

#[test]
fn deny_is_negation_of_allow() {
    for mode in [MatchMode::Any, MatchMode::All] {
        let patterns = vec!["(?i)team".to_string(), "(?i)sync".to_string()];
        let fields = vec!["summary".to_string(), "description".to_string()];
        let allow = CompiledStep::compile(&Step::Allow {
            patterns: patterns.clone(),
            mode,
            fields: fields.clone(),
        })
        .unwrap();
        let deny = CompiledStep::compile(&Step::Deny { patterns, mode, fields }).unwrap();
        for (summary, description) in [
            ("Team sync", None),
            ("Team lunch", Some("weekly sync")),
            ("Lunch", None),
            ("Team", None),
        ] {
            let mut a = create_event(summary, description);
            let mut d = create_event(summary, description);
            let kept = allow.apply(&mut a) == StepResult::Keep;
            let denied = deny.apply(&mut d) == StepResult::Reject;
            assert_eq!(kept, denied);
        }
    }
}

#[test]
fn unknown_field_never_matches() {
    let step = CompiledStep::compile(&Step::Allow {
        patterns: vec![".*".to_string()],
        mode: MatchMode::Any,
        fields: vec!["organizer".to_string()],
    })
    .unwrap();
    let mut event = create_event("Meeting", Some("notes"));
    assert_eq!(step.apply(&mut event), StepResult::Reject);
}

#[test]
fn compile_rejects_invalid_pattern() {
    let step = Step::Deny {
        patterns: vec!["ok".to_string(), "[invalid".to_string()],
        mode: MatchMode::Any,
        fields: vec!["summary".to_string()],
    };
    let result = CompiledStep::compile(&step);
    assert!(matches!(result, Err(ical_merge::error::Error::Regex(_))));
    let many = CompiledStep::compile_many(&[step]);
    assert!(many.is_err());
}

#[test]
fn process_events_with_no_steps_keeps_all() {
    let events = vec![create_event("A", None), create_event("B", None)];
    let processed = process_events(events, &[]);
    assert_eq!(processed.len(), 2);
    assert_eq!(processed[0].summary(), Some("A"));
    assert_eq!(processed[1].summary(), Some("B"));
}

#[test]
fn pattern_keeps_its_source() {
    let p = ical_merge::pattern::Pattern::compile("(?i)meeting").unwrap();
    assert_eq!(p.source(), "(?i)meeting");
    assert!(ical_merge::pattern::Pattern::compile("(unclosed").is_err());
}
