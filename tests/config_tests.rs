use ical_merge::config::{
    default_replacement, default_step_field, default_step_fields, CalendarConfig, Config,
    MatchMode, SourceConfig, Step,
};
use ical_merge::error::Error;

fn url_source(url: &str) -> SourceConfig {
    SourceConfig::Url {
        url: url.to_string(),
        steps: vec![],
    }
}

fn calendar_source(name: &str) -> SourceConfig {
    SourceConfig::Calendar {
        calendar: name.to_string(),
        steps: vec![],
    }
}

fn calendar(sources: Vec<SourceConfig>) -> CalendarConfig {
    CalendarConfig {
        sources,
        steps: vec![],
    }
}

#[test]
fn test_config_validation() {
    let config = Config { calendars: vec![] };
    assert!(config.validate().is_err());

    let config = Config {
        calendars: vec![(
            "test".to_string(),
            CalendarConfig {
                sources: vec![],
                steps: vec![],
            },
        )],
    };
    assert!(config.validate().is_err());

    let config = Config {
        calendars: vec![(
            "test".to_string(),
            CalendarConfig {
                sources: vec![SourceConfig::Url {
                    url: "https://example.com/test.ics".to_string(),
                    steps: vec![],
                }],
                steps: vec![],
            },
        )],
    };
    assert!(config.validate().is_ok());
}

#[test]
fn test_step_validation() {
    let config = Config {
        calendars: vec![(
            "test".to_string(),
            CalendarConfig {
                sources: vec![SourceConfig::Url {
                    url: "https://example.com/test.ics".to_string(),
                    steps: vec![Step::Allow {
                        patterns: vec!["(?i)meeting".to_string()],
                        mode: MatchMode::Any,
                        fields: vec!["summary".to_string()],
                    }],
                }],
                steps: vec![],
            },
        )],
    };
    assert!(config.validate().is_ok());

    // Invalid regex
    let config = Config {
        calendars: vec![(
            "test".to_string(),
            CalendarConfig {
                sources: vec![SourceConfig::Url {
                    url: "https://example.com/test.ics".to_string(),
                    steps: vec![Step::Allow {
                        patterns: vec!["[invalid".to_string()],
                        mode: MatchMode::Any,
                        fields: vec!["summary".to_string()],
                    }],
                }],
                steps: vec![],
            },
        )],
    };
    assert!(config.validate().is_err());

    // Empty patterns
    let config = Config {
        calendars: vec![(
            "test".to_string(),
            CalendarConfig {
                sources: vec![SourceConfig::Url {
                    url: "https://example.com/test.ics".to_string(),
                    steps: vec![Step::Allow {
                        patterns: vec![],
                        mode: MatchMode::Any,
                        fields: vec!["summary".to_string()],
                    }],
                }],
                steps: vec![],
            },
        )],
    };
    assert!(config.validate().is_err());

    // Invalid strip field
    let config = Config {
        calendars: vec![(
            "test".to_string(),
            CalendarConfig {
                sources: vec![SourceConfig::Url {
                    url: "https://example.com/test.ics".to_string(),
                    steps: vec![Step::Strip {
                        field: "invalid".to_string(),
                    }],
                }],
                steps: vec![],
            },
        )],
    };
    assert!(config.validate().is_err());
}

#[test]
fn test_calendar_reference_validation() {
    let config = Config {
        calendars: vec![
            (
                "base".to_string(),
                calendar(vec![url_source("https://example.com/base.ics")]),
            ),
            ("derived".to_string(), calendar(vec![calendar_source("base")])),
        ],
    };
    assert!(config.validate().is_ok());

    let config = Config {
        calendars: vec![(
            "derived".to_string(),
            calendar(vec![calendar_source("nonexistent")]),
        )],
    };
    assert!(config.validate().is_err());
}

#[test]
fn test_cycle_detection_direct() {
    let config = Config {
        calendars: vec![("a".to_string(), calendar(vec![calendar_source("a")]))],
    };
    assert!(config.validate().is_err());
}

#[test]
fn test_cycle_detection_indirect() {
    let config = Config {
        calendars: vec![
            ("a".to_string(), calendar(vec![calendar_source("b")])),
            ("b".to_string(), calendar(vec![calendar_source("a")])),
        ],
    };
    assert!(config.validate().is_err());
}

#[test]
fn test_diamond_dependency() {
    let config = Config {
        calendars: vec![
            (
                "d".to_string(),
                calendar(vec![url_source("https://example.com/d.ics")]),
            ),
            ("b".to_string(), calendar(vec![calendar_source("d")])),
            ("c".to_string(), calendar(vec![calendar_source("d")])),
            (
                "a".to_string(),
                calendar(vec![calendar_source("b"), calendar_source("c")]),
            ),
        ],
    };
    assert!(config.validate().is_ok());
}

#[test]
fn long_cycle_is_rejected() {
    let config = Config {
        calendars: vec![
            (
                "root".to_string(),
                calendar(vec![url_source("https://example.com/r.ics"), calendar_source("x")]),
            ),
            ("x".to_string(), calendar(vec![calendar_source("y")])),
            ("y".to_string(), calendar(vec![calendar_source("z")])),
            ("z".to_string(), calendar(vec![calendar_source("x")])),
        ],
    };
    assert!(matches!(config.validate(), Err(Error::Config(_))));
}

#[test]
fn empty_url_and_empty_reference_are_rejected() {
    let config = Config {
        calendars: vec![("a".to_string(), calendar(vec![url_source("")]))],
    };
    assert!(config.validate().is_err());

    let config = Config {
        calendars: vec![("a".to_string(), calendar(vec![calendar_source("")]))],
    };
    assert!(config.validate().is_err());
}

#[test]
fn invalid_calendar_level_step_is_rejected() {
    let config = Config {
        calendars: vec![(
            "a".to_string(),
            CalendarConfig {
                sources: vec![url_source("https://example.com/a.ics")],
                steps: vec![Step::Replace {
                    pattern: "(unclosed".to_string(),
                    replacement: String::new(),
                    field: "summary".to_string(),
                }],
            },
        )],
    };
    assert!(matches!(config.validate(), Err(Error::Config(_))));
}

#[test]
fn strip_reminder_and_case_steps_are_valid() {
    let config = Config {
        calendars: vec![(
            "a".to_string(),
            CalendarConfig {
                sources: vec![url_source("https://example.com/a.ics")],
                steps: vec![
                    Step::Strip {
                        field: "reminder".to_string(),
                    },
                    Step::Case {
                        transform: ical_merge::config::CaseTransform::Title,
                        field: "summary".to_string(),
                    },
                ],
            },
        )],
    };
    assert!(config.validate().is_ok());
}

#[test]
fn defaults_for_unset_step_fields() {
    assert_eq!(
        default_step_fields(),
        vec!["summary".to_string(), "description".to_string()]
    );
    assert_eq!(default_step_field(), "summary");
    assert_eq!(default_replacement(), "");
    assert_eq!(MatchMode::default_mode(), MatchMode::Any);
}

#[test]
fn source_identifiers_and_steps() {
    let url = SourceConfig::Url {
        url: "https://example.com/a.ics".to_string(),
        steps: vec![Step::Strip {
            field: "reminder".to_string(),
        }],
    };
    assert_eq!(url.identifier(), "https://example.com/a.ics");
    assert_eq!(url.steps().len(), 1);
    let reference = calendar_source("base");
    assert_eq!(reference.identifier(), "calendar:base");
    assert!(reference.steps().is_empty());
}

#[test]
fn find_calendar_by_name() {
    let config = Config {
        calendars: vec![
            ("a".to_string(), calendar(vec![url_source("https://example.com/a.ics")])),
            ("b".to_string(), calendar(vec![calendar_source("a")])),
        ],
    };
    assert_eq!(config.find_calendar("b"), Some(1));
    assert_eq!(config.find_calendar("c"), None);
    let reach = config.reachable_from(1);
    assert_eq!(reach, vec![true, false]);
}

#[test]
fn duplicate_calendar_names_are_rejected() {
    let config = Config {
        calendars: vec![
            ("a".to_string(), calendar(vec![url_source("https://example.com/a.ics")])),
            ("a".to_string(), calendar(vec![url_source("https://example.com/b.ics")])),
        ],
    };
    assert!(matches!(config.validate(), Err(Error::Config(_))));
    assert!(config.check_unique_names().is_err());
}
