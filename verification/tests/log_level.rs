use insights::log_level::{
    configured_log_level, context_log_level, current_log_level, set_log_level, should_log,
    user_agent, LogLevel, LogSettings,
};

const ALL_LEVELS: [LogLevel; 6] = [
    LogLevel::Error,
    LogLevel::Warn,
    LogLevel::Info,
    LogLevel::Success,
    LogLevel::Verbose,
    LogLevel::Debug,
];

#[test]
fn test_set_log_level_takes_effect_at_every_level() {
    let mut settings = LogSettings::new();
    for level in ALL_LEVELS {
        set_log_level(&mut settings, level);
        assert_eq!(current_log_level(&settings), level);
    }
    set_log_level(&mut settings, LogLevel::Info);
}

#[test]
fn test_should_log_passes_levels_at_or_below_the_current_one() {
    let mut settings = LogSettings::new();
    set_log_level(&mut settings, LogLevel::Warn);
    assert!(should_log(&settings, LogLevel::Error));
    assert!(should_log(&settings, LogLevel::Warn));
    assert!(!should_log(&settings, LogLevel::Info));
    assert!(!should_log(&settings, LogLevel::Verbose));
    assert!(!should_log(&settings, LogLevel::Debug));

    set_log_level(&mut settings, LogLevel::Debug);
    for level in ALL_LEVELS {
        assert!(should_log(&settings, level));
    }
    set_log_level(&mut settings, LogLevel::Info);
}

#[test]
fn test_from_u8_falls_back_to_info_on_unknown_values() {
    assert_eq!(LogLevel::from_u8(42), LogLevel::Info);
}

#[test]
fn test_configured_log_level_reads_the_environment() {
    assert_eq!(configured_log_level(Some("debug")), LogLevel::Debug);
    assert_eq!(configured_log_level(None), LogLevel::Info);
}

#[test]
fn test_debug_configuration_reaches_should_log() {
    let mut settings = LogSettings::new();
    set_log_level(&mut settings, configured_log_level(Some("debug")));
    assert!(should_log(&settings, LogLevel::Debug));
    set_log_level(&mut settings, LogLevel::Info);
}

#[test]
fn settings_start_at_info() {
    let settings = LogSettings::new();
    assert_eq!(current_log_level(&settings), LogLevel::Info);
    assert!(should_log(&settings, LogLevel::Info));
    assert!(!should_log(&settings, LogLevel::Success));
}

#[test]
fn parse_reads_names_case_insensitively() {
    assert_eq!(LogLevel::parse("ERROR"), LogLevel::Error);
    assert_eq!(LogLevel::parse("Warn"), LogLevel::Warn);
    assert_eq!(LogLevel::parse("info"), LogLevel::Info);
    assert_eq!(LogLevel::parse("sccs"), LogLevel::Success);
    assert_eq!(LogLevel::parse("SUCCESS"), LogLevel::Success);
    assert_eq!(LogLevel::parse("verb"), LogLevel::Verbose);
    assert_eq!(LogLevel::parse("Verbose"), LogLevel::Verbose);
    assert_eq!(LogLevel::parse("DEBUG"), LogLevel::Debug);
    assert_eq!(LogLevel::parse("chatty"), LogLevel::Info);
    assert_eq!(LogLevel::parse(""), LogLevel::Info);
}

#[test]
fn names_and_numbers_round_trip() {
    for level in ALL_LEVELS {
        assert_eq!(LogLevel::parse(level.as_str()), level);
        assert_eq!(LogLevel::from_u8(level.as_u8()), level);
    }
    assert_eq!(LogLevel::Success.as_str(), "success");
    assert_eq!(LogLevel::Debug.as_u8(), 5);
}

#[test]
fn context_levels_name_only_four_levels_exactly() {
    assert_eq!(context_log_level("success"), LogLevel::Success);
    assert_eq!(context_log_level("warn"), LogLevel::Warn);
    assert_eq!(context_log_level("error"), LogLevel::Error);
    assert_eq!(context_log_level("info"), LogLevel::Info);
    assert_eq!(context_log_level("ERROR"), LogLevel::Info);
    assert_eq!(context_log_level("verbose"), LogLevel::Info);
}

#[test]
fn user_agent_names_the_header_or_says_why_not() {
    assert_eq!(user_agent(Some(Some("curl/8.0"))), "curl/8.0");
    assert_eq!(user_agent(Some(None)), "unknown");
    assert_eq!(user_agent(None), "none");
}
