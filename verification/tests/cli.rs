use alarm_clock::cli::{choose_candidate, parse_confirmation, InteractiveAnswers};
use alarm_clock::clock::Span;
use alarm_clock::config::SoundSetting;
use alarm_clock::duration::parse_duration;

#[test]
fn parses_supported_duration_formats() {
    assert_eq!(parse_duration("45s").unwrap(), Span::from_secs(45));
    assert_eq!(parse_duration("10m").unwrap(), Span::from_secs(600));
    assert_eq!(parse_duration("1h30m").unwrap(), Span::from_secs(5_400));
    assert_eq!(parse_duration("1H30").unwrap(), Span::from_secs(5_400));
    assert_eq!(parse_duration("01:30:00").unwrap(), Span::from_secs(5_400));
}

#[test]
fn rejects_invalid_duration_formats() {
    assert!(parse_duration("1H75").is_err());
    assert!(parse_duration("nonsense").is_err());
    assert!(parse_duration("00:75:00").is_err());
}

#[test]
fn validates_interactive_duration() {
    let answers = InteractiveAnswers {
        duration: "1H30".into(),
        font: "standard".into(),
        notification: true,
        sound: SoundSetting::System("Glass".into()),
        save_defaults: false,
    };
    assert_eq!(answers.validate().unwrap().duration, Span::from_secs(5_400));
}

#[test]
fn selection_and_confirmation_are_explicit() {
    assert_eq!(choose_candidate(1, "1").unwrap(), 0);
    assert_eq!(choose_candidate(3, "2").unwrap(), 1);
    assert!(choose_candidate(3, "4").is_err());
    assert!(parse_confirmation("yes").unwrap());
    assert!(!parse_confirmation("n").unwrap());
    assert!(parse_confirmation("").is_err());
}

#[test]
fn duration_units_ignore_case() {
    assert_eq!(parse_duration("1H30M").unwrap(), parse_duration("1h30m").unwrap());
    assert_eq!(parse_duration("45S").unwrap(), Span::from_secs(45));
    assert_eq!(parse_duration("2h").unwrap(), parse_duration("2H").unwrap());
    assert!(parse_duration("NONSENSE").is_err());
}

#[test]
fn durations_are_trimmed_and_zero_is_refused() {
    assert_eq!(parse_duration("  10m\n").unwrap(), Span::from_secs(600));
    assert_eq!(parse_duration("0s").unwrap_err().input(), "0s");
    assert_eq!(parse_duration(" 00:00:00 ").unwrap_err().input(), "00:00:00");
    assert!(parse_duration("1h1h").is_err());
    assert!(parse_duration("m").is_err());
    assert!(parse_duration("1H5").is_ok());
    assert!(parse_duration("1H123").is_err());
    assert_eq!(parse_duration("1m30s").unwrap(), Span::from_secs(90));
}

#[test]
fn bare_numbers_are_seconds_and_units_combine() {
    assert_eq!(parse_duration("45").unwrap(), Span::from_secs(45));
    assert_eq!(parse_duration(" +45 ").unwrap(), Span::from_secs(45));
    assert_eq!(parse_duration("2H15M30S").unwrap(), Span::from_secs(8_130));
    assert_eq!(parse_duration("18446744073709551615").unwrap(), Span::from_secs(u64::MAX));
    assert!(parse_duration("0").is_err());
    assert!(parse_duration("4 5").is_err());
}

#[test]
fn durations_beyond_u64_seconds_are_refused() {
    assert!(parse_duration("5124095576030432:00:00").is_err());
    assert!(parse_duration("5124095576030432h0").is_err());
    assert!(parse_duration("5124095576030432h").is_err());
    assert!(parse_duration("18446744073709551616").is_err());
    assert_eq!(
        parse_duration("5124095576030431:00:00").unwrap(),
        Span::from_secs(18_446_744_073_709_551_600)
    );
}

#[test]
fn choices_outside_the_list_name_the_range() {
    assert_eq!(
        choose_candidate(3, "0"),
        Err(alarm_clock::cli::ChoiceError::OutOfRange(3))
    );
    assert_eq!(choose_candidate(3, "two"), Err(alarm_clock::cli::ChoiceError::NotANumber));
    assert_eq!(choose_candidate(3, " 3 \n"), Ok(2));
    assert!(parse_confirmation(" YES\n").unwrap());
    assert!(!parse_confirmation("No").unwrap());
    assert!(parse_confirmation("yep").is_err());
}

#[test]
fn a_lone_dot_ends_pasted_text() {
    assert!(alarm_clock::cli::ends_pasted_text(".\n"));
    assert!(alarm_clock::cli::ends_pasted_text(". \r\n"));
    assert!(!alarm_clock::cli::ends_pasted_text(" .\n"));
    assert!(!alarm_clock::cli::ends_pasted_text("..\n"));
}
