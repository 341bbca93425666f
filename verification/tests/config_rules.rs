use tokentank::config::{
    day_from_lower, parse_weekly_reset, plan_default_ceilings, prepare_setup, resolve_config, Ceiling,
    CeilingSource, FileConfig, Weekday, WeeklyReset, WizardSettings,
};

fn reset(day: Weekday, hour: u32, minute: u32) -> Option<WeeklyReset> {
    Some(WeeklyReset { day, hour, minute })
}

fn no_file() -> FileConfig {
    FileConfig {
        plan: None,
        default_model_tier: None,
        weekly_reset: None,
        has_five_h_ceiling: false,
        has_weekly_ceiling: false,
    }
}

fn no_wizard() -> WizardSettings {
    WizardSettings { plan: None, weekly_reset: None, has_five_h_ceiling: false, has_weekly_ceiling: false }
}

#[test]
fn weekly_reset_parses_day_and_time() {
    assert_eq!(parse_weekly_reset("wed 05:59"), reset(Weekday::Wed, 5, 59));
    assert_eq!(parse_weekly_reset("WED 5:59"), reset(Weekday::Wed, 5, 59));
    assert_eq!(parse_weekly_reset("Wednesday 23:00 local"), reset(Weekday::Wed, 23, 0));
    assert_eq!(parse_weekly_reset("  fri\t7:05:30"), reset(Weekday::Fri, 7, 5));
    assert_eq!(parse_weekly_reset("sun 0:0"), reset(Weekday::Sun, 0, 0));
    assert_eq!(parse_weekly_reset("mon +1:+2"), reset(Weekday::Mon, 1, 2));
    assert_eq!(parse_weekly_reset("tue 00:00"), reset(Weekday::Tue, 0, 0));
    assert_eq!(parse_weekly_reset("thu 12:30"), reset(Weekday::Thu, 12, 30));
    assert_eq!(parse_weekly_reset("sat 12:30"), reset(Weekday::Sat, 12, 30));
}

#[test]
fn weekly_reset_rejects_bad_text() {
    assert_eq!(parse_weekly_reset("wed 24:00"), None);
    assert_eq!(parse_weekly_reset("wed 23:60"), None);
    assert_eq!(parse_weekly_reset("wed 05"), None);
    assert_eq!(parse_weekly_reset("wed"), None);
    assert_eq!(parse_weekly_reset(""), None);
    assert_eq!(parse_weekly_reset("we 05:59"), None);
    assert_eq!(parse_weekly_reset("xyz 05:59"), None);
    assert_eq!(parse_weekly_reset("wed -1:00"), None);
    assert_eq!(parse_weekly_reset("wed a:00"), None);
}

#[test]
fn ceiling_estimates_per_plan() {
    assert_eq!(plan_default_ceilings(Some("pro")), (Ceiling::Dollars(50), Ceiling::Dollars(450)));
    assert_eq!(plan_default_ceilings(Some("max_5x")), (Ceiling::Dollars(250), Ceiling::Dollars(2200)));
    assert_eq!(plan_default_ceilings(Some("max_20x")), (Ceiling::Dollars(1000), Ceiling::Dollars(8800)));
    assert_eq!(plan_default_ceilings(Some("api")), (Ceiling::Unlimited, Ceiling::Unlimited));
    assert_eq!(plan_default_ceilings(Some("gold")), (Ceiling::Dollars(250), Ceiling::Dollars(2200)));
    assert_eq!(plan_default_ceilings(None), (Ceiling::Dollars(250), Ceiling::Dollars(2200)));
}

#[test]
fn file_plan_is_trimmed_and_lowercased() {
    let mut file = no_file();
    file.plan = Some("  MAX_20X ".to_string());
    let cfg = resolve_config(&file, &no_wizard());
    assert_eq!(cfg.plan.as_deref(), Some("max_20x"));
    assert_eq!(cfg.five_h, CeilingSource::Estimate(Ceiling::Dollars(1000)));
    assert_eq!(cfg.weekly, CeilingSource::Estimate(Ceiling::Dollars(8800)));
    assert_eq!(cfg.default_tier, "sonnet");
    assert!(!cfg.needs_setup());
}

#[test]
fn unknown_plan_needs_setup() {
    let mut file = no_file();
    file.plan = Some("enterprise".to_string());
    file.default_model_tier = Some("opus".to_string());
    let cfg = resolve_config(&file, &no_wizard());
    assert_eq!(cfg.plan, None);
    assert!(cfg.needs_setup());
    assert_eq!(cfg.default_tier, "opus");
    assert_eq!(cfg.five_h, CeilingSource::Estimate(Ceiling::Dollars(250)));
}

#[test]
fn pinned_ceilings_in_the_config_file_override_estimates() {
    let mut file = no_file();
    file.plan = Some("pro".to_string());
    file.has_five_h_ceiling = true;
    file.weekly_reset = Some("tue 10:00".to_string());
    let cfg = resolve_config(&file, &no_wizard());
    assert_eq!(cfg.five_h, CeilingSource::ConfigFile);
    assert_eq!(cfg.weekly, CeilingSource::Estimate(Ceiling::Dollars(450)));
    assert_eq!(cfg.weekly_reset, reset(Weekday::Tue, 10, 0));
}

#[test]
fn wizard_settings_win_over_the_config_file() {
    let mut file = no_file();
    file.plan = Some("pro".to_string());
    file.has_five_h_ceiling = true;
    file.has_weekly_ceiling = true;
    file.weekly_reset = Some("tue 10:00".to_string());
    let wizard = WizardSettings {
        plan: Some("max_5x".to_string()),
        weekly_reset: Some("wed 05:59".to_string()),
        has_five_h_ceiling: false,
        has_weekly_ceiling: true,
    };
    let cfg = resolve_config(&file, &wizard);
    assert_eq!(cfg.plan.as_deref(), Some("max_5x"));
    assert_eq!(cfg.five_h, CeilingSource::Estimate(Ceiling::Dollars(250)));
    assert_eq!(cfg.weekly, CeilingSource::Wizard);
    assert_eq!(cfg.weekly_reset, reset(Weekday::Wed, 5, 59));
}

#[test]
fn wizard_plan_must_be_an_exact_key() {
    let mut file = no_file();
    file.plan = Some("pro".to_string());
    let mut wizard = no_wizard();
    wizard.plan = Some("MAX_5X".to_string());
    wizard.weekly_reset = Some("never".to_string());
    file.weekly_reset = Some("sun 1:00".to_string());
    let cfg = resolve_config(&file, &wizard);
    assert_eq!(cfg.plan.as_deref(), Some("pro"));
    assert_eq!(cfg.weekly_reset, reset(Weekday::Sun, 1, 0));
}

#[test]
fn setup_normalises_plan_and_anchor() {
    let s = prepare_setup(" Max_20x ", Some(" WED 05:59 ")).unwrap();
    assert_eq!(s.plan, "max_20x");
    assert_eq!(s.weekly_reset_text.as_deref(), Some("wed 05:59"));
    assert_eq!(s.weekly_reset, reset(Weekday::Wed, 5, 59));
    assert_eq!(s.estimate, (Ceiling::Dollars(1000), Ceiling::Dollars(8800)));
    assert!(s.derive_ceilings);
    let api = prepare_setup("api", None).unwrap();
    assert!(!api.derive_ceilings);
    assert_eq!(api.weekly_reset_text, None);
    assert!(prepare_setup("gold", Some("wed 05:59")).is_none());
}

#[test]
fn applying_setup_updates_plan_ceilings_and_anchor() {
    let mut file = no_file();
    file.weekly_reset = Some("mon 9:00".to_string());
    let mut cfg = resolve_config(&file, &no_wizard());
    let s = prepare_setup("pro", Some("bad")).unwrap();
    cfg.apply_setup(&s);
    assert_eq!(cfg.plan.as_deref(), Some("pro"));
    assert_eq!(cfg.five_h, CeilingSource::Estimate(Ceiling::Dollars(50)));
    assert_eq!(cfg.weekly_reset, reset(Weekday::Mon, 9, 0));
    let s2 = prepare_setup("max_5x", Some("fri 18:30")).unwrap();
    cfg.apply_setup(&s2);
    assert_eq!(cfg.weekly_reset, reset(Weekday::Fri, 18, 30));
    assert_eq!(cfg.weekly, CeilingSource::Estimate(Ceiling::Dollars(2200)));
}

#[test]
fn setup_answers_survive_a_reload() {
    let mut file = no_file();
    file.plan = Some("max_20x".to_string());
    file.weekly_reset = Some("mon 9:00".to_string());
    let mut cfg = resolve_config(&file, &no_wizard());
    let s = prepare_setup(" Pro ", Some("Wed 05:59")).unwrap();
    cfg.apply_setup(&s);
    let wizard = WizardSettings {
        plan: Some(s.plan.clone()),
        weekly_reset: s.weekly_reset_text.clone(),
        has_five_h_ceiling: false,
        has_weekly_ceiling: true,
    };
    let loaded = resolve_config(&file, &wizard);
    assert_eq!(loaded.plan, cfg.plan);
    assert_eq!(loaded.weekly_reset, cfg.weekly_reset);
    assert_eq!(loaded.weekly_reset, reset(Weekday::Wed, 5, 59));
    assert_eq!(loaded.five_h, cfg.five_h);
    assert_eq!(loaded.weekly, CeilingSource::Wizard);
}

#[test]
fn day_names_match_on_three_lowercase_letters() {
    let w = |t: &str| t.chars().collect::<Vec<char>>();
    assert_eq!(day_from_lower(&w("wednesday")), Some(Weekday::Wed));
    assert_eq!(day_from_lower(&w("sun")), Some(Weekday::Sun));
    assert_eq!(day_from_lower(&w("Sun")), None);
    assert_eq!(day_from_lower(&w("su")), None);
    assert_eq!(day_from_lower(&w("xyz")), None);
}
