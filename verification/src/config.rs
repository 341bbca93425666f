//! Plans, ceiling estimates, the weekly reset anchor and the layering of
//! the shared config file under the setup wizard's settings.
use vstd::prelude::*;

use crate::text::{
    all_ascii, ascii_lower, chars_eq, chars_of, colon_pair, lemma_lower_colon_pair,
    lemma_lower_idempotent, lemma_lower_next_word, lemma_lower_u32_of, lemma_next_word_ascii,
    lowercase_chars, lowercase_of, next_word, next_word_at, parse_u32, slice_chars, split_colon,
    str_eq, string_of, trim, trim_chars, u32_of,
};

verus! {

/// Day of the week.
#[derive(Debug, Clone, Copy, PartialEq, Eq, Structural)]
pub enum Weekday {
    Mon,
    Tue,
    Wed,
    Thu,
    Fri,
    Sat,
    Sun,
}

/// The weekly quota anchor: a weekday and a local time of day.
#[derive(Debug, Clone, Copy, PartialEq, Eq, Structural)]
pub struct WeeklyReset {
    pub day: Weekday,
    pub hour: u32,
    pub minute: u32,
}

/// The weekday named by the first three characters of an already
/// lower-cased word (`mon` ... `sun`).
pub open spec fn day_named(lower: Seq<char>) -> Option<Weekday> {
    if lower.len() < 3 {
        None
    } else {
        let p = lower.take(3);
        if p == "mon"@ {
            Some(Weekday::Mon)
        } else if p == "tue"@ {
            Some(Weekday::Tue)
        } else if p == "wed"@ {
            Some(Weekday::Wed)
        } else if p == "thu"@ {
            Some(Weekday::Thu)
        } else if p == "fri"@ {
            Some(Weekday::Fri)
        } else if p == "sat"@ {
            Some(Weekday::Sat)
        } else if p == "sun"@ {
            Some(Weekday::Sun)
        } else {
            None
        }
    }
}

/// The anchor given the day and the text after the day's word: the next
/// word is `hours:minutes` (each as `str::parse::<u32>` reads it, anything
/// after a second `:` ignored), hours below 24 and minutes below 60.
pub open spec fn reset_after_day(day: Weekday, rest: Seq<char>) -> Option<WeeklyReset> {
    match next_word(rest) {
        None => None,
        Some((w2, _)) => match colon_pair(w2) {
            None => None,
            Some((hs, ms)) => match (u32_of(hs), u32_of(ms)) {
                (Some(h), Some(m)) => if h < 24 && m < 60 {
                    Some(WeeklyReset { day, hour: h, minute: m })
                } else {
                    None
                },
                _ => None,
            },
        },
    }
}

/// What "wed 05:59" style text means: the first word, lower-cased, names
/// the day by its first three letters, and the second word gives the time
/// (`reset_after_day`). Further words are ignored.
pub open spec fn weekly_reset_of(s: Seq<char>) -> Option<WeeklyReset> {
    match next_word(s) {
        None => None,
        Some((w1, rest)) => match day_named(lowercase_of(w1)) {
            None => None,
            Some(day) => reset_after_day(day, rest),
        },
    }
}

/// `weekly_reset_of` for ASCII text, where lower-casing is the ASCII one.
pub open spec fn weekly_reset_ascii(s: Seq<char>) -> Option<WeeklyReset> {
    match next_word(s) {
        None => None,
        Some((w1, rest)) => match day_named(ascii_lower(w1)) {
            None => None,
            Some(day) => reset_after_day(day, rest),
        },
    }
}

/// The weekly anchor is read case-insensitively: text and its lower-cased
/// form give the same anchor.
pub proof fn law_weekly_reset_ignores_case(s: Seq<char>)
    ensures
        weekly_reset_ascii(ascii_lower(s)) == weekly_reset_ascii(s),
{
    lemma_lower_next_word(s);
    if let Some((w1, rest)) = next_word(s) {
        lemma_lower_idempotent(w1);
        lemma_lower_next_word(rest);
        if let Some((w2, _)) = next_word(rest) {
            lemma_lower_colon_pair(w2);
            if let Some((hs, ms)) = colon_pair(w2) {
                lemma_lower_u32_of(hs);
                lemma_lower_u32_of(ms);
            }
        }
    }
}

/// The weekday named by an already lower-cased word: its first three
/// letters are `mon` ... `sun`.
pub fn day_from_lower(lower: &Vec<char>) -> (r: Option<Weekday>)
    ensures
        r == day_named(lower@),
{
    if lower.len() < 3 {
        return None;
    }
    let p = slice_chars(lower, 0, 3);
    assert(p@ == lower@.take(3));
    if chars_eq(&p, &chars_of("mon")) {
        Some(Weekday::Mon)
    } else if chars_eq(&p, &chars_of("tue")) {
        Some(Weekday::Tue)
    } else if chars_eq(&p, &chars_of("wed")) {
        Some(Weekday::Wed)
    } else if chars_eq(&p, &chars_of("thu")) {
        Some(Weekday::Thu)
    } else if chars_eq(&p, &chars_of("fri")) {
        Some(Weekday::Fri)
    } else if chars_eq(&p, &chars_of("sat")) {
        Some(Weekday::Sat)
    } else if chars_eq(&p, &chars_of("sun")) {
        Some(Weekday::Sun)
    } else {
        None
    }
}

/// Parses "wed 05:59" (case-insensitive, local time) into the weekly anchor.
pub fn parse_weekly_reset(s: &str) -> (r: Option<WeeklyReset>)
    ensures
        r == weekly_reset_of(s@),
        all_ascii(s@) ==> r == weekly_reset_ascii(s@),
        r matches Some(w) ==> w.hour < 24 && w.minute < 60,
{
    let cs = chars_of(s);
    assert(cs@.subrange(0, cs.len() as int) =~= cs@);
    let (w1, e1) = match next_word_at(&cs, 0) {
        None => return None,
        Some(x) => x,
    };
    proof {
        if all_ascii(s@) {
            lemma_next_word_ascii(s@);
        }
    }
    let lower = lowercase_chars(&w1);
    let day = match day_from_lower(&lower) {
        None => return None,
        Some(d) => d,
    };
    let (w2, _e2) = match next_word_at(&cs, e1) {
        None => return None,
        Some(x) => x,
    };
    let (hs, ms) = match split_colon(&w2) {
        None => return None,
        Some(x) => x,
    };
    let h = match parse_u32(&hs) {
        None => return None,
        Some(h) => h,
    };
    let m = match parse_u32(&ms) {
        None => return None,
        Some(m) => m,
    };
    if h < 24 && m < 60 {
        Some(WeeklyReset { day, hour: h, minute: m })
    } else {
        None
    }
}


// ---------------------------------------------------------------------------
// Plans and ceiling estimates
// ---------------------------------------------------------------------------

/// `s` is one of the plan keys `pro`, `max_5x`, `max_20x`, `api`.
pub open spec fn is_plan_key(s: Seq<char>) -> bool {
    s == "pro"@ || s == "max_5x"@ || s == "max_20x"@ || s == "api"@
}

/// Whether `s` is one of the plan keys.
pub fn plan_key(s: &Vec<char>) -> (r: bool)
    ensures
        r == is_plan_key(s@),
{
    chars_eq(s, &chars_of("pro")) || chars_eq(s, &chars_of("max_5x")) || chars_eq(
        s,
        &chars_of("max_20x"),
    ) || chars_eq(s, &chars_of("api"))
}

/// An estimated ceiling in API-equivalent dollars; the `api` plan has none.
#[derive(Debug, Clone, Copy, PartialEq, Eq, Structural)]
pub enum Ceiling {
    Dollars(u64),
    Unlimited,
}

/// The estimated (5-hour, weekly) ceilings for a plan key. Anchored on a
/// Max 5x observation and scaled by tier multiple; an unknown or missing
/// plan is taken as the middle tier.
pub open spec fn estimate_for(plan: Option<Seq<char>>) -> (Ceiling, Ceiling) {
    match plan {
        Some(p) => if p == "pro"@ {
            (Ceiling::Dollars(50), Ceiling::Dollars(450))
        } else if p == "max_5x"@ {
            (Ceiling::Dollars(250), Ceiling::Dollars(2200))
        } else if p == "max_20x"@ {
            (Ceiling::Dollars(1000), Ceiling::Dollars(8800))
        } else if p == "api"@ {
            (Ceiling::Unlimited, Ceiling::Unlimited)
        } else {
            (Ceiling::Dollars(250), Ceiling::Dollars(2200))
        },
        None => (Ceiling::Dollars(250), Ceiling::Dollars(2200)),
    }
}

/// The characters of an optional string slice.
pub open spec fn opt_str(o: Option<&str>) -> Option<Seq<char>> {
    match o {
        Some(s) => Some(s@),
        None => None,
    }
}

/// The characters of an optional string.
pub open spec fn opt_string(o: Option<String>) -> Option<Seq<char>> {
    match o {
        Some(s) => Some(s@),
        None => None,
    }
}

fn default_ceilings(plan: Option<&str>) -> (r: (Ceiling, Ceiling))
    ensures
        r == estimate_for(opt_str(plan)),
{
    match plan {
        None => (Ceiling::Dollars(250), Ceiling::Dollars(2200)),
        Some(p) => {
            if str_eq(p, "pro") {
                (Ceiling::Dollars(50), Ceiling::Dollars(450))
            } else if str_eq(p, "max_5x") {
                (Ceiling::Dollars(250), Ceiling::Dollars(2200))
            } else if str_eq(p, "max_20x") {
                (Ceiling::Dollars(1000), Ceiling::Dollars(8800))
            } else if str_eq(p, "api") {
                (Ceiling::Unlimited, Ceiling::Unlimited)
            } else {
                (Ceiling::Dollars(250), Ceiling::Dollars(2200))
            }
        },
    }
}

/// Estimated ceilings for a plan key, so the wizard can reset to tier
/// defaults when the user changes plan without giving percentages.
pub fn plan_default_ceilings(plan: Option<&str>) -> (r: (Ceiling, Ceiling))
    ensures
        r == estimate_for(opt_str(plan)),
{
    default_ceilings(plan)
}

// ---------------------------------------------------------------------------
// Layering the shared config file and the wizard's settings
// ---------------------------------------------------------------------------

/// What the configuration logic reads from `claude_usage.config.json`.
pub struct FileConfig {
    pub plan: Option<String>,
    pub default_model_tier: Option<String>,
    pub weekly_reset: Option<String>,
    /// `gauge_ceilings` holds a `five_h` entry.
    pub has_five_h_ceiling: bool,
    /// `gauge_ceilings` holds a `weekly` entry.
    pub has_weekly_ceiling: bool,
}

/// What the configuration logic reads from the setup wizard's settings.
pub struct WizardSettings {
    pub plan: Option<String>,
    pub weekly_reset: Option<String>,
    pub has_five_h_ceiling: bool,
    pub has_weekly_ceiling: bool,
}

/// Where a ceiling comes from.
#[derive(Debug, Clone, Copy, PartialEq, Eq, Structural)]
pub enum CeilingSource {
    /// The plan's estimate.
    Estimate(Ceiling),
    /// The value pinned in the shared config file's `gauge_ceilings`.
    ConfigFile,
    /// The value the setup wizard stored.
    Wizard,
}

/// The resolved configuration, apart from prices and the dollar values
/// that `CeilingSource` points to.
pub struct ConfigCore {
    pub plan: Option<String>,
    pub default_tier: String,
    pub weekly_reset: Option<WeeklyReset>,
    pub five_h: CeilingSource,
    pub weekly: CeilingSource,
}

/// The plan named in the shared config file: trimmed, lower-cased, and
/// kept only when it is a plan key.
pub open spec fn file_plan(p: Option<Seq<char>>) -> Option<Seq<char>> {
    match p {
        Some(t) => if is_plan_key(lowercase_of(trim(t))) {
            Some(lowercase_of(trim(t)))
        } else {
            None
        },
        None => None,
    }
}

/// The weekly anchor parsed from optional text.
pub open spec fn reset_from(t: Option<Seq<char>>) -> Option<WeeklyReset> {
    match t {
        Some(s) => weekly_reset_of(s),
        None => None,
    }
}

/// The wizard's plan when it is (exactly) a plan key.
pub open spec fn wizard_plan(p: Option<Seq<char>>) -> Option<Seq<char>> {
    match p {
        Some(t) => if is_plan_key(t) {
            Some(t)
        } else {
            None
        },
        None => None,
    }
}

fn optional_reset(t: &Option<String>) -> (r: Option<WeeklyReset>)
    ensures
        r == reset_from(opt_string(*t)),
{
    match t {
        Some(s) => parse_weekly_reset(s.as_str()),
        None => None,
    }
}

/// `r` is the configuration resolved from the shared file and the wizard's
/// settings: the shared file gives plan, default tier, weekly anchor and
/// pinned ceilings; the wizard's settings win over it.
pub open spec fn resolved(file: FileConfig, wizard: WizardSettings, r: ConfigCore) -> bool {
    &&& opt_string(r.plan) == match wizard_plan(opt_string(wizard.plan)) {
        Some(p) => Some(p),
        None => file_plan(opt_string(file.plan)),
    }
    &&& r.default_tier@ == match file.default_model_tier {
        Some(t) => t@,
        None => "sonnet"@,
    }
    &&& r.weekly_reset == match reset_from(opt_string(wizard.weekly_reset)) {
        Some(w) => Some(w),
        None => reset_from(opt_string(file.weekly_reset)),
    }
    &&& r.five_h == if wizard.has_five_h_ceiling {
        CeilingSource::Wizard
    } else if wizard_plan(opt_string(wizard.plan)) is Some {
        CeilingSource::Estimate(estimate_for(wizard_plan(opt_string(wizard.plan))).0)
    } else if file.has_five_h_ceiling {
        CeilingSource::ConfigFile
    } else {
        CeilingSource::Estimate(estimate_for(file_plan(opt_string(file.plan))).0)
    }
    &&& r.weekly == if wizard.has_weekly_ceiling {
        CeilingSource::Wizard
    } else if wizard_plan(opt_string(wizard.plan)) is Some {
        CeilingSource::Estimate(estimate_for(wizard_plan(opt_string(wizard.plan))).1)
    } else if file.has_weekly_ceiling {
        CeilingSource::ConfigFile
    } else {
        CeilingSource::Estimate(estimate_for(file_plan(opt_string(file.plan))).1)
    }
}

/// Resolves the configuration: the shared file gives plan, default tier,
/// weekly anchor and pinned ceilings; the wizard's settings win over it.
pub fn resolve_config(file: &FileConfig, wizard: &WizardSettings) -> (r: ConfigCore)
    ensures
        resolved(*file, *wizard, r),
{
    // Plan from the shared file, normalised and validated.
    let plan: Option<String> = match &file.plan {
        Some(p) => {
            let t = trim_chars(&chars_of(p.as_str()));
            let l = lowercase_chars(&t);
            if plan_key(&l) {
                Some(string_of(&l))
            } else {
                None
            }
        },
        None => None,
    };
    let (est_5h, est_wk) = match &plan {
        Some(p) => default_ceilings(Some(p.as_str())),
        None => default_ceilings(None),
    };
    let five_h = if file.has_five_h_ceiling {
        CeilingSource::ConfigFile
    } else {
        CeilingSource::Estimate(est_5h)
    };
    let weekly = if file.has_weekly_ceiling {
        CeilingSource::ConfigFile
    } else {
        CeilingSource::Estimate(est_wk)
    };
    let default_tier = match &file.default_model_tier {
        Some(t) => t.clone(),
        None => string_of(&chars_of("sonnet")),
    };
    let mut cfg = ConfigCore {
        plan,
        default_tier,
        weekly_reset: optional_reset(&file.weekly_reset),
        five_h,
        weekly,
    };
    // Wizard settings win over the shared config file.
    if let Some(p) = &wizard.plan {
        if plan_key(&chars_of(p.as_str())) {
            let (f, w) = default_ceilings(Some(p.as_str()));
            cfg.plan = Some(p.clone());
            cfg.five_h = CeilingSource::Estimate(f);
            cfg.weekly = CeilingSource::Estimate(w);
        }
    }
    if let Some(wr) = optional_reset(&wizard.weekly_reset) {
        cfg.weekly_reset = Some(wr);
    }
    if wizard.has_five_h_ceiling {
        cfg.five_h = CeilingSource::Wizard;
    }
    if wizard.has_weekly_ceiling {
        cfg.weekly = CeilingSource::Wizard;
    }
    cfg
}

impl ConfigCore {
    /// No plan is known yet: the setup wizard should run.
    pub fn needs_setup(&self) -> (r: bool)
        ensures
            r == (self.plan is None),
    {
        self.plan.is_none()
    }
}


// ---------------------------------------------------------------------------
// The setup wizard's answers
// ---------------------------------------------------------------------------

/// The normalised answers of the setup wizard.
pub struct Setup {
    /// The plan key, trimmed and lower-cased.
    pub plan: String,
    /// The weekly anchor text as it is stored, trimmed and lower-cased.
    pub weekly_reset_text: Option<String>,
    /// The anchor parsed from that text.
    pub weekly_reset: Option<WeeklyReset>,
    /// The plan's estimated (5-hour, weekly) ceilings.
    pub estimate: (Ceiling, Ceiling),
    /// Ceilings may be derived from the usage percentages (every plan but
    /// `api`).
    pub derive_ceilings: bool,
}

/// Text normalised as the wizard stores it: trimmed, then lower-cased.
pub open spec fn normalized(t: Seq<char>) -> Seq<char> {
    lowercase_of(trim(t))
}

fn normalize(t: &str) -> (r: Vec<char>)
    ensures
        r@ == normalized(t@),
{
    lowercase_chars(&trim_chars(&chars_of(t)))
}

/// Checks and normalises the wizard's plan and weekly anchor; `None` when
/// the plan is not a plan key (the answers are then ignored).
pub fn prepare_setup(plan: &str, weekly_reset: Option<&str>) -> (r: Option<Setup>)
    ensures
        !is_plan_key(normalized(plan@)) ==> r is None,
        is_plan_key(normalized(plan@)) ==> (r matches Some(s) && {
            &&& s.plan@ == normalized(plan@)
            &&& opt_string(s.weekly_reset_text) == match weekly_reset {
                Some(w) => Some(normalized(w@)),
                None => None,
            }
            &&& s.weekly_reset == reset_from(opt_string(s.weekly_reset_text))
            &&& s.estimate == estimate_for(Some(normalized(plan@)))
            &&& s.derive_ceilings == (normalized(plan@) != "api"@)
        }),
{
    let p = normalize(plan);
    if !plan_key(&p) {
        return None;
    }
    let plan_text = string_of(&p);
    let estimate = default_ceilings(Some(plan_text.as_str()));
    let weekly_reset_text: Option<String> = match weekly_reset {
        Some(w) => Some(string_of(&normalize(w))),
        None => None,
    };
    let parsed = optional_reset(&weekly_reset_text);
    let is_api = chars_eq(&p, &chars_of("api"));
    Some(Setup {
        plan: plan_text,
        weekly_reset_text,
        weekly_reset: parsed,
        estimate,
        derive_ceilings: !is_api,
    })
}

/// `after` is `before` with the wizard's answers `s` applied: the plan and
/// its estimated ceilings, and the weekly anchor when its text parsed.
pub open spec fn setup_applied(before: ConfigCore, s: Setup, after: ConfigCore) -> bool {
    &&& opt_string(after.plan) == Some(s.plan@)
    &&& after.five_h == CeilingSource::Estimate(s.estimate.0)
    &&& after.weekly == CeilingSource::Estimate(s.estimate.1)
    &&& after.weekly_reset == match s.weekly_reset {
        Some(w) => Some(w),
        None => before.weekly_reset,
    }
    &&& after.default_tier@ == before.default_tier@
}

impl ConfigCore {
    /// Applies the wizard's answers: the plan and its estimated ceilings,
    /// and the weekly anchor when the given text parses.
    pub fn apply_setup(&mut self, setup: &Setup)
        ensures
            setup_applied(*old(self), *setup, *final(self)),
    {
        self.plan = Some(setup.plan.clone());
        self.five_h = CeilingSource::Estimate(setup.estimate.0);
        self.weekly = CeilingSource::Estimate(setup.estimate.1);
        if let Some(w) = setup.weekly_reset {
            self.weekly_reset = Some(w);
        }
    }
}


/// The wizard's answers survive a reload. After a setup `s` (as
/// `prepare_setup` makes it) is applied in memory, and the settings that
/// are written hold its plan and anchor text, the configuration resolved
/// from those settings over any shared config file has the same plan, the
/// same anchor whenever the anchor text parsed, and, for each ceiling the
/// wizard did not pin, the same estimate; a pinned one comes from the
/// wizard's stored value.
pub proof fn law_setup_survives_reload(
    s: Setup,
    before: ConfigCore,
    after: ConfigCore,
    file: FileConfig,
    wizard: WizardSettings,
    loaded: ConfigCore,
)
    requires
        is_plan_key(s.plan@),
        s.estimate == estimate_for(Some(s.plan@)),
        s.weekly_reset == reset_from(opt_string(s.weekly_reset_text)),
        setup_applied(before, s, after),
        opt_string(wizard.plan) == Some(s.plan@),
        opt_string(wizard.weekly_reset) == opt_string(s.weekly_reset_text),
        resolved(file, wizard, loaded),
    ensures
        opt_string(loaded.plan) == opt_string(after.plan),
        s.weekly_reset is Some ==> loaded.weekly_reset == after.weekly_reset,
        !wizard.has_five_h_ceiling ==> loaded.five_h == after.five_h,
        wizard.has_five_h_ceiling ==> loaded.five_h == CeilingSource::Wizard,
        !wizard.has_weekly_ceiling ==> loaded.weekly == after.weekly,
        wizard.has_weekly_ceiling ==> loaded.weekly == CeilingSource::Wizard,
{
}


/// How the ceilings are layered. For each of the two ceilings: one the
/// wizard pinned is the wizard's; otherwise a valid plan chosen in the
/// wizard brings that plan's estimate; otherwise one pinned in the shared
/// config file's `gauge_ceilings` is the file's; only when none of these
/// holds is it the estimate for the file's plan.
pub proof fn law_ceiling_layers(file: FileConfig, wizard: WizardSettings, r: ConfigCore)
    requires
        resolved(file, wizard, r),
    ensures
        wizard.has_five_h_ceiling ==> r.five_h == CeilingSource::Wizard,
        wizard.has_weekly_ceiling ==> r.weekly == CeilingSource::Wizard,
        !wizard.has_five_h_ceiling && is_plan_key_opt(opt_string(wizard.plan)) ==> r.five_h
            == CeilingSource::Estimate(estimate_for(opt_string(wizard.plan)).0),
        !wizard.has_weekly_ceiling && is_plan_key_opt(opt_string(wizard.plan)) ==> r.weekly
            == CeilingSource::Estimate(estimate_for(opt_string(wizard.plan)).1),
        !wizard.has_five_h_ceiling && !is_plan_key_opt(opt_string(wizard.plan))
            && file.has_five_h_ceiling ==> r.five_h == CeilingSource::ConfigFile,
        !wizard.has_weekly_ceiling && !is_plan_key_opt(opt_string(wizard.plan))
            && file.has_weekly_ceiling ==> r.weekly == CeilingSource::ConfigFile,
        !wizard.has_five_h_ceiling && !is_plan_key_opt(opt_string(wizard.plan))
            && !file.has_five_h_ceiling ==> r.five_h is Estimate,
        !wizard.has_weekly_ceiling && !is_plan_key_opt(opt_string(wizard.plan))
            && !file.has_weekly_ceiling ==> r.weekly is Estimate,
        r.five_h is ConfigFile ==> file.has_five_h_ceiling,
        r.weekly is ConfigFile ==> file.has_weekly_ceiling,
{
}

/// An optional text is present and one of the plan keys.
pub open spec fn is_plan_key_opt(t: Option<Seq<char>>) -> bool {
    t matches Some(p) && is_plan_key(p)
}

} // verus!
