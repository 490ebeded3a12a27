//! The configuration that the proxy hands to the guest: scalars that may come as
//! text, ranges, and what stands where nothing is set.
use vstd::prelude::*;

use crate::config::{
    BodyConfig, Config, FailMode, GroupConfig, GroupMode, Groups, Mode, OverCap, ReputationConfig,
    XffConfig,
};
use crate::labels::Labels;
use crate::numbers;
use crate::numbers::parse_numeral;
use crate::text;
use crate::text::{chars_of, copy_text, debug_text, decimal_text, join2, join3, same_text, to_lower,
    trim_text};

verus! {

// ---------------------------------------------------------------------------
// Scalars
// ---------------------------------------------------------------------------
/// A truth value, as it comes.
#[derive(Debug, PartialEq, Eq)]
pub enum LenientBool {
    Bool(bool),
    Text(String),
}

/// The truth value that a text names, whatever its case and the white space around
/// it.
pub open spec fn truth_of(s: Seq<char>) -> Option<bool> {
    let w = text::lower(text::trim(s));
    if w == "true"@ || w == "1"@ || w == "yes"@ || w == "on"@ {
        Some(true)
    } else if w == "false"@ || w == "0"@ || w == "no"@ || w == "off"@ {
        Some(false)
    } else {
        None
    }
}

/// A result, by its error's characters.
pub open spec fn spoken<T>(r: Result<T, String>) -> Result<T, Seq<char>> {
    match r {
        Ok(v) => Ok(v),
        Err(e) => Err(e@),
    }
}

/// The truth value that is meant.
pub open spec fn bool_meant(v: LenientBool) -> Result<bool, Seq<char>> {
    match v {
        LenientBool::Bool(b) => Ok(b),
        LenientBool::Text(s) => match truth_of(s@) {
            Some(b) => Ok(b),
            None => Err(
                "invalid boolean string "@ + text::debug_quoted(text::lower(text::trim(s@))),
            ),
        },
    }
}

/// The truth value that is meant. An empty text means none.
pub fn lenient_bool(v: LenientBool) -> (r: Result<bool, String>)
    ensures
        spoken(r) == bool_meant(v),
{
    match v {
        LenientBool::Bool(b) => Ok(b),
        LenientBool::Text(s) => {
            let w = to_lower(&trim_text(&s));
            if same_text(&w, "true") || same_text(&w, "1") || same_text(&w, "yes") || same_text(
                &w,
                "on",
            ) {
                Ok(true)
            } else if same_text(&w, "false") || same_text(&w, "0") || same_text(&w, "no")
                || same_text(&w, "off") {
                Ok(false)
            } else {
                Err(join2("invalid boolean string ", &debug_text(&w)))
            }
        },
    }
}

/// A number, as it comes.
#[derive(Debug, PartialEq, Eq)]
pub enum LenientNumber {
    Number(u64),
    Text(String),
}

/// The number that is meant, up to a limit.
pub open spec fn number_meant(v: LenientNumber, max: nat) -> Result<nat, Seq<char>> {
    match v {
        LenientNumber::Number(n) => if n <= max {
            Ok(n as nat)
        } else {
            Err("out of range integral type conversion attempted"@)
        },
        LenientNumber::Text(s) => match numbers::numeral(text::trim(s@), max) {
            Ok(n) => Ok(n),
            Err(e) => Err(e.words()),
        },
    }
}

fn lenient_number(v: LenientNumber, max: u64) -> (r: Result<u64, String>)
    ensures
        match r {
            Ok(n) => number_meant(v, max as nat) == Ok::<nat, Seq<char>>(n as nat) && n <= max,
            Err(e) => number_meant(v, max as nat) == Err::<nat, Seq<char>>(e@),
        },
{
    match v {
        LenientNumber::Number(n) => if n <= max {
            Ok(n)
        } else {
            Err(copy_text("out of range integral type conversion attempted"))
        },
        LenientNumber::Text(s) => {
            let t = trim_text(&s);
            let c = chars_of(&t);
            match parse_numeral(&c, max) {
                Ok(n) => {
                    proof {
                        if c@[0] == '+' {
                            numbers::lemma_scanned_is_bounded(c@.skip(1), 0, max as nat);
                        } else {
                            numbers::lemma_scanned_is_bounded(c@, 0, max as nat);
                        }
                    }
                    Ok(n)
                },
                Err(e) => Err(copy_text(e.message())),
            }
        },
    }
}

/// The number that is meant, as a size.
pub fn lenient_usize(v: LenientNumber) -> (r: Result<usize, String>)
    ensures
        match r {
            Ok(n) => number_meant(v, usize::MAX as nat) == Ok::<nat, Seq<char>>(n as nat),
            Err(e) => number_meant(v, usize::MAX as nat) == Err::<nat, Seq<char>>(e@),
        },
{
    match lenient_number(v, usize::MAX as u64) {
        Ok(n) => Ok(n as usize),
        Err(e) => Err(e),
    }
}

/// The number that is meant, of 32 bits.
pub fn lenient_u32(v: LenientNumber) -> (r: Result<u32, String>)
    ensures
        match r {
            Ok(n) => number_meant(v, u32::MAX as nat) == Ok::<nat, Seq<char>>(n as nat),
            Err(e) => number_meant(v, u32::MAX as nat) == Err::<nat, Seq<char>>(e@),
        },
{
    match lenient_number(v, u32::MAX as u64) {
        Ok(n) => Ok(n as u32),
        Err(e) => Err(e),
    }
}

// ---------------------------------------------------------------------------
// The configuration
// ---------------------------------------------------------------------------
/// The number of body bytes that are inspected, unless set.
pub const DEFAULT_MAX_INSPECT_BYTES: usize = 1_048_576;

/// The body limit, unless set.
pub fn default_body() -> (r: BodyConfig)
    ensures
        r.max_inspect_bytes == DEFAULT_MAX_INSPECT_BYTES,
        r.over_cap == OverCap::Pass,
{
    BodyConfig { max_inspect_bytes: DEFAULT_MAX_INSPECT_BYTES, over_cap: OverCap::Pass }
}

/// What happens when the firewall itself fails, unless set.
pub fn default_fail_mode() -> (r: FailMode)
    ensures
        r == FailMode::FailOpen,
{
    FailMode::FailOpen
}

/// What is out of range in a configuration.
pub open spec fn range_problem(cfg: Config) -> Option<Seq<char>> {
    if cfg.reputation.per_second == 0 {
        Some("reputation.perSecond must be > 0; use groups.reputation.enabled=false to disable"@)
    } else if cfg.body.max_inspect_bytes == 0 {
        Some("body.maxInspectBytes must be > 0; remove the field to use the default 1 MiB"@)
    } else {
        None
    }
}

pub open spec fn or_group(o: Option<GroupConfig>, enabled: bool, mode: GroupMode) -> Option<
    GroupConfig,
> {
    if o is Some {
        o
    } else {
        Some(GroupConfig { enabled, mode })
    }
}

/// The groups, with what stands for each that is not set.
pub open spec fn with_defaults(g: Groups) -> Groups {
    Groups {
        injection: or_group(g.injection, true, GroupMode::Enforce),
        signatures: or_group(g.signatures, true, GroupMode::Enforce),
        structural: or_group(g.structural, true, GroupMode::Monitor),
        reputation: or_group(g.reputation, false, GroupMode::Monitor),
    }
}

fn default_group(o: Option<GroupConfig>, enabled: bool, mode: GroupMode) -> (r: Option<GroupConfig>)
    ensures
        r == or_group(o, enabled, mode),
{
    match o {
        Some(g) => Some(g),
        None => Some(GroupConfig { enabled, mode }),
    }
}

/// The configuration that runs: what came, if it is in range, with the groups that
/// are not set.
pub fn adapt(cfg: Config) -> (r: Result<Config, String>)
    ensures
        match r {
            Ok(c) => range_problem(cfg) is None && c == (Config {
                groups: with_defaults(cfg.groups),
                ..cfg
            }),
            Err(e) => range_problem(cfg) == Some(e@),
        },
{
    if cfg.reputation.per_second == 0 {
        return Err(
            copy_text(
                "reputation.perSecond must be > 0; use groups.reputation.enabled=false to disable",
            ),
        );
    }
    if cfg.body.max_inspect_bytes == 0 {
        return Err(
            copy_text(
                "body.maxInspectBytes must be > 0; remove the field to use the default 1 MiB",
            ),
        );
    }
    let groups = Groups {
        injection: default_group(cfg.groups.injection, true, GroupMode::Enforce),
        signatures: default_group(cfg.groups.signatures, true, GroupMode::Enforce),
        structural: default_group(cfg.groups.structural, true, GroupMode::Monitor),
        reputation: default_group(cfg.groups.reputation, false, GroupMode::Monitor),
    };
    let mut c = cfg;
    c.groups = groups;
    Ok(c)
}

/// The configuration that runs when the one given cannot be used: every detector,
/// and nothing is blocked.
pub open spec fn is_fallback(c: Config) -> bool {
    &&& c.mode == Mode::Monitor
    &&& c.fail_mode == FailMode::FailOpen
    &&& c.body.max_inspect_bytes == DEFAULT_MAX_INSPECT_BYTES
    &&& c.body.over_cap == OverCap::Pass
    &&& c.groups == fallback_groups()
    &&& c.reputation.per_second == crate::config::DEFAULT_PER_SECOND
    &&& c.reputation.deny_list@.len() == 0
    &&& c.reputation.max_tracked_ips == crate::config::DEFAULT_MAX_TRACKED_IPS
    &&& c.xff.trusted_hops == 0
    &&& c.labels.entries@.len() == 0
}

/// What runs when the configuration cannot be used: every detector, and nothing is
/// blocked.
pub fn fallback() -> (r: Config)
    ensures
        is_fallback(r),
{
    Config {
        mode: Mode::Monitor,
        fail_mode: FailMode::FailOpen,
        body: default_body(),
        groups: Groups::all_monitor(),
        reputation: ReputationConfig::default(),
        xff: XffConfig::default(),
        labels: Labels::new(),
    }
}

/// Every group, without blocking.
pub open spec fn fallback_groups() -> Groups {
    let on = Some(GroupConfig { enabled: true, mode: GroupMode::Monitor });
    Groups { injection: on, signatures: on, structural: on, reputation: on }
}

/// What follows the word of a valid configuration: the number of warnings, if any.
pub fn warning_suffix(n: usize) -> (r: String)
    ensures
        r@ == if n == 0 {
            ""@
        } else if n == 1 {
            " (1 warning)"@
        } else {
            " ("@ + text::decimal(n as nat) + " warnings)"@
        },
{
    if n == 0 {
        copy_text("")
    } else if n == 1 {
        copy_text(" (1 warning)")
    } else {
        join3(" (", &decimal_text(n as u64), " warnings)")
    }
}

// ---------------------------------------------------------------------------
// Laws
// ---------------------------------------------------------------------------
/// A number means the same as its digits in text.
pub proof fn law_numbers_may_come_as_text(n: u64, s: String, max: nat)
    requires
        s@ == text::decimal(n as nat),
        n <= max,
    ensures
        number_meant(LenientNumber::Text(s), max) == number_meant(LenientNumber::Number(n), max),
{
    numbers::law_decimal_is_read_back(n as nat, max);
    text::lemma_decimal_digits(n as nat);
    assert(text::trim(text::decimal(n as nat)) == text::decimal(n as nat));
}

/// What is set for a group stays; only what is not set gets a default.
pub proof fn law_set_groups_are_kept(g: Groups)
    ensures
        g.injection is Some ==> with_defaults(g).injection == g.injection,
        g.signatures is Some ==> with_defaults(g).signatures == g.signatures,
        g.structural is Some ==> with_defaults(g).structural == g.structural,
        g.reputation is Some ==> with_defaults(g).reputation == g.reputation,
        with_defaults(with_defaults(g)) == with_defaults(g),
{
}

/// The words that mean yes or no, in any case and with any white space around them, and no
/// other words.
pub proof fn law_words_of_truth(s: Seq<char>)
    ensures
        ({
            let w = text::lower(text::trim(s));
            &&& truth_of(s) == Some(true) <==> w == "true"@ || w == "1"@ || w == "yes"@ || w
                == "on"@
            &&& truth_of(s) == Some(false) <==> w == "false"@ || w == "0"@ || w == "no"@ || w
                == "off"@
        }),
{
    reveal_strlit("true");
    reveal_strlit("1");
    reveal_strlit("yes");
    reveal_strlit("on");
    reveal_strlit("false");
    reveal_strlit("0");
    reveal_strlit("no");
    reveal_strlit("off");
    assert("true"@.len() == 4 && "1"@.len() == 1 && "yes"@.len() == 3 && "on"@.len() == 2);
    assert("false"@.len() == 5 && "0"@.len() == 1 && "no"@.len() == 2 && "off"@.len() == 3);
    assert("1"@[0] == '1' && "0"@[0] == '0');
    assert("on"@[0] == 'o' && "no"@[0] == 'n');
    assert("yes"@[0] == 'y' && "off"@[0] == 'o');
}

/// A number that does not fit is refused, and so is a text that is none.
pub proof fn law_unfit_number_is_refused(n: u64, s: String, max: nat)
    ensures
        n > max ==> number_meant(LenientNumber::Number(n), max) is Err,
        n <= max ==> number_meant(LenientNumber::Number(n), max) == Ok::<nat, Seq<char>>(n as nat),
        number_meant(LenientNumber::Text(s), max) is Ok <==> numbers::numeral(
            text::trim(s@),
            max,
        ) is Ok,
        bool_meant(LenientBool::Text(s)) is Ok <==> truth_of(s@) is Some,
        bool_meant(LenientBool::Bool(true)) == Ok::<bool, Seq<char>>(true),
        bool_meant(LenientBool::Bool(false)) == Ok::<bool, Seq<char>>(false),
{
}

/// Groups that are not set: injection and signatures enforce, the structural group watches,
/// and reputation does not run.
pub proof fn law_groups_that_are_not_set(g: Groups)
    ensures
        g.injection is None ==> with_defaults(g).injection == Some(
            GroupConfig { enabled: true, mode: GroupMode::Enforce },
        ),
        g.signatures is None ==> with_defaults(g).signatures == Some(
            GroupConfig { enabled: true, mode: GroupMode::Enforce },
        ),
        g.structural is None ==> with_defaults(g).structural == Some(
            GroupConfig { enabled: true, mode: GroupMode::Monitor },
        ),
        g.reputation is None ==> (with_defaults(g).reputation matches Some(c)
            && !c.enabled),
{
}

/// A configuration is in range just when both its rate and its inspected length are above
/// zero.
pub proof fn law_range_is_above_zero(cfg: Config)
    ensures
        range_problem(cfg) is None <==> cfg.reputation.per_second > 0 && cfg.body.max_inspect_bytes
            > 0,
{
}

/// In fallback every group runs and only watches.
pub proof fn law_fallback_watches(c: Config, g: crate::detectors::Group)
    requires
        is_fallback(c),
    ensures
        crate::config::effective_mode(c.groups, g) == GroupMode::Monitor,
        c.mode == Mode::Monitor,
        range_problem(c) is None,
        c.body.max_inspect_bytes == 1024 * 1024,
        c.reputation.per_second == 100,
        c.reputation.max_tracked_ips == 50_000,
{
}

} // verus!
