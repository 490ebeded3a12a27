//! The configuration in use, and which groups run for a request.
use std::sync::Arc;
use vstd::prelude::*;

use crate::config as settings;
use crate::config::GroupMode;
use crate::detectors::Group;
use crate::sidecar::config::{Config, Override};
use crate::text;
use crate::text::{same_text, starts_with};

verus! {

/// Whether an exception is for a host and a path.
pub open spec fn concerns(o: Override, host: Seq<char>, path: Seq<char>) -> bool {
    &&& o.host is Some ==> o.host->0@ == host
    &&& o.path_prefix is Some ==> text::has_prefix(path, o.path_prefix->0@)
}

/// Whether an exception turns a group off.
pub open spec fn disables(o: Override, g: Group) -> bool {
    exists|i: int| 0 <= i < o.disable_groups@.len() && (#[trigger] o.disable_groups@[i])@ == g.tag()
}

/// Whether an exception turns a group off for a host and a path.
pub open spec fn turns_off(o: Override, g: Group, host: Seq<char>, path: Seq<char>) -> bool {
    concerns(o, host, path) && disables(o, g)
}

/// Whether some exception turns a group off for a host and a path.
pub open spec fn is_excepted(list: Seq<Override>, g: Group, host: Seq<char>, path: Seq<char>) -> bool {
    exists|i: int| 0 <= i < list.len() && turns_off(#[trigger] list[i], g, host, path)
}

/// The level at which a group runs for a host and a path: an exception wins.
pub open spec fn level(cfg: Config, g: Group, host: Seq<char>, path: Seq<char>) -> GroupMode {
    if is_excepted(cfg.overrides@, g, host, path) {
        GroupMode::Off
    } else {
        settings::effective_mode(cfg.groups, g)
    }
}

pub open spec fn all_groups() -> Seq<Group> {
    seq![Group::Injection, Group::Signatures, Group::Structure, Group::Reputation]
}

/// The first `n` groups that are not off, in their order.
pub open spec fn running(cfg: Config, host: Seq<char>, path: Seq<char>, n: nat) -> Seq<Group>
    decreases n,
{
    if n == 0 {
        Seq::empty()
    } else {
        let before = running(cfg, host, path, (n - 1) as nat);
        if level(cfg, all_groups()[n - 1], host, path) == GroupMode::Off {
            before
        } else {
            before.push(all_groups()[n - 1])
        }
    }
}

fn group_is_disabled(o: &Override, g: Group) -> (r: bool)
    ensures
        r == disables(*o, g),
{
    let mut i: usize = 0;
    while i < o.disable_groups.len()
        invariant
            i <= o.disable_groups@.len(),
            forall|k: int| 0 <= k < i ==> (#[trigger] o.disable_groups@[k])@ != g.tag(),
        decreases o.disable_groups@.len() - i,
    {
        if same_text(&o.disable_groups[i], g.as_str()) {
            assert(o.disable_groups@[i as int]@ == g.tag());
            return true;
        }
        i = i + 1;
    }
    false
}

fn override_concerns(o: &Override, host: &str, path: &str) -> (r: bool)
    ensures
        r == concerns(*o, host@, path@),
{
    let host_ok = match &o.host {
        Some(h) => same_text(h, host),
        None => true,
    };
    let path_ok = match &o.path_prefix {
        Some(p) => starts_with(path, p),
        None => true,
    };
    host_ok && path_ok
}

/// The configuration in use, and where it was read.
#[derive(Debug)]
pub struct Rules {
    /// The configuration.
    pub config: Arc<Config>,
    /// The file.
    pub path: String,
}

impl Rules {
    /// Rules with that configuration.
    pub fn new(config: Config, path: String) -> (r: Rules)
        ensures
            *r.config == config,
            r.path == path,
    {
        Rules { config: Arc::new(config), path }
    }

    /// The configuration in use: it stays the same for whoever holds it, whatever is
    /// read from the file meanwhile.
    pub fn current(&self) -> (r: Arc<Config>)
        ensures
            *r == *self.config,
    {
        self.config.clone()
    }

    /// The file that the configuration was read from.
    pub fn path(&self) -> (r: &str)
        ensures
            r@ == self.path@,
    {
        self.path.as_str()
    }

    /// Takes what was read from the file anew. Where it could not be read, the
    /// configuration in use stays.
    pub fn reload(&mut self, read: Result<Config, String>) -> (r: Result<(), String>)
        ensures
            final(self).path == old(self).path,
            match read {
                Ok(c) => r is Ok && *final(self).config == c,
                Err(e) => r == Err::<(), String>(e) && final(self).config == old(self).config,
            },
    {
        match read {
            Ok(c) => {
                self.config = Arc::new(c);
                Ok(())
            },
            Err(e) => Err(e),
        }
    }

    /// The level at which a group runs for a host and a path.
    pub fn group_mode(&self, cfg: &Config, group: Group, host: &str, path: &str) -> (r: GroupMode)
        ensures
            r == level(*cfg, group, host@, path@),
    {
        let mut i: usize = 0;
        while i < cfg.overrides.len()
            invariant
                i <= cfg.overrides@.len(),
                forall|k: int|
                    0 <= k < i ==> !turns_off(#[trigger] cfg.overrides@[k], group, host@, path@),
            decreases cfg.overrides@.len() - i,
        {
            let o = &cfg.overrides[i];
            if override_concerns(o, host, path) && group_is_disabled(o, group) {
                assert(turns_off(cfg.overrides@[i as int], group, host@, path@));
                return GroupMode::Off;
            }
            i = i + 1;
        }
        cfg.groups.effective_mode_of(group)
    }

    /// The groups that run for a host and a path.
    pub fn enabled_groups(&self, cfg: &Config, host: &str, path: &str) -> (r: Vec<Group>)
        ensures
            r@ == running(*cfg, host@, path@, 4),
    {
        let groups: [Group; 4] = [
            Group::Injection,
            Group::Signatures,
            Group::Structure,
            Group::Reputation,
        ];
        let mut out: Vec<Group> = Vec::new();
        let mut i: usize = 0;
        while i < 4
            invariant
                i <= 4,
                groups@ == all_groups(),
                out@ == running(*cfg, host@, path@, i as nat),
            decreases 4 - i,
        {
            if self.group_mode(cfg, groups[i], host, path) != GroupMode::Off {
                out.push(groups[i]);
            }
            i = i + 1;
        }
        out
    }
}

/// A group is among those that run just when it is not off.
pub proof fn law_running_is_not_off(cfg: Config, host: Seq<char>, path: Seq<char>, g: Group)
    ensures
        running(cfg, host, path, 4).contains(g) <==> level(cfg, g, host, path) != GroupMode::Off,
{
    let at: int = match g {
        Group::Injection => 0,
        Group::Signatures => 1,
        Group::Structure => 2,
        Group::Reputation => 3,
    };
    lemma_running(cfg, host, path, 4, at);
}

proof fn lemma_running(cfg: Config, host: Seq<char>, path: Seq<char>, n: nat, at: int)
    requires
        0 <= at < 4,
        n <= 4,
    ensures
        running(cfg, host, path, n).contains(all_groups()[at]) <==> at < n && level(
            cfg,
            all_groups()[at],
            host,
            path,
        ) != GroupMode::Off,
    decreases n,
{
    if n > 0 {
        lemma_running(cfg, host, path, (n - 1) as nat, at);
        let before = running(cfg, host, path, (n - 1) as nat);
        let g = all_groups()[n - 1];
        let all = before.push(g);
        let wanted = all_groups()[at];
        assert(all[before.len() as int] == g);
        if before.contains(wanted) {
            let k = choose|k: int| 0 <= k < before.len() && before[k] == wanted;
            assert(all[k] == wanted);
        }
        if all.contains(wanted) {
            let k = choose|k: int| 0 <= k < all.len() && all[k] == wanted;
            if k < before.len() {
                assert(before[k] == wanted);
            }
        }
    }
}

/// An exception for a host and a path turns its groups off there, whatever else is
/// configured.
pub proof fn law_exception_wins(
    cfg: Config,
    i: int,
    g: Group,
    host: Seq<char>,
    path: Seq<char>,
)
    requires
        0 <= i < cfg.overrides@.len(),
        concerns(cfg.overrides@[i], host, path),
        disables(cfg.overrides@[i], g),
    ensures
        level(cfg, g, host, path) == GroupMode::Off,
{
    assert(turns_off(cfg.overrides@[i], g, host, path));
}

/// Any of the exceptions, by any of the names it lists, turns a group off for the requests
/// it concerns: those to its host, if it names one, and below its path, if it names one.
pub proof fn law_any_exception_turns_a_group_off(
    cfg: Config,
    i: int,
    k: int,
    g: Group,
    host: Seq<char>,
    path: Seq<char>,
)
    requires
        0 <= i < cfg.overrides@.len(),
        0 <= k < cfg.overrides@[i].disable_groups@.len(),
        cfg.overrides@[i].disable_groups@[k]@ == g.tag(),
        cfg.overrides@[i].host matches Some(h) ==> h@ == host,
        cfg.overrides@[i].path_prefix matches Some(p) ==> p@.len() <= path.len() && path.subrange(
            0,
            p@.len() as int,
        ) == p@,
    ensures
        level(cfg, g, host, path) == GroupMode::Off,
{
    let o = cfg.overrides@[i];
    assert(disables(o, g));
    if o.path_prefix is Some {
        let p = o.path_prefix->0@;
        assert(path =~= p + path.skip(p.len() as int));
        text::law_prefix_comes_first(path, p, path.skip(p.len() as int));
    }
    assert(turns_off(o, g, host, path));
}

/// Where no exception both concerns a request and lists a group, the group runs as set.
pub proof fn law_without_exception_a_group_runs_as_set(
    cfg: Config,
    g: Group,
    host: Seq<char>,
    path: Seq<char>,
)
    requires
        forall|i: int|
            0 <= i < cfg.overrides@.len() ==> {
                let o = #[trigger] cfg.overrides@[i];
                ||| o.host is Some && o.host->0@ != host
                ||| o.path_prefix is Some && !text::has_prefix(path, o.path_prefix->0@)
                ||| forall|k: int|
                    0 <= k < o.disable_groups@.len() ==> (#[trigger] o.disable_groups@[k])@
                        != g.tag()
            },
    ensures
        level(cfg, g, host, path) == settings::effective_mode(cfg.groups, g),
{
    if is_excepted(cfg.overrides@, g, host, path) {
        let i = choose|i: int|
            0 <= i < cfg.overrides@.len() && turns_off(
                #[trigger] cfg.overrides@[i],
                g,
                host,
                path,
            );
        let o = cfg.overrides@[i];
        let k = choose|k: int|
            0 <= k < o.disable_groups@.len() && (#[trigger] o.disable_groups@[k])@ == g.tag();
        assert(o.disable_groups@[k]@ == g.tag());
    }
}

} // verus!
