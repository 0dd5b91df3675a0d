//! The driver for Hyprland's `hyprctl`.

use crate::text::{integer_text, push_integer, push_text};
use crate::types::{
    head_views, name_or_empty, text_views, ConfigView, Head, HeadConfig, HeadView, Identity,
};
use vstd::prelude::*;
use vstd::string::StringExecFns;

verus! {

/// The `keyword monitor` rule that gives the output `name` the geometry
/// `config`, or disables it where there is none.
pub open spec fn monitor_rule(name: Seq<char>, config: Option<ConfigView>) -> Seq<char> {
    match config {
        Some(c) => "keyword monitor "@ + name + ","@ + integer_text(c.width) + "x"@ + integer_text(
            c.height,
        ) + "@"@ + c.refresh_rate + ","@ + integer_text(c.x) + "x"@ + integer_text(c.y) + ","@
            + c.scale + ",transform,"@ + integer_text(c.transform) + ",vrr,"@ + (if c.vrr {
            "1"@
        } else {
            "0"@
        }),
        None => "keyword monitor "@ + name + ",disable"@,
    }
}

/// One batch entry for each display that has a name, in the order given.
pub open spec fn batch_rules(heads: Seq<HeadView>) -> Seq<Seq<char>>
    decreases heads.len(),
{
    if heads.len() == 0 {
        Seq::empty()
    } else {
        let front = batch_rules(heads.drop_last());
        match heads.last().name {
            Some(name) => front.push(monitor_rule(name, heads.last().config) + ";"@),
            None => front,
        }
    }
}

/// The arguments that apply the geometry of `heads`.
pub open spec fn set_head_config_args_spec(heads: Seq<HeadView>) -> Seq<Seq<char>> {
    seq!["--batch"@] + batch_rules(heads)
}

/// The command that switches the output `name` on for the generic layout: at
/// its preferred mode, placed by the compositor, at scale 1, without
/// transform and without variable refresh.
pub open spec fn preferred_rule(name: Seq<char>) -> Seq<char> {
    "keyword monitor "@ + name + ",preferred,auto,1,transform,0,vrr,0"@
}

/// The command that switches the output `name` off.
pub open spec fn disable_rule(name: Seq<char>) -> Seq<char> {
    "keyword monitor "@ + name + ",disable"@
}

/// The commands of the generic layout: every active output on, then every
/// inactive output off.
pub open spec fn fallback_commands_spec(
    active: Seq<Seq<char>>,
    inactive: Seq<Seq<char>>,
) -> Seq<Seq<char>> {
    active.map_values(|name: Seq<char>| preferred_rule(name)) + inactive.map_values(
        |name: Seq<char>| disable_rule(name),
    )
}

/// The arguments of the generic layout: its commands in one batch.
pub open spec fn fallback_head_config_args_spec(
    active: Seq<Seq<char>>,
    inactive: Seq<Seq<char>>,
) -> Seq<Seq<char>> {
    seq!["--batch"@] + fallback_commands_spec(active, inactive).map_values(
        |command: Seq<char>| command + ";"@,
    )
}

/// A monitor as Hyprland reports it.
#[derive(Clone, Debug, PartialEq, Eq)]
pub struct HyprctlHead {
    pub name: String,
    pub make: String,
    pub model: String,
    pub serial: String,
    pub disabled: bool,
    pub x: i32,
    pub y: i32,
    pub width: i32,
    pub height: i32,
    pub refresh_rate: String,
    pub transform: i32,
    pub scale: String,
    pub vrr: bool,
}

impl HyprctlHead {
    /// The display that this report describes.
    pub open spec fn head(&self) -> HeadView {
        HeadView {
            name: Some(self.name@),
            identity: Identity { make: self.make@, model: self.model@, serial: self.serial@ },
            config: if self.disabled {
                None
            } else {
                Some(
                    ConfigView {
                        width: self.width as int,
                        height: self.height as int,
                        refresh_rate: self.refresh_rate@,
                        x: self.x as int,
                        y: self.y as int,
                        scale: self.scale@,
                        transform: self.transform as int,
                        vrr: self.vrr,
                    },
                )
            },
        }
    }

    /// Turns the report into a display: a disabled monitor has no geometry.
    pub fn make_head(self) -> (head: Head)
        ensures
            head@ == self.head(),
    {
        Head {
            name: Some(self.name),
            make: self.make,
            model: self.model,
            serial: self.serial,
            config: if !self.disabled {
                Some(
                    HeadConfig {
                        x: self.x,
                        y: self.y,
                        width: self.width,
                        height: self.height,
                        refresh_rate: self.refresh_rate,
                        scale: self.scale,
                        vrr: self.vrr,
                        transform: self.transform,
                    },
                )
            } else {
                None
            },
        }
    }
}

impl Head {
    /// The Hyprland command that gives this display its geometry, or disables
    /// it where it has none. A display without a name gets an empty name.
    pub fn get_command(&self) -> (command: String)
        ensures
            command@ == monitor_rule(name_or_empty(self@), self@.config),
    {
        let mut out = String::from_str("keyword monitor ");
        match &self.name {
            Some(name) => {
                out.append(name.as_str());
            },
            None => {
                assert(out@ =~= "keyword monitor "@ + Seq::<char>::empty());
            },
        }
        match &self.config {
            Some(config) => {
                out.append(",");
                push_integer(&mut out, config.width);
                out.append("x");
                push_integer(&mut out, config.height);
                out.append("@");
                out.append(config.refresh_rate.as_str());
                out.append(",");
                push_integer(&mut out, config.x);
                out.append("x");
                push_integer(&mut out, config.y);
                out.append(",");
                out.append(config.scale.as_str());
                out.append(",transform,");
                push_integer(&mut out, config.transform);
                out.append(",vrr,");
                out.append(
                    if config.vrr {
                        "1"
                    } else {
                        "0"
                    },
                );
            },
            None => {
                out.append(",disable");
            },
        }
        out
    }
}

/// The commands of the generic layout, as they are sent to Hyprland: every
/// active output on at its preferred mode, placed by the compositor, at
/// scale 1, without transform and without variable refresh; then every
/// inactive output off.
pub fn fallback_commands(active_head_names: &[String], inactive_head_names: &[String]) -> (commands:
    Vec<String>)
    ensures
        text_views(commands@) == fallback_commands_spec(
            text_views(active_head_names@),
            text_views(inactive_head_names@),
        ),
{
    let ghost active = text_views(active_head_names@);
    let ghost inactive = text_views(inactive_head_names@);
    let mut commands: Vec<String> = Vec::new();
    let n = active_head_names.len();
    let mut i: usize = 0;
    proof {
        assert(text_views(commands@) =~= active.take(0).map_values(
            |name: Seq<char>| preferred_rule(name),
        ));
    }
    while i < n
        invariant
            i <= n,
            n == active_head_names.len(),
            active == text_views(active_head_names@),
            text_views(commands@) == active.take(i as int).map_values(
                |name: Seq<char>| preferred_rule(name),
            ),
        decreases n - i,
    {
        let mut command = String::from_str("keyword monitor ");
        command.append(active_head_names[i].as_str());
        command.append(",preferred,auto,1,transform,0,vrr,0");
        push_text(&mut commands, command.as_str());
        proof {
            assert(active.take(i + 1) =~= active.take(i as int).push(active[i as int]));
            assert(text_views(commands@) =~= active.take(i + 1).map_values(
                |name: Seq<char>| preferred_rule(name),
            ));
        }
        i += 1;
    }
    let m = inactive_head_names.len();
    let mut j: usize = 0;
    proof {
        assert(active.take(n as int) =~= active);
        assert(text_views(commands@) =~= active.map_values(|name: Seq<char>| preferred_rule(name))
            + inactive.take(0).map_values(|name: Seq<char>| disable_rule(name)));
    }
    while j < m
        invariant
            j <= m,
            m == inactive_head_names.len(),
            inactive == text_views(inactive_head_names@),
            text_views(commands@) == active.map_values(|name: Seq<char>| preferred_rule(name))
                + inactive.take(j as int).map_values(|name: Seq<char>| disable_rule(name)),
        decreases m - j,
    {
        let mut command = String::from_str("keyword monitor ");
        command.append(inactive_head_names[j].as_str());
        command.append(",disable");
        push_text(&mut commands, command.as_str());
        proof {
            assert(inactive.take(j + 1) =~= inactive.take(j as int).push(inactive[j as int]));
            assert(text_views(commands@) =~= active.map_values(
                |name: Seq<char>| preferred_rule(name),
            ) + inactive.take(j + 1).map_values(|name: Seq<char>| disable_rule(name)));
        }
        j += 1;
    }
    proof {
        assert(inactive.take(m as int) =~= inactive);
    }
    commands
}

/// The generic layout is a function of the two lists of names: the same
/// names give the same arguments, every time.
pub proof fn lemma_fallback_repeatable(
    active: Seq<Seq<char>>,
    inactive: Seq<Seq<char>>,
    active_again: Seq<Seq<char>>,
    inactive_again: Seq<Seq<char>>,
)
    requires
        active == active_again,
        inactive == inactive_again,
    ensures
        fallback_head_config_args_spec(active, inactive) == fallback_head_config_args_spec(
            active_again,
            inactive_again,
        ),
{
}

/// The driver that runs `hyprctl`.
pub struct HyprctlBackend {
    executable: String,
}

impl View for HyprctlBackend {
    type V = Seq<char>;

    /// The program that this driver runs.
    closed spec fn view(&self) -> Seq<char> {
        self.executable@
    }
}

impl HyprctlBackend {
    /// A driver that runs the program `executable`.
    pub fn new(executable: String) -> (backend: Self)
        ensures
            backend@ == executable@,
    {
        Self { executable }
    }

    /// The program that this driver runs.
    pub fn executable(&self) -> (program: &str)
        ensures
            program@ == self@,
    {
        self.executable.as_str()
    }

    /// The arguments that make the program list all monitors as JSON.
    pub fn get_all_heads_args(&self) -> (args: Vec<String>)
        ensures
            text_views(args@) == seq!["-j"@, "monitors"@, "all"@],
    {
        let mut args: Vec<String> = Vec::new();
        push_text(&mut args, "-j");
        push_text(&mut args, "monitors");
        push_text(&mut args, "all");
        proof {
            assert(text_views(args@) =~= seq!["-j"@, "monitors"@, "all"@]);
        }
        args
    }

    /// The arguments that apply the geometry of `heads` in one batch.
    /// Displays without a name are passed over.
    pub fn set_head_config_args(&self, heads: &[Head]) -> (args: Vec<String>)
        ensures
            text_views(args@) == set_head_config_args_spec(head_views(heads@)),
    {
        let mut args: Vec<String> = Vec::new();
        push_text(&mut args, "--batch");
        let n = heads.len();
        let mut i: usize = 0;
        proof {
            assert(text_views(args@) =~= set_head_config_args_spec(head_views(heads@.take(0))));
        }
        while i < n
            invariant
                i <= n,
                n == heads.len(),
                text_views(args@) == set_head_config_args_spec(head_views(heads@.take(i as int))),
            decreases n - i,
        {
            let ghost done = head_views(heads@.take(i as int));
            let ghost grown = head_views(heads@.take(i + 1));
            proof {
                assert(grown.drop_last() =~= done);
                assert(grown.last() == heads@[i as int]@);
            }
            if heads[i].name.is_some() {
                let mut rule = heads[i].get_command();
                rule.append(";");
                push_text(&mut args, rule.as_str());
                proof {
                    assert(text_views(args@) =~= set_head_config_args_spec(grown));
                }
            }
            i += 1;
        }
        proof {
            assert(heads@.take(n as int) =~= heads@);
        }
        args
    }

    /// The arguments of the generic layout: the commands of
    /// `fallback_commands` in one batch.
    pub fn fallback_head_config_args(
        &self,
        active_head_names: &[String],
        inactive_head_names: &[String],
    ) -> (args: Vec<String>)
        ensures
            text_views(args@) == fallback_head_config_args_spec(
                text_views(active_head_names@),
                text_views(inactive_head_names@),
            ),
    {
        let commands = fallback_commands(active_head_names, inactive_head_names);
        let ghost rules = text_views(commands@);
        let mut args: Vec<String> = Vec::new();
        push_text(&mut args, "--batch");
        let n = commands.len();
        let mut i: usize = 0;
        proof {
            assert(text_views(args@) =~= seq!["--batch"@] + rules.take(0).map_values(
                |command: Seq<char>| command + ";"@,
            ));
        }
        while i < n
            invariant
                i <= n,
                n == commands.len(),
                rules == text_views(commands@),
                text_views(args@) == seq!["--batch"@] + rules.take(i as int).map_values(
                    |command: Seq<char>| command + ";"@,
                ),
            decreases n - i,
        {
            let mut entry = commands[i].clone();
            entry.append(";");
            push_text(&mut args, entry.as_str());
            proof {
                assert(rules.take(i + 1) =~= rules.take(i as int).push(rules[i as int]));
                assert(text_views(args@) =~= seq!["--batch"@] + rules.take(i + 1).map_values(
                    |command: Seq<char>| command + ";"@,
                ));
            }
            i += 1;
        }
        proof {
            assert(rules.take(n as int) =~= rules);
        }
        args
    }
}

} // verus!
