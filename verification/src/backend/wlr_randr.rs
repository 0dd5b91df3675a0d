//! The driver for `wlr-randr`.

use crate::text::{integer_text, push_integer, push_text, same_text, text_or_empty};
use crate::types::{
    head_views, text_views, ConfigView, Head, HeadConfig, HeadMode, HeadView, Identity,
};
use vstd::prelude::*;
use vstd::string::StringExecFns;

verus! {

/// The name that `wlr-randr` gives a transform code; a code outside 1 to 7
/// counts as no transform.
pub open spec fn transform_name(code: int) -> Seq<char> {
    if code == 1 {
        "90"@
    } else if code == 2 {
        "180"@
    } else if code == 3 {
        "270"@
    } else if code == 4 {
        "flipped"@
    } else if code == 5 {
        "flipped-90"@
    } else if code == 6 {
        "flipped-180"@
    } else if code == 7 {
        "flipped-270"@
    } else {
        "normal"@
    }
}

/// The transform code of a name that `wlr-randr` reports; any other text
/// counts as no transform.
pub open spec fn transform_code(name: Seq<char>) -> int {
    if name == "90"@ {
        1
    } else if name == "180"@ {
        2
    } else if name == "270"@ {
        3
    } else if name == "flipped"@ {
        4
    } else if name == "flipped-90"@ {
        5
    } else if name == "flipped-180"@ {
        6
    } else if name == "flipped-270"@ {
        7
    } else {
        0
    }
}

/// Reading a transform name gives back the code it was written for: what
/// is applied is what was reported.
pub proof fn lemma_transform_round_trip(code: int)
    requires
        0 <= code <= 7,
    ensures
        transform_code(transform_name(code)) == code,
{
    reveal_strlit("90");
    reveal_strlit("180");
    reveal_strlit("270");
    reveal_strlit("flipped");
    reveal_strlit("flipped-90");
    reveal_strlit("flipped-180");
    reveal_strlit("flipped-270");
    reveal_strlit("normal");
    assert("90"@.len() == 2 && "180"@.len() == 3 && "270"@.len() == 3);
    assert("flipped"@.len() == 7 && "normal"@.len() == 6);
    assert("flipped-90"@.len() == 10 && "flipped-180"@.len() == 11 && "flipped-270"@.len() == 11);
    assert("180"@[0] != "270"@[0]);
    assert("flipped-180"@[8] != "flipped-270"@[8]);
}

/// The value of `--mode` for a geometry.
pub open spec fn mode_text(config: ConfigView) -> Seq<char> {
    integer_text(config.width) + "x"@ + integer_text(config.height) + "@"@ + config.refresh_rate
        + "Hz"@
}

/// The value of `--pos` for a geometry.
pub open spec fn position_text(config: ConfigView) -> Seq<char> {
    integer_text(config.x) + ","@ + integer_text(config.y)
}

/// The arguments for one display: none for a display without a name.
pub open spec fn output_args(head: HeadView) -> Seq<Seq<char>> {
    match head.name {
        None => Seq::empty(),
        Some(name) => match head.config {
            Some(config) => seq![
                "--output"@,
                name,
                "--on"@,
                "--mode"@,
                mode_text(config),
                "--pos"@,
                position_text(config),
                "--scale"@,
                config.scale,
                "--transform"@,
                transform_name(config.transform),
                "--adaptive-sync"@,
                if config.vrr {
                    "enabled"@
                } else {
                    "disabled"@
                },
            ],
            None => seq!["--output"@, name, "--off"@],
        },
    }
}

/// The arguments that apply the geometry of `heads`, display by display.
pub open spec fn set_head_config_args_spec(heads: Seq<HeadView>) -> Seq<Seq<char>>
    decreases heads.len(),
{
    if heads.len() == 0 {
        Seq::empty()
    } else {
        set_head_config_args_spec(heads.drop_last()) + output_args(heads.last())
    }
}

/// The arguments that switch the output `name` on in the generic layout: at
/// its preferred mode; at the origin if it is the first, else to the right of
/// `previous`; at scale 1, without transform and without adaptive sync.
pub open spec fn placement_args(name: Seq<char>, previous: Option<Seq<char>>) -> Seq<Seq<char>> {
    seq!["--output"@, name, "--on"@, "--preferred"@] + (match previous {
        Some(left) => seq!["--right-of"@, left],
        None => seq!["--pos"@, "0,0"@],
    }) + seq!["--scale"@, "1"@, "--transform"@, "normal"@, "--adaptive-sync"@, "disabled"@]
}

/// The arguments that tile the active outputs from left to right.
pub open spec fn tiling_args(names: Seq<Seq<char>>) -> Seq<Seq<char>>
    decreases names.len(),
{
    if names.len() == 0 {
        Seq::empty()
    } else {
        tiling_args(names.drop_last()) + placement_args(
            names.last(),
            if names.len() == 1 {
                None
            } else {
                Some(names[names.len() - 2])
            },
        )
    }
}

/// The arguments that switch the outputs `names` off.
pub open spec fn off_args(names: Seq<Seq<char>>) -> Seq<Seq<char>>
    decreases names.len(),
{
    if names.len() == 0 {
        Seq::empty()
    } else {
        off_args(names.drop_last()) + seq!["--output"@, names.last(), "--off"@]
    }
}

/// The arguments of the generic layout: the active outputs tiled from left to
/// right, the inactive outputs off.
pub open spec fn fallback_head_config_args_spec(
    active: Seq<Seq<char>>,
    inactive: Seq<Seq<char>>,
) -> Seq<Seq<char>> {
    tiling_args(active) + off_args(inactive)
}

/// A mode in the report of `wlr-randr`.
#[derive(Clone, Debug, PartialEq, Eq)]
pub struct WlrRandrHeadMode {
    pub mode: HeadMode,
    pub current: bool,
}

/// A position in the report of `wlr-randr`.
#[derive(Clone, Copy, Debug, PartialEq, Eq, Structural)]
pub struct WlrRandrHeadPosition {
    pub x: i32,
    pub y: i32,
}

/// An output as `wlr-randr` reports it.
#[derive(Clone, Debug, PartialEq, Eq)]
pub struct WlrRandrHead {
    pub name: String,
    pub make: Option<String>,
    pub model: Option<String>,
    pub serial: Option<String>,
    pub enabled: bool,
    pub position: Option<WlrRandrHeadPosition>,
    pub modes: Vec<WlrRandrHeadMode>,
    pub transform: Option<String>,
    pub scale: Option<String>,
    pub adaptive_sync: Option<bool>,
}

/// The place of the first mode marked as current, if there is one.
pub open spec fn first_current(modes: Seq<WlrRandrHeadMode>) -> Option<int>
    decreases modes.len(),
{
    if modes.len() == 0 {
        None
    } else {
        match first_current(modes.drop_last()) {
            Some(i) => Some(i),
            None => if modes.last().current {
                Some(modes.len() - 1)
            } else {
                None
            },
        }
    }
}

/// A place found by `first_current` is a place in the sequence.
pub proof fn lemma_first_current_in_range(modes: Seq<WlrRandrHeadMode>)
    ensures
        first_current(modes) matches Some(i) ==> 0 <= i < modes.len() && modes[i].current && forall|
            k: int,
        |
            0 <= k < i ==> !(#[trigger] modes[k]).current,
        first_current(modes) is None ==> forall|k: int|
            0 <= k < modes.len() ==> !(#[trigger] modes[k]).current,
    decreases modes.len(),
{
    if modes.len() > 0 {
        lemma_first_current_in_range(modes.drop_last());
        let front = modes.drop_last();
        assert forall|k: int| 0 <= k < front.len() implies front[k] == modes[k] by {}
        match first_current(front) {
            Some(i) => {
                assert(front[i] == modes[i]);
                assert forall|k: int| 0 <= k < i implies !(#[trigger] modes[k]).current by {
                    assert(front[k] == modes[k]);
                }
            },
            None => {
                assert forall|k: int| 0 <= k < modes.len() - 1 implies !(#[trigger]
                    modes[k]).current by {
                    assert(front[k] == modes[k]);
                }
            },
        }
    }
}

impl WlrRandrHead {
    /// The place of the mode that is in use: the first one marked as current,
    /// or the first one where none is marked.
    pub open spec fn mode_index(&self) -> int {
        match first_current(self.modes@) {
            Some(i) => i,
            None => 0,
        }
    }

    /// The geometry that this report describes: none where the output is
    /// disabled or reports no mode. A missing position is the origin, a
    /// missing scale is 1, a missing transform is none, missing adaptive sync
    /// is off.
    pub open spec fn config(&self) -> Option<ConfigView> {
        if self.enabled && self.modes@.len() > 0 {
            let mode = self.modes@[self.mode_index()].mode;
            Some(
                ConfigView {
                    width: mode.width as int,
                    height: mode.height as int,
                    refresh_rate: mode.refresh_rate@,
                    x: match self.position {
                        Some(p) => p.x as int,
                        None => 0,
                    },
                    y: match self.position {
                        Some(p) => p.y as int,
                        None => 0,
                    },
                    scale: match self.scale {
                        Some(s) => s@,
                        None => "1"@,
                    },
                    transform: transform_code(text_or_empty(self.transform)),
                    vrr: match self.adaptive_sync {
                        Some(on) => on,
                        None => false,
                    },
                },
            )
        } else {
            None
        }
    }

    /// The display that this report describes. A missing make, model or
    /// serial is empty.
    pub open spec fn head(&self) -> HeadView {
        HeadView {
            name: Some(self.name@),
            identity: Identity {
                make: text_or_empty(self.make),
                model: text_or_empty(self.model),
                serial: text_or_empty(self.serial),
            },
            config: self.config(),
        }
    }

    /// Finds the mode that is in use.
    fn current_mode_index(&self) -> (index: usize)
        requires
            self.modes@.len() > 0,
        ensures
            index == self.mode_index(),
            index < self.modes@.len(),
    {
        let n = self.modes.len();
        let mut found: Option<usize> = None;
        let mut i: usize = 0;
        while i < n
            invariant
                i <= n,
                n == self.modes.len(),
                match found {
                    Some(at) => first_current(self.modes@.take(i as int)) == Some(at as int),
                    None => first_current(self.modes@.take(i as int)) is None,
                },
            decreases n - i,
        {
            proof {
                let grown = self.modes@.take(i + 1);
                assert(grown.drop_last() =~= self.modes@.take(i as int));
                assert(grown.last() == self.modes@[i as int]);
            }
            if found.is_none() && self.modes[i].current {
                found = Some(i);
            }
            i += 1;
        }
        proof {
            assert(self.modes@.take(n as int) =~= self.modes@);
            lemma_first_current_in_range(self.modes@);
        }
        match found {
            Some(at) => at,
            None => 0,
        }
    }

    /// Turns the report into a display. The transform of its geometry is a
    /// code from 0 to 7.
    pub fn make_head(self) -> (head: Head)
        ensures
            head@ == self.head(),
            head@.config matches Some(config) ==> 0 <= config.transform <= 7,
    {
        let config = if self.enabled && self.modes.len() > 0 {
            let index = self.current_mode_index();
            let mode = &self.modes[index].mode;
            Some(
                HeadConfig {
                    x: match &self.position {
                        Some(p) => p.x,
                        None => 0,
                    },
                    y: match &self.position {
                        Some(p) => p.y,
                        None => 0,
                    },
                    width: mode.width,
                    height: mode.height,
                    refresh_rate: mode.refresh_rate.clone(),
                    scale: match &self.scale {
                        Some(s) => s.clone(),
                        None => String::from_str("1"),
                    },
                    vrr: match self.adaptive_sync {
                        Some(on) => on,
                        None => false,
                    },
                    transform: match &self.transform {
                        Some(name) => parse_transform(name.as_str()),
                        None => parse_transform(""),
                    },
                },
            )
        } else {
            None
        };
        proof {
            reveal_strlit("");
            assert(""@ =~= Seq::<char>::empty());
        }
        Head {
            name: Some(self.name),
            make: text_or_default(self.make),
            model: text_or_default(self.model),
            serial: text_or_default(self.serial),
            config,
        }
    }
}

/// The text, or an empty one where it is absent.
pub fn text_or_default(text: Option<String>) -> (r: String)
    ensures
        r@ == text_or_empty(text),
{
    match text {
        Some(t) => t,
        None => String::new(),
    }
}

/// Reads a transform name as `wlr-randr` reports it.
pub fn parse_transform(name: &str) -> (code: i32)
    ensures
        code == transform_code(name@),
        0 <= code <= 7,
{
    if same_text(name, "90") {
        1
    } else if same_text(name, "180") {
        2
    } else if same_text(name, "270") {
        3
    } else if same_text(name, "flipped") {
        4
    } else if same_text(name, "flipped-90") {
        5
    } else if same_text(name, "flipped-180") {
        6
    } else if same_text(name, "flipped-270") {
        7
    } else {
        0
    }
}

/// The name that `wlr-randr` takes for a transform code.
pub fn transform_text(code: i32) -> (name: &'static str)
    ensures
        name@ == transform_name(code as int),
{
    match code {
        1 => "90",
        2 => "180",
        3 => "270",
        4 => "flipped",
        5 => "flipped-90",
        6 => "flipped-180",
        7 => "flipped-270",
        _ => "normal",
    }
}

/// Appends the arguments for one display.
fn push_output_args(args: &mut Vec<String>, head: &Head)
    ensures
        text_views(final(args)@) == text_views(old(args)@) + output_args(head@),
{
    let ghost before = text_views(args@);
    match &head.name {
        None => {
            assert(text_views(args@) =~= before + output_args(head@));
        },
        Some(name) => {
            push_text(args, "--output");
            push_text(args, name.as_str());
            match &head.config {
                Some(config) => {
                    push_text(args, "--on");
                    push_text(args, "--mode");
                    let mut mode = String::new();
                    push_integer(&mut mode, config.width);
                    mode.append("x");
                    push_integer(&mut mode, config.height);
                    mode.append("@");
                    mode.append(config.refresh_rate.as_str());
                    mode.append("Hz");
                    proof {
                        assert(mode@ =~= mode_text(config@));
                    }
                    push_text(args, mode.as_str());
                    push_text(args, "--pos");
                    let mut position = String::new();
                    push_integer(&mut position, config.x);
                    position.append(",");
                    push_integer(&mut position, config.y);
                    proof {
                        assert(position@ =~= position_text(config@));
                    }
                    push_text(args, position.as_str());
                    push_text(args, "--scale");
                    push_text(args, config.scale.as_str());
                    push_text(args, "--transform");
                    push_text(args, transform_text(config.transform));
                    push_text(args, "--adaptive-sync");
                    push_text(
                        args,
                        if config.vrr {
                            "enabled"
                        } else {
                            "disabled"
                        },
                    );
                    proof {
                        assert(text_views(args@) =~= before + output_args(head@));
                    }
                },
                None => {
                    push_text(args, "--off");
                    proof {
                        assert(text_views(args@) =~= before + output_args(head@));
                    }
                },
            }
        },
    }
}

/// The generic layout is a function of the two lists of names: the same
/// names give the same arguments, every time.
pub proof fn lemma_fallback_repeatable(
    active: Seq<Seq<char>>,
    inactive: Seq<Seq<char>>,
    active_again: Seq<Seq<char>>,
    inactive_again: Seq<Seq<char>>,
)
    requires
        active == active_again,
        inactive == inactive_again,
    ensures
        fallback_head_config_args_spec(active, inactive) == fallback_head_config_args_spec(
            active_again,
            inactive_again,
        ),
{
}

/// The driver that runs `wlr-randr`.
pub struct WlrRandrBackend {
    executable: String,
}

impl View for WlrRandrBackend {
    type V = Seq<char>;

    /// The program that this driver runs.
    closed spec fn view(&self) -> Seq<char> {
        self.executable@
    }
}

impl WlrRandrBackend {
    /// A driver that runs the program `executable`.
    pub fn new(executable: String) -> (backend: Self)
        ensures
            backend@ == executable@,
    {
        Self { executable }
    }

    /// The program that this driver runs.
    pub fn executable(&self) -> (program: &str)
        ensures
            program@ == self@,
    {
        self.executable.as_str()
    }

    /// The arguments that make the program list all outputs as JSON.
    pub fn get_all_heads_args(&self) -> (args: Vec<String>)
        ensures
            text_views(args@) == seq!["--json"@],
    {
        let mut args: Vec<String> = Vec::new();
        push_text(&mut args, "--json");
        proof {
            assert(text_views(args@) =~= seq!["--json"@]);
        }
        args
    }

    /// The arguments that apply the geometry of `heads`. Displays without a
    /// name are passed over.
    pub fn set_head_config_args(&self, heads: &[Head]) -> (args: Vec<String>)
        ensures
            text_views(args@) == set_head_config_args_spec(head_views(heads@)),
    {
        let mut args: Vec<String> = Vec::new();
        let n = heads.len();
        let mut i: usize = 0;
        proof {
            assert(text_views(args@) =~= set_head_config_args_spec(head_views(heads@.take(0))));
        }
        while i < n
            invariant
                i <= n,
                n == heads.len(),
                text_views(args@) == set_head_config_args_spec(head_views(heads@.take(i as int))),
            decreases n - i,
        {
            proof {
                let done = head_views(heads@.take(i as int));
                let grown = head_views(heads@.take(i + 1));
                assert(grown.drop_last() =~= done);
                assert(grown.last() == heads@[i as int]@);
            }
            push_output_args(&mut args, &heads[i]);
            i += 1;
        }
        proof {
            assert(heads@.take(n as int) =~= heads@);
        }
        args
    }

    /// The arguments of the generic layout: every active output on at its
    /// preferred mode, at scale 1, without transform and without adaptive
    /// sync, the first at the origin and each next one to the right of the one
    /// before; every inactive output off.
    pub fn fallback_head_config_args(
        &self,
        active_head_names: &[String],
        inactive_head_names: &[String],
    ) -> (args: Vec<String>)
        ensures
            text_views(args@) == fallback_head_config_args_spec(
                text_views(active_head_names@),
                text_views(inactive_head_names@),
            ),
    {
        let ghost active = text_views(active_head_names@);
        let ghost inactive = text_views(inactive_head_names@);
        let mut args: Vec<String> = Vec::new();
        let n = active_head_names.len();
        let mut i: usize = 0;
        proof {
            assert(text_views(args@) =~= tiling_args(active.take(0)));
        }
        while i < n
            invariant
                i <= n,
                n == active_head_names.len(),
                active == text_views(active_head_names@),
                text_views(args@) == tiling_args(active.take(i as int)),
            decreases n - i,
        {
            let ghost before = text_views(args@);
            let ghost grown = active.take(i + 1);
            proof {
                assert(grown.drop_last() =~= active.take(i as int));
                assert(grown.last() == active[i as int]);
                if i > 0 {
                    assert(grown[grown.len() - 2] == active[i - 1]);
                }
            }
            push_text(&mut args, "--output");
            push_text(&mut args, active_head_names[i].as_str());
            push_text(&mut args, "--on");
            push_text(&mut args, "--preferred");
            if i > 0 {
                push_text(&mut args, "--right-of");
                push_text(&mut args, active_head_names[i - 1].as_str());
            } else {
                push_text(&mut args, "--pos");
                push_text(&mut args, "0,0");
            }
            push_text(&mut args, "--scale");
            push_text(&mut args, "1");
            push_text(&mut args, "--transform");
            push_text(&mut args, "normal");
            push_text(&mut args, "--adaptive-sync");
            push_text(&mut args, "disabled");
            proof {
                assert(text_views(args@) =~= before + placement_args(
                    grown.last(),
                    if grown.len() == 1 {
                        None
                    } else {
                        Some(grown[grown.len() - 2])
                    },
                ));
            }
            i += 1;
        }
        let m = inactive_head_names.len();
        let mut j: usize = 0;
        proof {
            assert(active.take(n as int) =~= active);
            assert(text_views(args@) =~= tiling_args(active) + off_args(inactive.take(0)));
        }
        while j < m
            invariant
                j <= m,
                m == inactive_head_names.len(),
                inactive == text_views(inactive_head_names@),
                text_views(args@) == tiling_args(active) + off_args(inactive.take(j as int)),
            decreases m - j,
        {
            let ghost before = text_views(args@);
            let ghost grown = inactive.take(j + 1);
            proof {
                assert(grown.drop_last() =~= inactive.take(j as int));
                assert(grown.last() == inactive[j as int]);
            }
            push_text(&mut args, "--output");
            push_text(&mut args, inactive_head_names[j].as_str());
            push_text(&mut args, "--off");
            proof {
                assert(text_views(args@) =~= before + seq!["--output"@, grown.last(), "--off"@]);
                assert(text_views(args@) =~= tiling_args(active) + off_args(grown));
            }
            j += 1;
        }
        proof {
            assert(inactive.take(m as int) =~= inactive);
        }
        args
    }
}

} // verus!
