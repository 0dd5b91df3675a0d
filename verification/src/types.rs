//! The value types: a display's hardware identity, its geometry, and the
//! mathematical views that the contracts of this crate speak about.

use vstd::prelude::*;

verus! {

/// The hardware identity of a display as a mathematical value.
#[verifier::ext_equal]
pub struct Identity {
    pub make: Seq<char>,
    pub model: Seq<char>,
    pub serial: Seq<char>,
}

/// The hardware identity of a display: two displays are the same physical unit
/// exactly when the three fields agree.
#[derive(Clone, Debug, PartialEq, Eq)]
pub struct DisplayIdentity {
    pub make: String,
    pub model: String,
    pub serial: String,
}

impl View for DisplayIdentity {
    type V = Identity;

    open spec fn view(&self) -> Identity {
        Identity { make: self.make@, model: self.model@, serial: self.serial@ }
    }
}

/// The geometry of an enabled display as a mathematical value.
#[verifier::ext_equal]
pub struct ConfigView {
    pub width: int,
    pub height: int,
    pub refresh_rate: Seq<char>,
    pub x: int,
    pub y: int,
    pub scale: Seq<char>,
    pub transform: int,
    pub vrr: bool,
}

/// The geometry of an enabled display.
///
/// The two real-valued settings, `refresh_rate` and `scale`, are kept in their
/// decimal text form, which is how the output-management tools print and
/// accept them. `transform` is a code from 0 to 7: 0 is the identity, 1 to 3
/// are rotations by 90, 180 and 270 degrees, 4 is a horizontal flip and 5 to 7
/// are the flip followed by those rotations.
#[derive(Debug, PartialEq, Eq)]
pub struct HeadConfig {
    pub width: i32,
    pub height: i32,
    pub refresh_rate: String,
    pub x: i32,
    pub y: i32,
    pub scale: String,
    pub transform: i32,
    pub vrr: bool,
}

impl View for HeadConfig {
    type V = ConfigView;

    open spec fn view(&self) -> ConfigView {
        ConfigView {
            width: self.width as int,
            height: self.height as int,
            refresh_rate: self.refresh_rate@,
            x: self.x as int,
            y: self.y as int,
            scale: self.scale@,
            transform: self.transform as int,
            vrr: self.vrr,
        }
    }
}

impl Clone for HeadConfig {
    fn clone(&self) -> (copy: Self)
        ensures
            copy == *self,
    {
        HeadConfig {
            width: self.width,
            height: self.height,
            refresh_rate: self.refresh_rate.clone(),
            x: self.x,
            y: self.y,
            scale: self.scale.clone(),
            transform: self.transform,
            vrr: self.vrr,
        }
    }
}

/// A display mode as a mathematical value.
#[verifier::ext_equal]
pub struct ModeView {
    pub width: int,
    pub height: int,
    pub refresh_rate: Seq<char>,
}

/// A display mode: a resolution and a refresh rate in decimal text form.
#[derive(Debug, PartialEq, Eq)]
pub struct HeadMode {
    pub width: i32,
    pub height: i32,
    pub refresh_rate: String,
}

impl View for HeadMode {
    type V = ModeView;

    open spec fn view(&self) -> ModeView {
        ModeView {
            width: self.width as int,
            height: self.height as int,
            refresh_rate: self.refresh_rate@,
        }
    }
}

impl Clone for HeadMode {
    fn clone(&self) -> (copy: Self)
        ensures
            copy == *self,
    {
        HeadMode {
            width: self.width,
            height: self.height,
            refresh_rate: self.refresh_rate.clone(),
        }
    }
}

/// A display as a mathematical value.
#[verifier::ext_equal]
pub struct HeadView {
    pub name: Option<Seq<char>>,
    pub identity: Identity,
    pub config: Option<ConfigView>,
}

/// A display: its hardware identity, the name the compositor gives it in this
/// session (absent in a saved record), and its geometry (absent when the
/// display is disabled).
#[derive(Debug, PartialEq, Eq)]
pub struct Head {
    pub name: Option<String>,
    pub make: String,
    pub model: String,
    pub serial: String,
    pub config: Option<HeadConfig>,
}

/// The view of an optional text.
pub open spec fn text_view(text: Option<String>) -> Option<Seq<char>> {
    match text {
        Some(t) => Some(t@),
        None => None,
    }
}

/// The view of an optional geometry.
pub open spec fn config_view(config: Option<HeadConfig>) -> Option<ConfigView> {
    match config {
        Some(c) => Some(c@),
        None => None,
    }
}

impl View for Head {
    type V = HeadView;

    open spec fn view(&self) -> HeadView {
        HeadView {
            name: text_view(self.name),
            identity: self.identity(),
            config: config_view(self.config),
        }
    }
}

impl Head {
    /// The hardware identity of this display.
    pub open spec fn identity(&self) -> Identity {
        Identity { make: self.make@, model: self.model@, serial: self.serial@ }
    }

    /// Copies the hardware identity out of this display.
    pub fn display_identity(&self) -> (id: DisplayIdentity)
        ensures
            id@ == self.identity(),
    {
        DisplayIdentity {
            make: self.make.clone(),
            model: self.model.clone(),
            serial: self.serial.clone(),
        }
    }
}

impl Clone for Head {
    fn clone(&self) -> (copy: Self)
        ensures
            copy == *self,
    {
        Head {
            name: match &self.name {
                Some(n) => Some(n.clone()),
                None => None,
            },
            make: self.make.clone(),
            model: self.model.clone(),
            serial: self.serial.clone(),
            config: match &self.config {
                Some(c) => Some(c.clone()),
                None => None,
            },
        }
    }
}

/// Copies the displays into a list of their own.
pub fn copy_heads(heads: &[Head]) -> (copy: Vec<Head>)
    ensures
        copy@ == heads@,
{
    let mut copy: Vec<Head> = Vec::new();
    let n = heads.len();
    let mut i: usize = 0;
    while i < n
        invariant
            i <= n,
            n == heads.len(),
            copy@ == heads@.take(i as int),
        decreases n - i,
    {
        copy.push(heads[i].clone());
        proof {
            assert(copy@ =~= heads@.take(i + 1));
        }
        i += 1;
    }
    proof {
        assert(heads@.take(n as int) =~= heads@);
    }
    copy
}

/// The name of a display, empty where it has none.
pub open spec fn name_or_empty(head: HeadView) -> Seq<char> {
    match head.name {
        Some(name) => name,
        None => Seq::empty(),
    }
}

/// The views of a sequence of displays, in the same order.
pub open spec fn head_views(heads: Seq<Head>) -> Seq<HeadView> {
    heads.map_values(|h: Head| h@)
}

/// The views of a sequence of texts, in the same order.
pub open spec fn text_views(texts: Seq<String>) -> Seq<Seq<char>> {
    texts.map_values(|t: String| t@)
}

} // verus!
