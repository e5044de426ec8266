//! A safety layer over a native windowing runtime, modelled as a verified
//! state machine: opaque handles with a one-way lifecycle, reentrancy-safe
//! callback slots, recursion-counted dispatch state that is freed exactly
//! once, and liveness-checked window operations.

pub mod bitmap;
pub mod callback;
pub mod demo;
pub mod dispatch;
pub mod error;
pub mod handle;
pub mod source_model;
pub mod styles;
pub mod world;

pub use bitmap::Bitmap;
pub use error::Error;

use vstd::prelude::*;

verus! {

/// A colour as red, green, blue and alpha channels.
#[derive(Clone, Copy, Debug, PartialEq, Eq, Structural)]
pub struct Color(pub u8, pub u8, pub u8, pub u8);

/// The kind of child window to create.
#[derive(Clone, Debug)]
pub enum ChildType {
    /// A plain child window of the general class.
    Custom,
    /// A push button.
    Button,
    /// The default push button of its window.
    DefaultButton,
    /// A two-state checkbox.
    Checkbox,
    /// A three-state checkbox.
    TristateCheckbox,
    /// A group box.
    Groupbox,
    /// A radio button.
    Radio,
    /// An edit control with the given options.
    Edit(EditOptions),
}

/// Button behaviour options.
#[derive(Clone, Copy, Debug, PartialEq, Eq, Structural)]
pub struct ButtonOptions {
    pub pushbutton: bool,
    pub default_pushbutton: bool,
    pub checkbox: bool,
    pub tristate: bool,
}

/// Edit-control behaviour options.
#[derive(Clone, Copy, Debug, Default, PartialEq, Eq, Structural)]
pub struct EditOptions {
    pub border: bool,
    pub hscroll: bool,
    pub vscroll: bool,
    pub auto_hscroll: bool,
    pub auto_vscroll: bool,
    pub center: bool,
    pub lower_case: bool,
    pub multiline: bool,
    pub password: bool,
    pub readonly: bool,
    pub uppercase: bool,
    pub want_return: bool,
}

} // verus!
