//! Native style flags for the window kinds the library creates.
//!
//! A creation request carries a style word and an extended style word, and
//! for native controls the name of the control class.  Mapping the
//! library's option types to those words is pure bit arithmetic and is
//! specified exactly.

use vstd::prelude::*;
use crate::{ChildType, EditOptions};

verus! {

pub const WS_OVERLAPPEDWINDOW: u32 = 0x00CF0000;
pub const WS_VISIBLE: u32 = 0x10000000;
pub const WS_CLIPCHILDREN: u32 = 0x02000000;
pub const WS_CLIPSIBLINGS: u32 = 0x04000000;
pub const WS_CHILD: u32 = 0x40000000;
pub const WS_BORDER: u32 = 0x00800000;
pub const WS_HSCROLL: u32 = 0x00100000;
pub const WS_VSCROLL: u32 = 0x00200000;

pub const WS_EX_OVERLAPPEDWINDOW: u32 = 0x00000300;
pub const WS_EX_CONTROLPARENT: u32 = 0x00010000;

pub const ES_CENTER: u32 = 0x0001;
pub const ES_MULTILINE: u32 = 0x0004;
pub const ES_UPPERCASE: u32 = 0x0008;
pub const ES_LOWERCASE: u32 = 0x0010;
pub const ES_PASSWORD: u32 = 0x0020;
pub const ES_AUTOVSCROLL: u32 = 0x0040;
pub const ES_AUTOHSCROLL: u32 = 0x0080;
pub const ES_READONLY: u32 = 0x0800;
pub const ES_WANTRETURN: u32 = 0x1000;

pub const BS_PUSHBUTTON: u32 = 0x0000;
pub const BS_DEFPUSHBUTTON: u32 = 0x0001;
pub const BS_CHECKBOX: u32 = 0x0002;
pub const BS_RADIOBUTTON: u32 = 0x0004;
pub const BS_3STATE: u32 = 0x0005;
pub const BS_GROUPBOX: u32 = 0x0007;

/// The native window class a creation request names.
#[derive(Clone, Copy, Debug, PartialEq, Eq, Structural)]
pub enum NativeClass {
    /// The library's own general-purpose window class.
    General,
    /// The native button control class.
    Button,
    /// The native edit control class.
    Edit,
}

/// The style word an edit control is created with.
pub open spec fn spec_edit_style(o: EditOptions) -> u32 {
    WS_CHILD
        | (if o.border { WS_BORDER } else { 0 })
        | (if o.hscroll { WS_HSCROLL } else { 0 })
        | (if o.vscroll { WS_VSCROLL } else { 0 })
        | (if o.auto_hscroll { ES_AUTOHSCROLL } else { 0 })
        | (if o.auto_vscroll { ES_AUTOVSCROLL } else { 0 })
        | (if o.center { ES_CENTER } else { 0 })
        | (if o.lower_case { ES_LOWERCASE } else { 0 })
        | (if o.multiline { ES_MULTILINE } else { 0 })
        | (if o.password { ES_PASSWORD } else { 0 })
        | (if o.readonly { ES_READONLY } else { 0 })
        | (if o.uppercase { ES_UPPERCASE } else { 0 })
        | (if o.want_return { ES_WANTRETURN } else { 0 })
}

/// The native style word for the given edit-control options.
pub fn edit_options(opts: EditOptions) -> (r: u32)
    ensures
        r == spec_edit_style(opts),
{
    WS_CHILD
        | (if opts.border { WS_BORDER } else { 0 })
        | (if opts.hscroll { WS_HSCROLL } else { 0 })
        | (if opts.vscroll { WS_VSCROLL } else { 0 })
        | (if opts.auto_hscroll { ES_AUTOHSCROLL } else { 0 })
        | (if opts.auto_vscroll { ES_AUTOVSCROLL } else { 0 })
        | (if opts.center { ES_CENTER } else { 0 })
        | (if opts.lower_case { ES_LOWERCASE } else { 0 })
        | (if opts.multiline { ES_MULTILINE } else { 0 })
        | (if opts.password { ES_PASSWORD } else { 0 })
        | (if opts.readonly { ES_READONLY } else { 0 })
        | (if opts.uppercase { ES_UPPERCASE } else { 0 })
        | (if opts.want_return { ES_WANTRETURN } else { 0 })
}

/// The class and style word a child of the given kind is created with.
pub open spec fn spec_child_request(ty: ChildType) -> (NativeClass, u32) {
    match ty {
        ChildType::Custom => (NativeClass::General, WS_CHILD | WS_VISIBLE | WS_CLIPSIBLINGS),
        ChildType::Button => (NativeClass::Button, WS_VISIBLE | WS_CHILD | BS_PUSHBUTTON),
        ChildType::DefaultButton => (NativeClass::Button, WS_VISIBLE | WS_CHILD | BS_DEFPUSHBUTTON),
        ChildType::Checkbox => (NativeClass::Button, WS_VISIBLE | WS_CHILD | BS_CHECKBOX),
        ChildType::TristateCheckbox => (NativeClass::Button, WS_VISIBLE | WS_CHILD | BS_3STATE),
        ChildType::Groupbox => (NativeClass::Button, WS_VISIBLE | WS_CHILD | BS_GROUPBOX),
        ChildType::Radio => (NativeClass::Button, WS_VISIBLE | WS_CHILD | BS_RADIOBUTTON),
        ChildType::Edit(o) => (NativeClass::Edit, WS_VISIBLE | WS_CHILD | spec_edit_style(o)),
    }
}

/// The creation request a child kind issues: the native class to
/// instantiate and the style word to pass.
pub fn child_request(ty: &ChildType) -> (r: (NativeClass, u32))
    ensures
        r == spec_child_request(*ty),
{
    match ty {
        ChildType::Custom => (NativeClass::General, WS_CHILD | WS_VISIBLE | WS_CLIPSIBLINGS),
        ChildType::Button => (NativeClass::Button, WS_VISIBLE | WS_CHILD | BS_PUSHBUTTON),
        ChildType::DefaultButton => (NativeClass::Button, WS_VISIBLE | WS_CHILD | BS_DEFPUSHBUTTON),
        ChildType::Checkbox => (NativeClass::Button, WS_VISIBLE | WS_CHILD | BS_CHECKBOX),
        ChildType::TristateCheckbox => (NativeClass::Button, WS_VISIBLE | WS_CHILD | BS_3STATE),
        ChildType::Groupbox => (NativeClass::Button, WS_VISIBLE | WS_CHILD | BS_GROUPBOX),
        ChildType::Radio => (NativeClass::Button, WS_VISIBLE | WS_CHILD | BS_RADIOBUTTON),
        ChildType::Edit(o) => (NativeClass::Edit, WS_VISIBLE | WS_CHILD | edit_options(*o)),
    }
}

} // verus!
