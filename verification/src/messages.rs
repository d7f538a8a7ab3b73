//! The window messages that mean something here.

use vstd::prelude::*;

verus! {

pub const WM_DESTROY: u32 = 0x0002;

pub const WM_SIZE: u32 = 0x0005;

pub const WM_ACTIVATE: u32 = 0x0006;

pub const WM_PAINT: u32 = 0x000F;

pub const WM_CLOSE: u32 = 0x0010;

pub const WM_ERASEBKGND: u32 = 0x0014;

pub const WM_GETMINMAXINFO: u32 = 0x0024;

pub const WM_DRAWITEM: u32 = 0x002B;

pub const WM_CONTEXTMENU: u32 = 0x007B;

pub const WM_NCCALCSIZE: u32 = 0x0083;

pub const WM_NCHITTEST: u32 = 0x0084;

pub const WM_KEYDOWN: u32 = 0x0100;

pub const WM_CHAR: u32 = 0x0102;

pub const WM_SYSKEYDOWN: u32 = 0x0104;

pub const WM_SYSCHAR: u32 = 0x0106;

pub const WM_COMMAND: u32 = 0x0111;

pub const WM_CTLCOLOREDIT: u32 = 0x0133;

pub const WM_CTLCOLORLISTBOX: u32 = 0x0134;

pub const WM_CTLCOLORSTATIC: u32 = 0x0138;

pub const WM_LBUTTONDOWN: u32 = 0x0201;

pub const WM_MOUSEWHEEL: u32 = 0x020A;

pub const WM_EXITSIZEMOVE: u32 = 0x0232;

pub const WM_DPICHANGED: u32 = 0x02E0;

pub const WM_HOTKEY: u32 = 0x0312;

pub const WM_CLIPBOARDUPDATE: u32 = 0x031D;

/// The first of the messages that no window of the system sends.
pub const WM_APP: u32 = 0x8000;

} // verus!
