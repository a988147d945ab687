//! Linux input event codes and uinput request numbers.
//!
//! The event codes are those of `linux/input-event-codes.h`; the request
//! numbers are those of x86_64 and aarch64 Linux.

use vstd::prelude::*;

verus! {

pub const EV_SYN: u16 = 0x00;

pub const EV_KEY: u16 = 0x01;

pub const EV_REL: u16 = 0x02;

pub const SYN_REPORT: u16 = 0x00;

pub const REL_X: u16 = 0x00;

pub const REL_Y: u16 = 0x01;

pub const REL_HWHEEL: u16 = 0x06;

pub const REL_WHEEL: u16 = 0x08;

pub const REL_WHEEL_HI_RES: u16 = 0x0b;

pub const REL_HWHEEL_HI_RES: u16 = 0x0c;

pub const BTN_LEFT: u16 = 0x110;

pub const BTN_RIGHT: u16 = 0x111;

pub const BTN_MIDDLE: u16 = 0x112;

pub const BTN_SIDE: u16 = 0x113;

pub const BTN_EXTRA: u16 = 0x114;

pub const BTN_FORWARD: u16 = 0x115;

pub const BTN_BACK: u16 = 0x116;

pub const BTN_TASK: u16 = 0x117;

pub const UI_SET_EVBIT: u64 = 0x4004_5564;

pub const UI_SET_KEYBIT: u64 = 0x4004_5565;

pub const UI_SET_RELBIT: u64 = 0x4004_5566;

pub const UI_SET_PROPBIT: u64 = 0x4004_5570;

pub const UI_DEV_CREATE: u64 = 0x5501;

pub const UI_DEV_DESTROY: u64 = 0x5502;

pub const EVIOCGRAB: u64 = 0x4004_4590;

pub const INPUT_PROP_POINTER: i32 = 0x00;

pub const BUS_USB: u16 = 0x03;

} // verus!
