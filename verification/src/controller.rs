//! Controller type detection.
//!
//! Functions to identify controller types based on USB VID/PID.

use crate::usb_ids::USB_PRODUCT_8BITDO_XBOX_CONTROLLER;
use crate::usb_ids::USB_PRODUCT_GAMESIR_G7;
use crate::usb_ids::USB_PRODUCT_HORI_FIGHTING_COMMANDER_OCTA_SERIES_X;
use crate::usb_ids::USB_PRODUCT_HORI_HORIPAD_PRO_SERIES_X;
use crate::usb_ids::USB_PRODUCT_RAZER_WOLVERINE_V2;
use crate::usb_ids::USB_PRODUCT_RAZER_WOLVERINE_V2_CHROMA;
use crate::usb_ids::USB_PRODUCT_SONY_DS5_EDGE;
use crate::usb_ids::USB_PRODUCT_THRUSTMASTER_ESWAPX_PRO;
use crate::usb_ids::USB_PRODUCT_TURTLE_BEACH_SERIES_X_REACT_R;
use crate::usb_ids::USB_PRODUCT_TURTLE_BEACH_SERIES_X_RECON;
use crate::usb_ids::USB_PRODUCT_XBOX_ONE_ELITE_SERIES_1;
use crate::usb_ids::USB_PRODUCT_XBOX_ONE_ELITE_SERIES_2;
use crate::usb_ids::USB_PRODUCT_XBOX_ONE_ELITE_SERIES_2_BLE;
use crate::usb_ids::USB_PRODUCT_XBOX_ONE_ELITE_SERIES_2_BLUETOOTH;
use crate::usb_ids::USB_PRODUCT_XBOX_SERIES_X;
use crate::usb_ids::USB_PRODUCT_XBOX_SERIES_X_BLE;
use crate::usb_ids::USB_PRODUCT_XBOX_SERIES_X_PDP_AFTERGLOW;
use crate::usb_ids::USB_PRODUCT_XBOX_SERIES_X_PDP_BLUE;
use crate::usb_ids::USB_PRODUCT_XBOX_SERIES_X_POWERA_FUSION_PRO2;
use crate::usb_ids::USB_PRODUCT_XBOX_SERIES_X_POWERA_MOGA_XP_ULTRA;
use crate::usb_ids::USB_PRODUCT_XBOX_SERIES_X_POWERA_SPECTRA;
use crate::usb_ids::USB_PRODUCT_XBOX_SERIES_X_VICTRIX_GAMBIT;
use crate::usb_ids::USB_VENDOR_8BITDO;
use crate::usb_ids::USB_VENDOR_GAMESIR;
use crate::usb_ids::USB_VENDOR_HORI;
use crate::usb_ids::USB_VENDOR_MICROSOFT;
use crate::usb_ids::USB_VENDOR_PDP;
use crate::usb_ids::USB_VENDOR_POWERA_ALT;
use crate::usb_ids::USB_VENDOR_RAZER;
use crate::usb_ids::USB_VENDOR_SONY;
use crate::usb_ids::USB_VENDOR_THRUSTMASTER;
use crate::usb_ids::USB_VENDOR_TURTLE_BEACH;
use vstd::prelude::*;

verus! {

/// Controller class reported for an unknown controller.
pub const LI_CTYPE_UNKNOWN: i8 = 0;

/// Controller class of Xbox controllers.
pub const LI_CTYPE_XBOX: i8 = 1;

/// Controller class of PlayStation controllers.
pub const LI_CTYPE_PS: i8 = 2;

/// Controller class of Nintendo controllers.
pub const LI_CTYPE_NINTENDO: i8 = 3;

/// Controller type enum (from Valve's controller_type.h).
#[derive(Clone, Copy, PartialEq, Eq, Debug, Structural)]
pub enum ControllerType {
    NoController,
    Unknown,
    // Steam Controllers
    UnknownSteamController,
    SteamController,
    SteamControllerV2,
    // Other Controllers
    UnknownNonSteamController,
    XBox360Controller,
    XBoxOneController,
    PS3Controller,
    PS4Controller,
    WiiController,
    AppleController,
    AndroidController,
    SwitchProController,
    SwitchJoyConLeft,
    SwitchJoyConRight,
    SwitchJoyConPair,
    SwitchInputOnlyController,
    MobileTouch,
    XInputSwitchController,
    PS5Controller,
    XInputPS4Controller,
}

impl ControllerType {
    /// The number of the type in Valve's table.
    pub open spec fn code_spec(self) -> i32 {
        match self {
            ControllerType::NoController => -1i32,
            ControllerType::Unknown => 0,
            ControllerType::UnknownSteamController => 1,
            ControllerType::SteamController => 2,
            ControllerType::SteamControllerV2 => 3,
            ControllerType::UnknownNonSteamController => 30,
            ControllerType::XBox360Controller => 31,
            ControllerType::XBoxOneController => 32,
            ControllerType::PS3Controller => 33,
            ControllerType::PS4Controller => 34,
            ControllerType::WiiController => 35,
            ControllerType::AppleController => 36,
            ControllerType::AndroidController => 37,
            ControllerType::SwitchProController => 38,
            ControllerType::SwitchJoyConLeft => 39,
            ControllerType::SwitchJoyConRight => 40,
            ControllerType::SwitchJoyConPair => 41,
            ControllerType::SwitchInputOnlyController => 42,
            ControllerType::MobileTouch => 43,
            ControllerType::XInputSwitchController => 44,
            ControllerType::PS5Controller => 45,
            ControllerType::XInputPS4Controller => 46,
        }
    }

    /// The number of the type in Valve's table.
    pub fn code(self) -> (code: i32)
        ensures
            code == self.code_spec(),
    {
        match self {
            ControllerType::NoController => -1,
            ControllerType::Unknown => 0,
            ControllerType::UnknownSteamController => 1,
            ControllerType::SteamController => 2,
            ControllerType::SteamControllerV2 => 3,
            ControllerType::UnknownNonSteamController => 30,
            ControllerType::XBox360Controller => 31,
            ControllerType::XBoxOneController => 32,
            ControllerType::PS3Controller => 33,
            ControllerType::PS4Controller => 34,
            ControllerType::WiiController => 35,
            ControllerType::AppleController => 36,
            ControllerType::AndroidController => 37,
            ControllerType::SwitchProController => 38,
            ControllerType::SwitchJoyConLeft => 39,
            ControllerType::SwitchJoyConRight => 40,
            ControllerType::SwitchJoyConPair => 41,
            ControllerType::SwitchInputOnlyController => 42,
            ControllerType::MobileTouch => 43,
            ControllerType::XInputSwitchController => 44,
            ControllerType::PS5Controller => 45,
            ControllerType::XInputPS4Controller => 46,
        }
    }

    /// The controller class a controller of this type is reported as.
    pub open spec fn class_spec(self) -> i8 {
        match self {
            ControllerType::XBox360Controller | ControllerType::XBoxOneController => LI_CTYPE_XBOX,
            ControllerType::PS3Controller
            | ControllerType::PS4Controller
            | ControllerType::PS5Controller => LI_CTYPE_PS,
            ControllerType::WiiController
            | ControllerType::SwitchProController
            | ControllerType::SwitchJoyConLeft
            | ControllerType::SwitchJoyConRight
            | ControllerType::SwitchJoyConPair
            | ControllerType::SwitchInputOnlyController => LI_CTYPE_NINTENDO,
            _ => LI_CTYPE_UNKNOWN,
        }
    }

    /// The controller class a controller of this type is reported as.
    pub fn class(self) -> (class: i8)
        ensures
            class == self.class_spec(),
    {
        match self {
            ControllerType::XBox360Controller | ControllerType::XBoxOneController => LI_CTYPE_XBOX,
            ControllerType::PS3Controller
            | ControllerType::PS4Controller
            | ControllerType::PS5Controller => LI_CTYPE_PS,
            ControllerType::WiiController
            | ControllerType::SwitchProController
            | ControllerType::SwitchJoyConLeft
            | ControllerType::SwitchJoyConRight
            | ControllerType::SwitchJoyConPair
            | ControllerType::SwitchInputOnlyController => LI_CTYPE_NINTENDO,
            _ => LI_CTYPE_UNKNOWN,
        }
    }
}

/// Controller description entry.
#[derive(Clone, Copy, Debug)]
pub struct ControllerDescription {
    pub device_id: u32,
    pub controller_type: ControllerType,
    pub name: Option<&'static str>,
}

/// The device ID of a vendor and product ID: the vendor ID in the upper 16
/// bits, the product ID in the lower.
pub open spec fn controller_id(vid: u16, pid: u16) -> u32 {
    (vid as int * 0x1_0000 + pid as int) as u32
}

/// Create a device ID from vendor and product ID.
pub fn make_controller_id(vid: u16, pid: u16) -> (id: u32)
    ensures
        id == controller_id(vid, pid),
{
    let id: u32 = ((vid as u32) << 16) | (pid as u32);
    assert(id == vid as u32 * 0x1_0000 + pid as u32) by (bit_vector)
        requires
            id == ((vid as u32) << 16) | (pid as u32),
    ;
    id
}

/// Whether the IDs name an Xbox One Elite controller.
pub open spec fn xbox_one_elite(vendor_id: u16, product_id: u16) -> bool {
    vendor_id == USB_VENDOR_MICROSOFT && (product_id == USB_PRODUCT_XBOX_ONE_ELITE_SERIES_1
        || product_id == USB_PRODUCT_XBOX_ONE_ELITE_SERIES_2 || product_id
        == USB_PRODUCT_XBOX_ONE_ELITE_SERIES_2_BLUETOOTH || product_id
        == USB_PRODUCT_XBOX_ONE_ELITE_SERIES_2_BLE)
}

/// Check if joystick is Xbox One Elite.
pub fn is_joystick_xbox_one_elite(vendor_id: u16, product_id: u16) -> (elite: bool)
    ensures
        elite == xbox_one_elite(vendor_id, product_id),
{
    if vendor_id == USB_VENDOR_MICROSOFT {
        product_id == USB_PRODUCT_XBOX_ONE_ELITE_SERIES_1 || product_id
            == USB_PRODUCT_XBOX_ONE_ELITE_SERIES_2 || product_id
            == USB_PRODUCT_XBOX_ONE_ELITE_SERIES_2_BLUETOOTH || product_id
            == USB_PRODUCT_XBOX_ONE_ELITE_SERIES_2_BLE
    } else {
        false
    }
}

/// Whether the IDs name an Xbox Series X controller, by vendor: the
/// controllers of Microsoft itself and the licensed ones of PDP, PowerA (whose
/// products 0x2001 to 0x201a all count), Hori, Razer, Thrustmaster, Turtle
/// Beach, 8BitDo and GameSir.
pub open spec fn xbox_series_x(vendor_id: u16, product_id: u16) -> bool {
    if vendor_id == USB_VENDOR_MICROSOFT {
        product_id == USB_PRODUCT_XBOX_SERIES_X || product_id == USB_PRODUCT_XBOX_SERIES_X_BLE
    } else if vendor_id == USB_VENDOR_PDP {
        product_id == USB_PRODUCT_XBOX_SERIES_X_VICTRIX_GAMBIT || product_id
            == USB_PRODUCT_XBOX_SERIES_X_PDP_BLUE || product_id
            == USB_PRODUCT_XBOX_SERIES_X_PDP_AFTERGLOW
    } else if vendor_id == USB_VENDOR_POWERA_ALT {
        (0x2001 <= product_id <= 0x201a) || product_id
            == USB_PRODUCT_XBOX_SERIES_X_POWERA_FUSION_PRO2 || product_id
            == USB_PRODUCT_XBOX_SERIES_X_POWERA_MOGA_XP_ULTRA || product_id
            == USB_PRODUCT_XBOX_SERIES_X_POWERA_SPECTRA
    } else if vendor_id == USB_VENDOR_HORI {
        product_id == USB_PRODUCT_HORI_FIGHTING_COMMANDER_OCTA_SERIES_X || product_id
            == USB_PRODUCT_HORI_HORIPAD_PRO_SERIES_X
    } else if vendor_id == USB_VENDOR_RAZER {
        product_id == USB_PRODUCT_RAZER_WOLVERINE_V2 || product_id
            == USB_PRODUCT_RAZER_WOLVERINE_V2_CHROMA
    } else if vendor_id == USB_VENDOR_THRUSTMASTER {
        product_id == USB_PRODUCT_THRUSTMASTER_ESWAPX_PRO
    } else if vendor_id == USB_VENDOR_TURTLE_BEACH {
        product_id == USB_PRODUCT_TURTLE_BEACH_SERIES_X_REACT_R || product_id
            == USB_PRODUCT_TURTLE_BEACH_SERIES_X_RECON
    } else if vendor_id == USB_VENDOR_8BITDO {
        product_id == USB_PRODUCT_8BITDO_XBOX_CONTROLLER
    } else if vendor_id == USB_VENDOR_GAMESIR {
        product_id == USB_PRODUCT_GAMESIR_G7
    } else {
        false
    }
}

/// Check if joystick is Xbox Series X.
pub fn is_joystick_xbox_series_x(vendor_id: u16, product_id: u16) -> (series_x: bool)
    ensures
        series_x == xbox_series_x(vendor_id, product_id),
{
    if vendor_id == USB_VENDOR_MICROSOFT {
        product_id == USB_PRODUCT_XBOX_SERIES_X || product_id == USB_PRODUCT_XBOX_SERIES_X_BLE
    } else if vendor_id == USB_VENDOR_PDP {
        product_id == USB_PRODUCT_XBOX_SERIES_X_VICTRIX_GAMBIT || product_id
            == USB_PRODUCT_XBOX_SERIES_X_PDP_BLUE || product_id
            == USB_PRODUCT_XBOX_SERIES_X_PDP_AFTERGLOW
    } else if vendor_id == USB_VENDOR_POWERA_ALT {
        (product_id >= 0x2001 && product_id <= 0x201a) || product_id
            == USB_PRODUCT_XBOX_SERIES_X_POWERA_FUSION_PRO2 || product_id
            == USB_PRODUCT_XBOX_SERIES_X_POWERA_MOGA_XP_ULTRA || product_id
            == USB_PRODUCT_XBOX_SERIES_X_POWERA_SPECTRA
    } else if vendor_id == USB_VENDOR_HORI {
        product_id == USB_PRODUCT_HORI_FIGHTING_COMMANDER_OCTA_SERIES_X || product_id
            == USB_PRODUCT_HORI_HORIPAD_PRO_SERIES_X
    } else if vendor_id == USB_VENDOR_RAZER {
        product_id == USB_PRODUCT_RAZER_WOLVERINE_V2 || product_id
            == USB_PRODUCT_RAZER_WOLVERINE_V2_CHROMA
    } else if vendor_id == USB_VENDOR_THRUSTMASTER {
        product_id == USB_PRODUCT_THRUSTMASTER_ESWAPX_PRO
    } else if vendor_id == USB_VENDOR_TURTLE_BEACH {
        product_id == USB_PRODUCT_TURTLE_BEACH_SERIES_X_REACT_R || product_id
            == USB_PRODUCT_TURTLE_BEACH_SERIES_X_RECON
    } else if vendor_id == USB_VENDOR_8BITDO {
        product_id == USB_PRODUCT_8BITDO_XBOX_CONTROLLER
    } else if vendor_id == USB_VENDOR_GAMESIR {
        product_id == USB_PRODUCT_GAMESIR_G7
    } else {
        false
    }
}

/// Check if joystick is DualSense Edge.
pub fn is_joystick_dualsense_edge(vendor_id: u16, product_id: u16) -> (edge: bool)
    ensures
        edge == (vendor_id == USB_VENDOR_SONY && product_id == USB_PRODUCT_SONY_DS5_EDGE),
{
    vendor_id == USB_VENDOR_SONY && product_id == USB_PRODUCT_SONY_DS5_EDGE
}

/// The known controllers: device ID and type of each, in table order.
pub open spec fn known_controllers() -> Seq<(u32, ControllerType)> {
    seq![
        (controller_id(0x054c, 0x0268), ControllerType::PS3Controller),
        (controller_id(0x054c, 0x05c4), ControllerType::PS4Controller),
        (controller_id(0x054c, 0x09cc), ControllerType::PS4Controller),
        (controller_id(0x054c, 0x0ba0), ControllerType::PS4Controller),
        (controller_id(0x054c, 0x0ce6), ControllerType::PS5Controller),
        (controller_id(0x054c, 0x0df2), ControllerType::PS5Controller),
        (controller_id(0x045e, 0x028e), ControllerType::XBox360Controller),
        (controller_id(0x045e, 0x028f), ControllerType::XBox360Controller),
        (controller_id(0x045e, 0x0719), ControllerType::XBox360Controller),
        (controller_id(0x045e, 0x02dd), ControllerType::XBoxOneController),
        (controller_id(0x045e, 0x02e3), ControllerType::XBoxOneController),
        (controller_id(0x045e, 0x02ea), ControllerType::XBoxOneController),
        (controller_id(0x045e, 0x0b00), ControllerType::XBoxOneController),
        (controller_id(0x045e, 0x0b12), ControllerType::XBoxOneController),
        (controller_id(0x057e, 0x2006), ControllerType::SwitchJoyConLeft),
        (controller_id(0x057e, 0x2007), ControllerType::SwitchJoyConRight),
        (controller_id(0x057e, 0x2009), ControllerType::SwitchProController),
    ]
}

/// Device ID and type of each entry of a controller list.
pub open spec fn entries(list: Seq<ControllerDescription>) -> Seq<(u32, ControllerType)> {
    list.map_values(|c: ControllerDescription| (c.device_id, c.controller_type))
}

/// One entry of the controller list.
fn describe(vid: u16, pid: u16, controller_type: ControllerType, name: Option<&'static str>) -> (c:
    ControllerDescription)
    ensures
        c.device_id == controller_id(vid, pid),
        c.controller_type == controller_type,
        c.name == name,
{
    ControllerDescription { device_id: make_controller_id(vid, pid), controller_type, name }
}

/// Controller list: the most common controllers.
pub fn controllers() -> (list: Vec<ControllerDescription>)
    ensures
        entries(list@) == known_controllers(),
{
    let mut list: Vec<ControllerDescription> = Vec::new();
    // PS3 Controllers
    list.push(describe(0x054c, 0x0268, ControllerType::PS3Controller, None));
    // PS4 Controllers
    list.push(describe(0x054c, 0x05c4, ControllerType::PS4Controller, None));
    list.push(describe(0x054c, 0x09cc, ControllerType::PS4Controller, None));
    list.push(describe(0x054c, 0x0ba0, ControllerType::PS4Controller, None));
    // PS5 Controllers
    list.push(describe(0x054c, 0x0ce6, ControllerType::PS5Controller, None));
    list.push(describe(0x054c, 0x0df2, ControllerType::PS5Controller, None));
    // Xbox 360 Controllers
    list.push(
        describe(0x045e, 0x028e, ControllerType::XBox360Controller, Some("Xbox 360 Controller")),
    );
    list.push(
        describe(0x045e, 0x028f, ControllerType::XBox360Controller, Some("Xbox 360 Controller")),
    );
    list.push(
        describe(
            0x045e,
            0x0719,
            ControllerType::XBox360Controller,
            Some("Xbox 360 Wireless Controller"),
        ),
    );
    // Xbox One Controllers
    list.push(
        describe(0x045e, 0x02dd, ControllerType::XBoxOneController, Some("Xbox One Controller")),
    );
    list.push(
        describe(
            0x045e,
            0x02e3,
            ControllerType::XBoxOneController,
            Some("Xbox One Elite Controller"),
        ),
    );
    list.push(
        describe(0x045e, 0x02ea, ControllerType::XBoxOneController, Some("Xbox One S Controller")),
    );
    list.push(
        describe(
            0x045e,
            0x0b00,
            ControllerType::XBoxOneController,
            Some("Xbox One Elite 2 Controller"),
        ),
    );
    list.push(
        describe(
            0x045e,
            0x0b12,
            ControllerType::XBoxOneController,
            Some("Xbox Series X Controller"),
        ),
    );
    // Nintendo Controllers
    list.push(describe(0x057e, 0x2006, ControllerType::SwitchJoyConLeft, None));
    list.push(describe(0x057e, 0x2007, ControllerType::SwitchJoyConRight, None));
    list.push(describe(0x057e, 0x2009, ControllerType::SwitchProController, None));
    assert(entries(list@) =~= known_controllers());
    list
}

/// The class of the first entry from `from` on whose device ID is
/// `device_id`; unknown if there is none.
pub open spec fn class_of(table: Seq<(u32, ControllerType)>, device_id: u32, from: int) -> i8
    decreases table.len() - from,
{
    if from < 0 || from >= table.len() {
        LI_CTYPE_UNKNOWN
    } else if table[from].0 == device_id {
        table[from].1.class_spec()
    } else {
        class_of(table, device_id, from + 1)
    }
}

/// The 16 bits of a vendor or product ID handed over as a wider integer.
pub open spec fn low16(id: i32) -> u16 {
    id as u16
}

/// Guess the controller type from vendor and product ID: the class of the
/// first known controller with this device ID, unknown if there is none.
/// Only the low 16 bits of each ID count.
pub fn guess_controller_type(vendor_id: i32, product_id: i32) -> (class: i8)
    ensures
        class == class_of(
            known_controllers(),
            controller_id(low16(vendor_id), low16(product_id)),
            0,
        ),
{
    let vid: u16 = #[verifier::truncate]
    (vendor_id as u16);
    let pid: u16 = #[verifier::truncate]
    (product_id as u16);
    let device_id: u32 = make_controller_id(vid, pid);
    let list = controllers();
    let mut i: usize = 0;
    while i < list.len()
        invariant
            i <= list.len(),
            entries(list@) == known_controllers(),
            device_id == controller_id(low16(vendor_id), low16(product_id)),
            class_of(known_controllers(), device_id, i as int) == class_of(
                known_controllers(),
                device_id,
                0,
            ),
        decreases list.len() - i,
    {
        let controller = &list[i];
        assert(entries(list@)[i as int] == (controller.device_id, controller.controller_type));
        if device_id == controller.device_id {
            return controller.controller_type.class();
        }
        i = i + 1;
    }
    LI_CTYPE_UNKNOWN
}

/// Check if controller has paddles (Xbox Elite or DualSense Edge).
pub fn guess_controller_has_paddles(vendor_id: i32, product_id: i32) -> (paddles: bool)
    ensures
        paddles == (xbox_one_elite(low16(vendor_id), low16(product_id)) || (low16(vendor_id)
            == USB_VENDOR_SONY && low16(product_id) == USB_PRODUCT_SONY_DS5_EDGE)),
{
    let vid: u16 = #[verifier::truncate]
    (vendor_id as u16);
    let pid: u16 = #[verifier::truncate]
    (product_id as u16);
    is_joystick_xbox_one_elite(vid, pid) || is_joystick_dualsense_edge(vid, pid)
}

/// Check if controller has share button (Xbox Series X).
pub fn guess_controller_has_share_button(vendor_id: i32, product_id: i32) -> (share: bool)
    ensures
        share == xbox_series_x(low16(vendor_id), low16(product_id)),
{
    let vid: u16 = #[verifier::truncate]
    (vendor_id as u16);
    let pid: u16 = #[verifier::truncate]
    (product_id as u16);
    is_joystick_xbox_series_x(vid, pid)
}

} // verus!
