//! USB vendor and product IDs for controller identification.
//!
//! These constants are used to identify specific controller types by their
//! USB VID/PID.

use vstd::prelude::*;

verus! {


// Vendors
pub const USB_VENDOR_8BITDO: u16 = 0x2dc8;
pub const USB_VENDOR_AMAZON: u16 = 0x1949;
pub const USB_VENDOR_APPLE: u16 = 0x05ac;
pub const USB_VENDOR_ASTRO: u16 = 0x9886;
pub const USB_VENDOR_BACKBONE: u16 = 0x358a;
pub const USB_VENDOR_GAMESIR: u16 = 0x3537;
pub const USB_VENDOR_DRAGONRISE: u16 = 0x0079;
pub const USB_VENDOR_GOOGLE: u16 = 0x18d1;
pub const USB_VENDOR_HORI: u16 = 0x0f0d;
pub const USB_VENDOR_HYPERKIN: u16 = 0x2e24;
pub const USB_VENDOR_LOGITECH: u16 = 0x046d;
pub const USB_VENDOR_MADCATZ: u16 = 0x0738;
pub const USB_VENDOR_MICROSOFT: u16 = 0x045e;
pub const USB_VENDOR_NACON: u16 = 0x146b;
pub const USB_VENDOR_NINTENDO: u16 = 0x057e;
pub const USB_VENDOR_NVIDIA: u16 = 0x0955;
pub const USB_VENDOR_PDP: u16 = 0x0e6f;
pub const USB_VENDOR_POWERA: u16 = 0x24c6;
pub const USB_VENDOR_POWERA_ALT: u16 = 0x20d6;
pub const USB_VENDOR_QANBA: u16 = 0x2c22;
pub const USB_VENDOR_RAZER: u16 = 0x1532;
pub const USB_VENDOR_SAITEK: u16 = 0x06a3;
pub const USB_VENDOR_SHANWAN: u16 = 0x2563;
pub const USB_VENDOR_SHANWAN_ALT: u16 = 0x20bc;
pub const USB_VENDOR_SONY: u16 = 0x054c;
pub const USB_VENDOR_THRUSTMASTER: u16 = 0x044f;
pub const USB_VENDOR_TURTLE_BEACH: u16 = 0x10f5;
pub const USB_VENDOR_VALVE: u16 = 0x28de;
pub const USB_VENDOR_ZEROPLUS: u16 = 0x0c12;

// Products - Xbox
pub const USB_PRODUCT_8BITDO_XBOX_CONTROLLER: u16 = 0x2002;
pub const USB_PRODUCT_XBOX_ONE_ELITE_SERIES_1: u16 = 0x02e3;
pub const USB_PRODUCT_XBOX_ONE_ELITE_SERIES_2: u16 = 0x0b00;
pub const USB_PRODUCT_XBOX_ONE_ELITE_SERIES_2_BLUETOOTH: u16 = 0x0b05;
pub const USB_PRODUCT_XBOX_ONE_ELITE_SERIES_2_BLE: u16 = 0x0b22;
pub const USB_PRODUCT_XBOX_SERIES_X: u16 = 0x0b12;
pub const USB_PRODUCT_XBOX_SERIES_X_BLE: u16 = 0x0b13;
pub const USB_PRODUCT_XBOX_SERIES_X_VICTRIX_GAMBIT: u16 = 0x02d6;
pub const USB_PRODUCT_XBOX_SERIES_X_PDP_BLUE: u16 = 0x02d9;
pub const USB_PRODUCT_XBOX_SERIES_X_PDP_AFTERGLOW: u16 = 0x02da;
pub const USB_PRODUCT_XBOX_SERIES_X_POWERA_FUSION_PRO2: u16 = 0x4001;
pub const USB_PRODUCT_XBOX_SERIES_X_POWERA_MOGA_XP_ULTRA: u16 = 0x890b;
pub const USB_PRODUCT_XBOX_SERIES_X_POWERA_SPECTRA: u16 = 0x4002;

// Products - Hori
pub const USB_PRODUCT_HORI_FIGHTING_COMMANDER_OCTA_SERIES_X: u16 = 0x0150;
pub const USB_PRODUCT_HORI_HORIPAD_PRO_SERIES_X: u16 = 0x014f;

// Products - Razer
pub const USB_PRODUCT_RAZER_WOLVERINE_V2: u16 = 0x0a29;
pub const USB_PRODUCT_RAZER_WOLVERINE_V2_CHROMA: u16 = 0x0a2e;

// Products - Turtle Beach
pub const USB_PRODUCT_TURTLE_BEACH_SERIES_X_REACT_R: u16 = 0x7013;
pub const USB_PRODUCT_TURTLE_BEACH_SERIES_X_RECON: u16 = 0x7009;

// Products - Thrustmaster
pub const USB_PRODUCT_THRUSTMASTER_ESWAPX_PRO: u16 = 0xd012;

// Products - GameSir
pub const USB_PRODUCT_GAMESIR_G7: u16 = 0x1001;

// Products - Sony
pub const USB_PRODUCT_SONY_DS5_EDGE: u16 = 0x0df2;

} // verus!
