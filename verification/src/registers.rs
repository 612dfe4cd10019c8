//! Register pages of the coprocessor and the offsets of the registers that
//! the driver's callers most often need.

use vstd::prelude::*;

verus! {

/// The hardcoded configuration page.
pub const PAGE_CONFIG: u8 = 0;

/// Page of dynamic statuses.
pub const PAGE_STATUS: u8 = 1;

/// Premixed actuator outputs in the range -10k..10k, one register for each
/// of `REG_CONFIG_N_ACTUATORS` actuators.
pub const PAGE_ACTUATORS: u8 = 2;

/// Servo output PWM values in microseconds, one register for each of
/// `REG_CONFIG_N_ACTUATORS` actuators.
pub const PAGE_SERVOS: u8 = 3;

/// RC input values in microseconds.
pub const PAGE_RAW_RC_INPUT: u8 = 4;

/// Scaled RC input values in the range -10k..10k.
pub const PAGE_SCALED_RC_INPUT: u8 = 5;

/// Raw ADC input values, one register for each of
/// `REG_CONFIG_N_ADC_INPUTS` inputs.
pub const PAGE_RAW_ADC_INPUT: u8 = 6;

/// Servo PWM rate group information.
pub const PAGE_PWM_INFO: u8 = 7;

/// Writeable setup page.
pub const PAGE_SETUP: u8 = 50;

/// Actuator control groups.
pub const PAGE_CONTROLS: u8 = 51;

/// Configuration text for the mixer interpreter.
pub const PAGE_MIXERLOAD: u8 = 52;

/// RC input configuration.
pub const PAGE_RCIN_CONFIG: u8 = 53;

/// Direct PWM output that bypasses the mixer.
pub const PAGE_PWM_DIRECT_OUT: u8 = 54;

/// Failsafe values for the PWM outputs; a zero disables the output.
pub const PAGE_PWM_FAILSAFES: u8 = 55;

/// Sensors wired to the coprocessor itself, such as RC receiver telemetry.
pub const PAGE_LOCAL_SENSORS: u8 = 56;

/// Page reserved for testing and debugging.
pub const PAGE_TEST_DEBUG: u8 = 127;

/// `PAGE_CONFIG`: protocol version that the coprocessor firmware speaks.
pub const REG_CONFIG_PROTOCOL_VERSION: u8 = 0;

/// `PAGE_CONFIG`: hardware version identifier.
pub const REG_CONFIG_HARDWARE_VERSION: u8 = 1;

/// `PAGE_CONFIG`: bootloader version identifier.
pub const REG_CONFIG_BOOTLOADER_VERSION: u8 = 2;

/// `PAGE_CONFIG`: maximum data transfer size in bytes.
pub const REG_CONFIG_MAX_TRANSFER: u8 = 3;

/// `PAGE_CONFIG`: maximum number of controls.
pub const REG_CONFIG_N_CONTROLS: u8 = 4;

/// `PAGE_CONFIG`: maximum number of actuator outputs.
pub const REG_CONFIG_N_ACTUATORS: u8 = 5;

/// `PAGE_CONFIG`: maximum number of RC inputs.
pub const REG_CONFIG_N_RC_INPUTS: u8 = 6;

/// `PAGE_CONFIG`: maximum number of ADC inputs.
pub const REG_CONFIG_N_ADC_INPUTS: u8 = 7;

/// `PAGE_CONFIG`: maximum number of relay outputs.
pub const REG_CONFIG_N_RELAY_OUTPUTS: u8 = 8;

/// `PAGE_RAW_RC_INPUT`: number of RC channels that are currently valid.
pub const REG_RAW_RC_INPUT_COUNT: u8 = 0;

/// `PAGE_TEST_DEBUG`: toggles the coprocessor's amber LED.
pub const REG_DEBUG_TEST_LED: u8 = 0;

} // verus!
