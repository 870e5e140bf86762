//! What EIS clients ask for: device capabilities and input requests.

use enumflags2::BitFlags;
use reis::request::DeviceCapability;
use vstd::prelude::*;

use crate::double::Double;

verus! {

/// A capability of an emulated input device.
#[derive(Clone, Copy, Debug, PartialEq, Eq, Structural)]
pub enum Capability {
    Pointer,
    PointerAbsolute,
    Keyboard,
    Touch,
    Scroll,
    Button,
}

impl Capability {
    /// The bit of the capability in a set of capabilities.
    pub open spec fn bit(self) -> u64 {
        match self {
            Capability::Pointer => 1,
            Capability::PointerAbsolute => 2,
            Capability::Keyboard => 4,
            Capability::Touch => 8,
            Capability::Scroll => 16,
            Capability::Button => 32,
        }
    }

    /// Whether the set `capabilities` holds the capability.
    pub open spec fn is_in(self, capabilities: u64) -> bool {
        capabilities & self.bit() == self.bit()
    }
}

/// `BitFlags::from_flag` of enumflags2 on a `DeviceCapability` of reis, and
/// `BitFlags::bits`: a set of one capability has the bit of its discriminant.
#[verifier::external_body]
fn capability_bits(capability: Capability) -> (bits: u64)
    ensures
        bits == capability.bit(),
{
    let flag = match capability {
        Capability::Pointer => DeviceCapability::Pointer,
        Capability::PointerAbsolute => DeviceCapability::PointerAbsolute,
        Capability::Keyboard => DeviceCapability::Keyboard,
        Capability::Touch => DeviceCapability::Touch,
        Capability::Scroll => DeviceCapability::Scroll,
        Capability::Button => DeviceCapability::Button,
    };
    BitFlags::from_flag(flag).bits()
}

/// `BitFlags::contains` of enumflags2 on sets of `DeviceCapability` of reis:
/// whether all bits of `other` are among those of `capabilities`. Bits that no
/// capability has are left out of `capabilities` beforehand, and `other` may
/// have none of them.
#[verifier::external_body]
fn contains_all(capabilities: u64, other: u64) -> (r: bool)
    requires
        other & 0x7f == other,
    ensures
        r == (capabilities & other == other),
{
    let held = BitFlags::<DeviceCapability>::from_bits_truncate(capabilities);
    held.contains(BitFlags::<DeviceCapability>::from_bits_truncate(other))
}

/// Whether the set `capabilities` holds `capability`.
pub fn has_capability(capabilities: u64, capability: Capability) -> (r: bool)
    ensures
        r == capability.is_in(capabilities),
{
    let bits: u64 = capability_bits(capability);
    assert(bits & 0x7f == bits) by (bit_vector)
        requires
            bits == 1 || bits == 2 || bits == 4 || bits == 8 || bits == 16 || bits == 32,
    ;
    contains_all(capabilities, bits)
}

/// The set of the capabilities that a seat is advertised with: all of them.
pub fn seat_capabilities() -> (capabilities: u64)
    ensures
        capabilities == 0x3f,
        forall|c: Capability| #[trigger] c.is_in(capabilities),
{
    let pointer: u64 = capability_bits(Capability::Pointer);
    let absolute: u64 = capability_bits(Capability::PointerAbsolute);
    let keyboard: u64 = capability_bits(Capability::Keyboard);
    let touch: u64 = capability_bits(Capability::Touch);
    let scroll: u64 = capability_bits(Capability::Scroll);
    let button: u64 = capability_bits(Capability::Button);
    assert(1u64 | 2 | 4 | 8 | 16 | 32 == 0x3f) by (bit_vector);
    proof {
        assert forall|c: Capability| #[trigger] c.is_in(0x3f) by {
            let bit = c.bit();
            assert(0x3f & bit == bit) by (bit_vector)
                requires
                    bit == 1 || bit == 2 || bit == 4 || bit == 8 || bit == 16 || bit == 32,
            ;
        }
    }
    pointer | absolute | keyboard | touch | scroll | button
}

/// The state of a button, as a client reports it.
#[derive(Clone, Copy, Debug, PartialEq, Eq, Structural)]
pub enum EisButtonState {
    Released,
    Press,
}

/// The state of a button, as the seat takes it.
#[derive(Clone, Copy, Debug, PartialEq, Eq, Structural)]
pub enum ButtonState {
    Released,
    Pressed,
}

impl EisButtonState {
    /// The state that the seat is told.
    pub open spec fn for_seat(self) -> ButtonState {
        match self {
            EisButtonState::Press => ButtonState::Pressed,
            EisButtonState::Released => ButtonState::Released,
        }
    }

    /// The state that the seat is told.
    pub fn button_state(self) -> (state: ButtonState)
        ensures
            state == self.for_seat(),
    {
        match self {
            EisButtonState::Press => ButtonState::Pressed,
            EisButtonState::Released => ButtonState::Released,
        }
    }
}

/// A request of an EIS client.
#[derive(Clone, Copy, Debug, PartialEq, Eq, Structural)]
pub enum EisRequest {
    /// The client binds to the set of capabilities.
    Bind { capabilities: u64 },
    /// The client leaves.
    Disconnect,
    /// Moves the pointer by a distance.
    PointerMotion { dx: Double, dy: Double },
    /// Moves the pointer to a position.
    PointerMotionAbsolute { dx_absolute: Double, dy_absolute: Double },
    /// Presses or releases a button.
    Button { button: u32, state: EisButtonState },
    /// Presses or releases a key.
    KeyboardKey { key: u32, pressed: bool },
    /// Ends a group of requests.
    Frame,
    /// The client is about to send input.
    DeviceStartEmulating,
    /// The client has no more input.
    DeviceStopEmulating,
    /// Any other request.
    Other,
}

/// A capability is in a set exactly if its bit is: the pointer has the first, the
/// absolute pointer the second, then come the keyboard, touch, scrolling and the
/// buttons.
pub proof fn law_capabilities_are_bits(set: u64)
    ensures
        Capability::Pointer.is_in(set) <==> set & 1 == 1,
        Capability::PointerAbsolute.is_in(set) <==> set & 2 == 2,
        Capability::Keyboard.is_in(set) <==> set & 4 == 4,
        Capability::Touch.is_in(set) <==> set & 8 == 8,
        Capability::Scroll.is_in(set) <==> set & 16 == 16,
        Capability::Button.is_in(set) <==> set & 32 == 32,
{
}

/// A union of sets holds what one of them holds.
pub proof fn law_unions_of_capabilities(capability: Capability, a: u64, b: u64)
    ensures
        capability.is_in(a | b) <==> capability.is_in(a) || capability.is_in(b),
        !capability.is_in(0),
{
    let bit = capability.bit();
    assert(((a | b) & bit == bit <==> a & bit == bit || b & bit == bit) && 0 & bit != bit)
        by (bit_vector)
        requires
            bit == 1 || bit == 2 || bit == 4 || bit == 8 || bit == 16 || bit == 32,
    ;
}

} // verus!
