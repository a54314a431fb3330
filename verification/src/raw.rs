//! The wire-compatible record shapes shared by the guest-side encoder and the
//! host-side decoder.
//!
//! Every pointer that crosses the boundary is an untyped 32-bit offset into
//! the guest's linear memory; it is never interchangeable with a host
//! address. Each owned record carries the `Layout` of exactly the allocation
//! that backs its own container, so the deallocation entry point can be
//! handed the pair it needs without either side knowing the allocated type.

use vstd::prelude::*;

verus! {

/// A (size, alignment) pair describing one guest allocation, transported
/// verbatim as two unsigned 32-bit integers.
///
/// It never owns anything itself; it is purely a value.
#[derive(Copy, Clone, Debug, PartialEq, Eq, Structural)]
pub struct Layout {
    pub size: u32,
    pub align: u32,
}

/// A value heap-allocated on the guest side together with the layout of the
/// allocation that backs the container itself (not any nested field).
///
/// The receiver must eventually release that container through the guest's
/// deallocation entry point, after freeing the owned fields of `boxed`.
#[derive(Copy, Clone, Debug, PartialEq, Eq, Structural)]
pub struct PluginBox<T: Copy> {
    pub boxed: T,
    pub layout: Layout,
}

/// A transient reference: valid only for the duration of the call in which
/// it was produced, never owned and never freed by the receiver.
#[derive(Copy, Clone, Debug, PartialEq, Eq, Structural)]
pub struct PluginRef<T: Copy>(pub T);

/// A string sent across the boundary: `len` bytes of UTF-8 at guest offset
/// `ptr`, with the layout of the backing buffer allocation.
#[derive(Copy, Clone, Debug, PartialEq, Eq, Structural)]
pub struct PluginString {
    pub ptr: u32,
    pub len: u32,
    pub layout: Layout,
}

/// A slice of plain elements (no nested allocations): `len` elements at
/// guest offset `elements`. Freeing it releases exactly the one backing
/// allocation described by `layout`.
///
/// The wire protocol has a closed set of shapes; the one plain element type
/// it carries is `u32`.
#[derive(Copy, Clone, Debug, PartialEq, Eq, Structural)]
pub struct PluginSlice {
    pub len: u32,
    pub elements: u32,
    pub layout: Layout,
}

/// A slice whose elements own nested allocations of their own. Freeing it
/// first frees every element, in ascending index order, and only then
/// releases the backing allocation described by `layout`.
///
/// The closed set of wire shapes has one freeable element type,
/// `PluginSystem`, so this record is not generic over its element.
#[derive(Copy, Clone, Debug, PartialEq, Eq, Structural)]
pub struct PluginSliceAlloc {
    pub len: u32,
    pub elements: u32,
    pub layout: Layout,
}

/// One named callback bound to an execution stage.
#[derive(Copy, Clone, Debug, PartialEq, Eq, Structural)]
pub struct PluginSystem {
    pub stage: SystemStage,
    pub name: PluginString,
}

/// A guest module's declared identity and the callbacks it registers.
#[derive(Copy, Clone, Debug, PartialEq, Eq, Structural)]
pub struct PluginRegister {
    pub name: PluginString,
    pub version: PluginString,
    pub systems: PluginSliceAlloc,
}

/// The execution stage a system is registered for, encoded on the wire as a
/// single byte, `1` through `5`. Any other byte is a decode error.
#[derive(Copy, Clone, Debug, PartialEq, Eq, Structural)]
pub enum SystemStage {
    /// Runs before the main gameplay logic.
    Pre,
    /// Handles the main gameplay logic.
    Tick,
    /// Handles events.
    HandleEvents,
    /// Broadcasts or sends packets.
    SendPackets,
    /// Cleans up resources at the end of the tick.
    CleanUp,
}

impl SystemStage {
    /// The single wire byte of this stage.
    pub open spec fn as_byte(self) -> u8 {
        match self {
            SystemStage::Pre => 1,
            SystemStage::Tick => 2,
            SystemStage::HandleEvents => 3,
            SystemStage::SendPackets => 4,
            SystemStage::CleanUp => 5,
        }
    }

    /// The stage a wire byte stands for, or `Err(())` for a byte outside
    /// `1..=5`.
    pub open spec fn spec_try_from(value: u8) -> Result<SystemStage, ()> {
        match value {
            1u8 => Ok(SystemStage::Pre),
            2u8 => Ok(SystemStage::Tick),
            3u8 => Ok(SystemStage::HandleEvents),
            4u8 => Ok(SystemStage::SendPackets),
            5u8 => Ok(SystemStage::CleanUp),
            _ => Err(()),
        }
    }

    /// Encodes this stage as its wire byte.
    pub fn to_byte(self) -> (b: u8)
        ensures
            b == self.as_byte(),
    {
        match self {
            SystemStage::Pre => 1,
            SystemStage::Tick => 2,
            SystemStage::HandleEvents => 3,
            SystemStage::SendPackets => 4,
            SystemStage::CleanUp => 5,
        }
    }

    /// Decodes a wire byte; exactly the bytes `1..=5` succeed.
    pub fn try_from(value: u8) -> (r: Result<SystemStage, ()>)
        ensures
            r == SystemStage::spec_try_from(value),
            r is Ok <==> 1 <= value <= 5,
            r is Ok ==> r->Ok_0.as_byte() == value,
    {
        match value {
            1 => Ok(SystemStage::Pre),
            2 => Ok(SystemStage::Tick),
            3 => Ok(SystemStage::HandleEvents),
            4 => Ok(SystemStage::SendPackets),
            5 => Ok(SystemStage::CleanUp),
            _ => Err(()),
        }
    }
}

/// The severity a guest message is logged at, encoded on the wire as a
/// single byte, `1` or `2`. Any other byte is a decode error.
#[derive(Copy, Clone, Debug, PartialEq, Eq, Structural)]
pub enum LogLevel {
    Debug,
    Info,
}

impl LogLevel {
    /// The single wire byte of this level.
    pub open spec fn as_byte(self) -> u8 {
        match self {
            LogLevel::Debug => 1,
            LogLevel::Info => 2,
        }
    }

    /// The level a wire byte stands for, or `Err(())` for a byte outside
    /// `1..=2`.
    pub open spec fn spec_try_from(value: u8) -> Result<LogLevel, ()> {
        match value {
            1u8 => Ok(LogLevel::Debug),
            2u8 => Ok(LogLevel::Info),
            _ => Err(()),
        }
    }

    /// Encodes this level as its wire byte.
    pub fn to_byte(self) -> (b: u8)
        ensures
            b == self.as_byte(),
    {
        match self {
            LogLevel::Debug => 1,
            LogLevel::Info => 2,
        }
    }

    /// Decodes a wire byte; exactly the bytes `1` and `2` succeed.
    pub fn try_from(value: u8) -> (r: Result<LogLevel, ()>)
        ensures
            r == LogLevel::spec_try_from(value),
            r is Ok <==> 1 <= value <= 2,
            r is Ok ==> r->Ok_0.as_byte() == value,
    {
        match value {
            1 => Ok(LogLevel::Debug),
            2 => Ok(LogLevel::Info),
            _ => Err(()),
        }
    }
}

} // verus!
