//! The C ABI without its pointers: what each exported call does with the handles and places it
//! is given, and the status it reports. A null pointer is an absent argument.

use vstd::prelude::*;

use crate::world::World;

verus! {

/// Version of the C ABI. Bump whenever an exported signature or type layout changes.
pub const EMERGENCE_ABI_VERSION: u32 = 1;

/// Result of a fallible call.
#[derive(Debug, Clone, Copy, PartialEq, Eq, Structural)]
pub enum EmergenceStatus {
    /// The call succeeded.
    Success,
    /// A required pointer argument was null.
    NullPointer,
    /// The library hit an internal error. The object involved should be destroyed.
    Panic,
}

impl EmergenceStatus {
    /// The status as the ABI passes it.
    pub fn code(self) -> (r: u32)
        ensures
            r == (match self {
                EmergenceStatus::Success => 0u32,
                EmergenceStatus::NullPointer => 1u32,
                EmergenceStatus::Panic => 2u32,
            }),
    {
        match self {
            EmergenceStatus::Success => 0,
            EmergenceStatus::NullPointer => 1,
            EmergenceStatus::Panic => 2,
        }
    }
}

/// Handle to a simulation world.
pub struct EmergenceWorld(World);

impl View for EmergenceWorld {
    type V = crate::world::WorldView;

    closed spec fn view(&self) -> crate::world::WorldView {
        self.0@
    }
}

impl EmergenceWorld {
    /// Whether the world behind the handle is sound.
    pub open spec fn inv(self) -> bool {
        &&& self.running()
        &&& self@.queue.reserved == 0
    }

    /// What is true of the world behind the handle even in the middle of a tick.
    pub closed spec fn running(self) -> bool {
        self.0.running()
    }

    /// The world behind the handle.
    pub fn world(&self) -> (r: &World)
        ensures
            r@ == self@,
            self.inv() ==> r.inv(),
    {
        &self.0
    }
}

/// Returns the ABI version this library was built with.
pub fn emergence_abi_version() -> (r: u32)
    ensures
        r == EMERGENCE_ABI_VERSION,
{
    EMERGENCE_ABI_VERSION
}

/// Creates a new world and puts it in `out_world`.
pub fn emergence_world_create(out_world: Option<&mut Option<EmergenceWorld>>) -> (r:
    EmergenceStatus)
    ensures
        match out_world {
            Some(out) => r == EmergenceStatus::Success && (*final(out) matches Some(w) && w.inv()
                && w@.is_new() && w@.network.inv()),
            None => r == EmergenceStatus::NullPointer,
        },
{
    match out_world {
        Some(out) => {
            *out = Some(EmergenceWorld(World::new()));
            EmergenceStatus::Success
        },
        None => EmergenceStatus::NullPointer,
    }
}

/// Advances the world by one tick. A world that has run all the ticks it can count reports an
/// internal error and stays as it is.
pub fn emergence_world_tick(world: Option<&mut EmergenceWorld>) -> (r: EmergenceStatus)
    requires
        world matches Some(w) ==> (*w).inv(),
    ensures
        match world {
            Some(w) => final(w).inv() && if (*w)@.tick_count < u64::MAX {
                r == EmergenceStatus::Success && exists|run: crate::world::TickRun| #[trigger]
                    (*w)@.may_run(run) && final(w)@ == (*w)@.ticked(run)
            } else {
                r == EmergenceStatus::Panic && final(w)@ == (*w)@
            },
            None => r == EmergenceStatus::NullPointer,
        },
{
    match world {
        Some(w) => {
            if w.0.tick_count() == u64::MAX {
                return EmergenceStatus::Panic;
            }
            let _ = w.0.tick();
            EmergenceStatus::Success
        },
        None => EmergenceStatus::NullPointer,
    }
}

/// Puts the number of ticks the world has run in `out_count`.
pub fn emergence_world_tick_count(
    world: Option<&EmergenceWorld>,
    out_count: Option<&mut u64>,
) -> (r: EmergenceStatus)
    ensures
        match (world, out_count) {
            (Some(w), Some(out)) => r == EmergenceStatus::Success && *final(out) == w@.tick_count,
            (None, Some(out)) => r == EmergenceStatus::NullPointer && *final(out) == *out,
            _ => r == EmergenceStatus::NullPointer,
        },
{
    match (world, out_count) {
        (Some(w), Some(out)) => {
            *out = w.0.tick_count();
            EmergenceStatus::Success
        },
        _ => EmergenceStatus::NullPointer,
    }
}

} // verus!
