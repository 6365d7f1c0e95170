use vstd::prelude::*;

use crate::filesystem::FileSystem;
use crate::mem_ram::{RAM, alloc_fits, alloc_result, region, room_for, set_region};
use crate::processo::{Processo, State};
use crate::resources::{ResourceManager, devices_available, set_devices, valid_request};
use crate::search::{first_match, search_pair};

verus! {

/// The dispatcher: the four priority queues of processes, and the memory,
/// devices and disk that they share.
pub struct Dispatcher {
    pub pcb: Vec<Vec<Processo>>,
    pub ram: RAM,
    pub resources: ResourceManager,
    pub filesystem: FileSystem,
}

/// What the dispatcher does with a process in its turn.
pub enum ScalingAction {
    /// The process has terminated: take it out of its queue.
    Remove,
    /// The process waits and can go on: wake it up.
    Release,
    /// The process can start: give it memory at this span and its devices.
    Start(usize),
    /// The process cannot run now.
    Wait,
}

/// Memory and devices for `process`: whether both are there, and the span of
/// memory that would hold it.
pub open spec fn availability(d: Dispatcher, process: Processo) -> (bool, usize) {
    let mem = search_pair(
        first_match(region(d.ram@, process.priority as i32), room_for(process.blocks as i32)),
    );
    (mem.0 && devices_available(d.resources.spec_state(), process), mem.1)
}

impl Dispatcher {
    /// Whether memory and the devices are there for `process`, and the span of
    /// memory that would hold it.
    pub fn mem_and_resource_available(&self, process: &Processo) -> (r: (bool, usize))
        requires
            valid_request(*process),
        ensures
            r == availability(*self, *process),
    {
        let (mem_available, mem_index) = self.ram.mem_available(
            #[verifier::truncate] (process.priority as i32),
            #[verifier::truncate] (process.blocks as i32),
        );
        let resources_available = self.resources.resources_available(process);
        (mem_available && resources_available, mem_index)
    }

    /// Gives `process` its memory at span `mem_index` and its devices, and
    /// records where its memory starts.
    pub fn mem_and_resource_allocation(&mut self, process: &mut Processo, mem_index: usize)
        requires
            valid_request(*old(process)),
            alloc_fits(
                region(old(self).ram@, old(process).priority as i32),
                old(process).blocks as i32,
                mem_index as int,
            ),
        ensures
            final(self).ram@ == set_region(
                old(self).ram@,
                old(process).priority as i32,
                alloc_result(
                    region(old(self).ram@, old(process).priority as i32),
                    old(process).pid as i32,
                    old(process).blocks as i32,
                    mem_index as int,
                ),
            ),
            final(self).resources.spec_state() == set_devices(
                old(self).resources.spec_state(),
                *old(process),
                false,
            ),
            final(self).filesystem == old(self).filesystem,
            final(self).pcb@ == old(self).pcb@,
            final(process).offset == region(
                old(self).ram@,
                old(process).priority as i32,
            )[mem_index as int].mem_index as u32,
            final(process).pid == old(process).pid,
            final(process).init_time == old(process).init_time,
            final(process).priority == old(process).priority,
            final(process).time == old(process).time,
            final(process).blocks == old(process).blocks,
            final(process).printer == old(process).printer,
            final(process).scanner == old(process).scanner,
            final(process).modem == old(process).modem,
            final(process).drive == old(process).drive,
            final(process).instructions@ == old(process).instructions@,
            final(process).state == old(process).state,
    {
        let priority = #[verifier::truncate] (process.priority as i32);
        let start = self.ram.get_mem(priority)[mem_index].mem_index;
        self.ram.alloc_mem(
            priority,
            process.pid as i32,
            #[verifier::truncate] (process.blocks as i32),
            mem_index,
        );
        process.offset = #[verifier::truncate] (start as u32);
        self.resources.alloc_resources(process);
    }

    /// What to do with `process` in its turn: take it out when it has
    /// terminated; else, when memory and its devices are there, wake it if it
    /// waits and start it otherwise; else leave it.
    pub fn plan_process_scaling(&self, process: &Processo) -> (r: ScalingAction)
        requires
            process.state != State::Terminated ==> valid_request(*process),
        ensures
            r == (if process.state == State::Terminated {
                ScalingAction::Remove
            } else if availability(*self, *process).0 {
                if process.state == State::Waiting {
                    ScalingAction::Release
                } else {
                    ScalingAction::Start(availability(*self, *process).1)
                }
            } else {
                ScalingAction::Wait
            }),
    {
        if process.state == State::Terminated {
            return ScalingAction::Remove;
        }
        let (available, where_available) = self.mem_and_resource_available(process);
        if available {
            if process.state == State::Waiting {
                ScalingAction::Release
            } else {
                ScalingAction::Start(where_available)
            }
        } else {
            ScalingAction::Wait
        }
    }
}

} // verus!
