//! Constants of the agent and the plain records it exchanges with the
//! performance-monitoring unit.

use std::collections::TryReserveError;
use vstd::prelude::*;

verus! {

/// Size of a base page in bytes.
pub const PAGE_SIZE: u64 = 0x1000;

/// Size of a huge page in bytes.
pub const HPAGE_SIZE: u64 = 0x20_0000;

/// Number of base pages in a huge page.
pub const HPAGE_PAGES: usize = 512;

/// Mask that clears the offset of an address within its huge page.
pub const HPAGE_MASK: u64 = 0xffff_ffff_ffe0_0000;

/// The processor on which samples are identified.
pub const CPU_IDENTIFICATION: i32 = 0;

/// Stands for "any processor" when work is queued.
pub const WORK_CPU_UNBOUND: i32 = 320;

/// The processor on which pages are migrated.
pub const CPU_MIGRATION: i32 = 320;

/// Identification is asked for once in this many collected samples.
pub const IDENTIFIATION_PERIOD: u64 = 1024;

/// A progress line is due once in this many identified samples.
pub const DRAIN_REPORT_PERIOD: u64 = 4096;

/// Migration is asked for when the number of candidates sent is a multiple
/// of this.
pub const MIGRATION_PERIOD: u64 = 128;

/// Flag of the page-move call: move pages shared with other processes too.
pub const MPOL_MF_MOVE_ALL: i32 = 4;

/// Status of a page that is on no node.
pub const NUMA_NO_NODE: i32 = -1;

/// Number of demotion candidates asked for when none is pending.
pub const BATCH_SIZE: usize = 64;

/// Average migration bandwidth above which the worker pauses, in bytes per
/// microsecond.
pub const THROTTLE_MBPS: u64 = 128;

/// Delay, in scheduler ticks, after which a paused worker runs again.
pub const THROTTLE_DELAY: u64 = 200;

pub const SIGNIFICANCE_RATIO: u64 = 3;

pub const PERF_TYPE_RAW: u32 = 4;

pub const PERF_SAMPLE_TID: u64 = 0x2;

pub const PERF_SAMPLE_ADDR: u64 = 0x8;

pub const PERF_SAMPLE_WEIGHT: u64 = 0x4000;

pub const PERF_SAMPLE_PHYS_ADDR: u64 = 0x8_0000;

pub const EVENT_ATTR_SAMPLE_IP_ZERO_SKID: u64 = 0x1_8000;

pub const EVENT_ATTR_EXCLUDE_USER: u64 = 0x10;

pub const EVENT_ATTR_EXCLUDE_KERNEL: u64 = 0x20;

pub const EVENT_ATTR_EXCLUDE_HV: u64 = 0x40;

pub const EVENT_ATTR_EXCLUDE_IDLE: u64 = 0x80;

pub const EVENT_ATTR_EXCLUDE_HOST: u64 = 0x8_0000;

pub const EVENT_ATTR_EXCLUDE_GUEST: u64 = 0x10_0000;

pub const EVENT_ATTR_EXCLUDE_CALLCHAIN_KERNEL: u64 = 0x20_0000;

pub const EVENT_ATTR_EXCLUDE_CALLCHAIN_USER: u64 = 0x40_0000;

/// Size in bytes of the attribute record as the counter interface lays it
/// out.
pub const EVENT_ATTR_SIZE: u32 = 136;

/// A process id.
pub type Pid = i32;

/// The attributes a hardware counter is opened with.
#[derive(Default, Debug, Clone, Copy)]
pub struct EventAttr {
    pub typ: u32,
    pub size: u32,
    pub config: u64,
    pub sample_period: u64,
    pub sample_type: u64,
    pub read_format: u64,
    pub flags: u64,
    pub wakeup: u32,
    pub bp_type: u32,
    pub config1: u64,
    pub config2: u64,
    pub branch_sample_type: u64,
    pub sample_regs_user: u64,
    pub sample_stack_user: u32,
    pub clockid: i32,
    pub sample_regs_intr: u64,
    pub aux_watermark: u32,
    pub sample_max_stack: u16,
    pub __reserved_2: u16,
    pub aux_sample_size: u32,
    pub __reserved_3: u32,
    pub sig_data: u64,
    pub config3: u64,
}

/// The integer fields of the record that the counter hands to its overflow
/// handler.
#[derive(Default, Debug, Clone, Copy)]
pub struct SampleData {
    pub sample_flags: u64,
    pub period: u64,
    pub dyn_size: u64,
    pub typ: u64,
    pub pid: u32,
    pub tid: u32,
    pub time: u64,
    pub id: u64,
    pub cpu: u32,
    pub reserved: u32,
    pub ip: u64,
    pub weight: u64,
    pub data_src: u64,
    pub txn: u64,
    pub regs_user_abi: u64,
    pub regs_intr_abi: u64,
    pub stack_user_size: u64,
    pub stream_id: u64,
    pub cgroup: u64,
    pub addr: u64,
    pub phys_addr: u64,
    pub data_page_size: u64,
    pub code_page_size: u64,
    pub aux_size: u64,
}

/// Why something could not be made: the memory for it could not be had.
#[derive(Debug, PartialEq, Eq)]
pub enum Exhausted {
    /// An array could not be given the room asked for; this is what the
    /// allocator answered.
    Array(TryReserveError),
    /// A hash table could not be given the room asked for.
    Table,
}

/// An empty array with room set aside for `room` entries, or the reason why
/// that room could not be had. No room is always had.
pub fn vec_with_room<T>(room: usize) -> (made: Result<Vec<T>, Exhausted>)
    ensures
        room == 0 ==> made.is_ok(),
        made.is_ok() ==> made.unwrap()@ == Seq::<T>::empty(),
{
    let mut v: Vec<T> = Vec::new();
    if room == 0 {
        return Ok(v);
    }
    let reserved = v.try_reserve(room);
    vec_reserved(reserved, v)
}

/// The answer to a request for room in an array, as this library reports it:
/// had, or not had for the reason the allocator gave.
pub fn room_had(reserved: Result<(), TryReserveError>) -> (outcome: Result<(), Exhausted>)
    ensures
        outcome == (match reserved {
            Ok(_) => Ok::<(), Exhausted>(()),
            Err(e) => Err::<(), Exhausted>(Exhausted::Array(e)),
        }),
{
    match reserved {
        Ok(_) => Ok(()),
        Err(e) => Err(Exhausted::Array(e)),
    }
}

/// What becomes of the array `v` once room has been asked for in it: the
/// array itself where `reserved` says that the room was had, the allocator's
/// answer where it was not.
pub fn vec_reserved<T>(reserved: Result<(), TryReserveError>, v: Vec<T>) -> (made: Result<
    Vec<T>,
    Exhausted,
>)
    ensures
        made == (match reserved {
            Ok(_) => Ok::<Vec<T>, Exhausted>(v),
            Err(e) => Err::<Vec<T>, Exhausted>(Exhausted::Array(e)),
        }),
{
    match reserved {
        Ok(_) => Ok(v),
        Err(e) => Err(Exhausted::Array(e)),
    }
}

/// The start of the huge page that `va` lies in.
pub open spec fn hpage_of(va: u64) -> u64 {
    va & HPAGE_MASK
}

/// The start of the huge page that `va` lies in.
pub fn hpage_base(va: u64) -> (base: u64)
    ensures
        base == hpage_of(va),
        base <= va,
        va - base < HPAGE_SIZE,
        base % HPAGE_SIZE == 0,
        base <= HPAGE_MASK,
{
    let base = va & HPAGE_MASK;
    assert(base <= va && va - base < 0x20_0000 && base % 0x20_0000 == 0 && base
        <= 0xffff_ffff_ffe0_0000u64) by (bit_vector)
        requires
            base == va & 0xffff_ffff_ffe0_0000u64,
    ;
    base
}

} // verus!
