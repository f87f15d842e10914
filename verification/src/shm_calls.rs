//! The order in which a shared object is opened, sized, mapped and given up.
//!
//! Creating and opening a shared object each take several system calls, any of which may be
//! refused. The steps here say which call comes next; the caller makes it and reports.

use vstd::prelude::*;

use crate::region::{shm_total_size, total_size, SHM_HEADER_SIZE};

verus! {

/// A call to make.
#[derive(Clone, Copy, PartialEq, Eq, Structural)]
pub enum ShmCall {
    /// Open the object by its name, creating it if it is not there.
    CreateObject,
    /// Open the object by its name, for reading.
    OpenObject,
    /// Give the object this length.
    Resize(usize),
    /// Map this many bytes of the object.
    MapBytes(usize),
    /// Undo the mapping of this many bytes.
    UnmapBytes(usize),
    /// Close the descriptor of the object.
    Close,
    /// Remove the object's name.
    Unlink,
    /// Nothing is left to do.
    Nothing,
}

/// What is held while the calls are made.
#[verifier::ext_equal]
pub struct Held {
    /// Whether a descriptor is open.
    pub descriptor: bool,
    /// How many bytes are mapped.
    pub mapped: Option<nat>,
    /// Whether an object was created under the name.
    pub object: bool,
}

/// What is held when nothing was called yet.
pub open spec fn nothing_held() -> Held {
    Held { descriptor: false, mapped: None, object: false }
}

/// What is held after a call. Closing, unmapping and unlinking are taken to be done however
/// they are reported.
pub open spec fn held_after(held: Held, call: ShmCall, granted: bool) -> Held {
    match call {
        ShmCall::CreateObject => if granted {
            Held { descriptor: true, object: true, ..held }
        } else {
            held
        },
        ShmCall::OpenObject => if granted {
            Held { descriptor: true, ..held }
        } else {
            held
        },
        ShmCall::Resize(size) => held,
        ShmCall::MapBytes(size) => if granted {
            Held { mapped: Some(size as nat), ..held }
        } else {
            held
        },
        ShmCall::UnmapBytes(size) => Held { mapped: None, ..held },
        ShmCall::Close => Held { descriptor: false, ..held },
        ShmCall::Unlink => Held { object: false, ..held },
        ShmCall::Nothing => held,
    }
}

/// How far the creation of an object has come.
#[derive(Clone, Copy, PartialEq, Eq, Structural)]
pub enum CreateStep {
    Opening,
    Sizing,
    Mapping,
    ClosingMapped,
    ClosingFailed,
    Unlinking,
    Ready,
    Failed,
}

/// The next call in the creation of an object of `size` bytes.
pub open spec fn creation_call(step: CreateStep, size: usize) -> ShmCall {
    match step {
        CreateStep::Opening => ShmCall::CreateObject,
        CreateStep::Sizing => ShmCall::Resize(size),
        CreateStep::Mapping => ShmCall::MapBytes(size),
        CreateStep::ClosingMapped => ShmCall::Close,
        CreateStep::ClosingFailed => ShmCall::Close,
        CreateStep::Unlinking => ShmCall::Unlink,
        CreateStep::Ready => ShmCall::Nothing,
        CreateStep::Failed => ShmCall::Nothing,
    }
}

/// The step of a creation that follows `step`, when its call was granted or not.
pub open spec fn creation_step(step: CreateStep, granted: bool) -> CreateStep {
    match step {
        CreateStep::Opening => if granted {
            CreateStep::Sizing
        } else {
            CreateStep::Failed
        },
        CreateStep::Sizing => if granted {
            CreateStep::Mapping
        } else {
            CreateStep::ClosingFailed
        },
        CreateStep::Mapping => if granted {
            CreateStep::ClosingMapped
        } else {
            CreateStep::ClosingFailed
        },
        CreateStep::ClosingMapped => CreateStep::Ready,
        CreateStep::ClosingFailed => CreateStep::Unlinking,
        CreateStep::Unlinking => CreateStep::Failed,
        CreateStep::Ready => CreateStep::Ready,
        CreateStep::Failed => CreateStep::Failed,
    }
}

/// The next call in the creation of an object of `size` bytes.
pub fn create_call(step: CreateStep, size: usize) -> (call: ShmCall)
    ensures
        call == creation_call(step, size),
{
    match step {
        CreateStep::Opening => ShmCall::CreateObject,
        CreateStep::Sizing => ShmCall::Resize(size),
        CreateStep::Mapping => ShmCall::MapBytes(size),
        CreateStep::ClosingMapped => ShmCall::Close,
        CreateStep::ClosingFailed => ShmCall::Close,
        CreateStep::Unlinking => ShmCall::Unlink,
        CreateStep::Ready => ShmCall::Nothing,
        CreateStep::Failed => ShmCall::Nothing,
    }
}

/// The step of a creation that follows `step`, when its call was granted or not.
pub fn create_next(step: CreateStep, granted: bool) -> (next: CreateStep)
    ensures
        next == creation_step(step, granted),
{
    match step {
        CreateStep::Opening => if granted {
            CreateStep::Sizing
        } else {
            CreateStep::Failed
        },
        CreateStep::Sizing => if granted {
            CreateStep::Mapping
        } else {
            CreateStep::ClosingFailed
        },
        CreateStep::Mapping => if granted {
            CreateStep::ClosingMapped
        } else {
            CreateStep::ClosingFailed
        },
        CreateStep::ClosingMapped => CreateStep::Ready,
        CreateStep::ClosingFailed => CreateStep::Unlinking,
        CreateStep::Unlinking => CreateStep::Failed,
        CreateStep::Ready => CreateStep::Ready,
        CreateStep::Failed => CreateStep::Failed,
    }
}

/// What is held at each step of a creation.
pub open spec fn held_in_creation(step: CreateStep, size: usize) -> Held {
    Held {
        descriptor: match step {
            CreateStep::Sizing
            | CreateStep::Mapping
            | CreateStep::ClosingMapped
            | CreateStep::ClosingFailed => true,
            _ => false,
        },
        mapped: match step {
            CreateStep::ClosingMapped | CreateStep::Ready => Some(size as nat),
            _ => None,
        },
        object: match step {
            CreateStep::Opening | CreateStep::Failed => false,
            _ => true,
        },
    }
}

/// How many calls a creation can still take.
pub open spec fn creation_left(step: CreateStep) -> nat {
    match step {
        CreateStep::Opening => 5,
        CreateStep::Sizing => 4,
        CreateStep::Mapping => 3,
        CreateStep::ClosingFailed => 2,
        CreateStep::ClosingMapped => 1,
        CreateStep::Unlinking => 1,
        CreateStep::Ready => 0,
        CreateStep::Failed => 0,
    }
}

/// The step that a creation reaches when the calls are answered as in `grants`.
pub open spec fn creation_after(grants: Seq<bool>) -> CreateStep
    decreases grants.len(),
{
    if grants.len() == 0 {
        CreateStep::Opening
    } else {
        creation_step(creation_after(grants.drop_last()), grants.last())
    }
}

/// What a creation holds when the calls were answered as in `grants`.
pub open spec fn creation_holds(grants: Seq<bool>, size: usize) -> Held
    decreases grants.len(),
{
    if grants.len() == 0 {
        nothing_held()
    } else {
        held_after(
            creation_holds(grants.drop_last(), size),
            creation_call(creation_after(grants.drop_last()), size),
            grants.last(),
        )
    }
}

/// However the calls are answered, a creation ends after at most five of them. If it is
/// ready, the whole object is mapped and its descriptor is closed; if it failed, nothing is
/// held and no object is left behind under the name.
pub proof fn creation_leaves_nothing_behind(grants: Seq<bool>, size: usize)
    ensures
        creation_holds(grants, size) == held_in_creation(creation_after(grants), size),
        grants.len() >= 5 ==> creation_after(grants) is Ready || creation_after(grants) is Failed,
        creation_after(grants) is Ready ==> creation_holds(grants, size) == (Held {
            descriptor: false,
            mapped: Some(size as nat),
            object: true,
        }),
        creation_after(grants) is Failed ==> creation_holds(grants, size) == nothing_held(),
        creation_left(creation_after(grants)) == 0 || creation_left(creation_after(grants))
            + grants.len() <= 5,
    decreases grants.len(),
{
    if grants.len() > 0 {
        creation_leaves_nothing_behind(grants.drop_last(), size);
    }
}

/// A creation is ready exactly when opening, sizing and mapping were all granted.
pub proof fn creation_succeeds(open: bool, resize: bool, map: bool, a: bool, b: bool)
    ensures
        creation_after(seq![open, resize, map, a, b]) is Ready <==> open && resize && map,
{
    let all = seq![open, resize, map, a, b];
    assert(all.drop_last() =~= seq![open, resize, map, a]);
    assert(all.drop_last().drop_last() =~= seq![open, resize, map]);
    assert(all.drop_last().drop_last().drop_last() =~= seq![open, resize]);
    assert(all.drop_last().drop_last().drop_last().drop_last() =~= seq![open]);
    reveal_with_fuel(creation_after, 6);
}

/// How far the opening of an object has come.
#[derive(Clone, Copy, PartialEq, Eq, Structural)]
pub enum OpenStep {
    Opening,
    MappingHeader,
    UnmappingHeader(usize),
    MappingWhole(usize),
    ClosingMapped(usize),
    ClosingFailed,
    Ready(usize),
    Failed,
}

/// The next call in the opening of an object.
pub open spec fn opening_call(step: OpenStep) -> ShmCall {
    match step {
        OpenStep::Opening => ShmCall::OpenObject,
        OpenStep::MappingHeader => ShmCall::MapBytes(SHM_HEADER_SIZE),
        OpenStep::UnmappingHeader(size) => ShmCall::UnmapBytes(SHM_HEADER_SIZE),
        OpenStep::MappingWhole(size) => ShmCall::MapBytes(size),
        OpenStep::ClosingMapped(size) => ShmCall::Close,
        OpenStep::ClosingFailed => ShmCall::Close,
        OpenStep::Ready(size) => ShmCall::Nothing,
        OpenStep::Failed => ShmCall::Nothing,
    }
}

/// The step of an opening that follows `step`, when its call was granted or not. `num_bins`
/// is what the header announces, once it is mapped.
pub open spec fn opening_step(step: OpenStep, granted: bool, num_bins: u32) -> OpenStep {
    match step {
        OpenStep::Opening => if granted {
            OpenStep::MappingHeader
        } else {
            OpenStep::Failed
        },
        OpenStep::MappingHeader => if granted {
            OpenStep::UnmappingHeader(total_size(num_bins as nat) as usize)
        } else {
            OpenStep::ClosingFailed
        },
        OpenStep::UnmappingHeader(size) => OpenStep::MappingWhole(size),
        OpenStep::MappingWhole(size) => if granted {
            OpenStep::ClosingMapped(size)
        } else {
            OpenStep::ClosingFailed
        },
        OpenStep::ClosingMapped(size) => OpenStep::Ready(size),
        OpenStep::ClosingFailed => OpenStep::Failed,
        OpenStep::Ready(size) => OpenStep::Ready(size),
        OpenStep::Failed => OpenStep::Failed,
    }
}

/// The next call in the opening of an object.
pub fn open_call(step: OpenStep) -> (call: ShmCall)
    ensures
        call == opening_call(step),
{
    match step {
        OpenStep::Opening => ShmCall::OpenObject,
        OpenStep::MappingHeader => ShmCall::MapBytes(SHM_HEADER_SIZE),
        OpenStep::UnmappingHeader(_) => ShmCall::UnmapBytes(SHM_HEADER_SIZE),
        OpenStep::MappingWhole(size) => ShmCall::MapBytes(size),
        OpenStep::ClosingMapped(_) => ShmCall::Close,
        OpenStep::ClosingFailed => ShmCall::Close,
        OpenStep::Ready(_) => ShmCall::Nothing,
        OpenStep::Failed => ShmCall::Nothing,
    }
}

/// The step of an opening that follows `step`, when its call was granted or not. `num_bins`
/// is what the header announces, once it is mapped.
pub fn open_next(step: OpenStep, granted: bool, num_bins: u32) -> (next: OpenStep)
    requires
        total_size(num_bins as nat) <= usize::MAX,
    ensures
        next == opening_step(step, granted, num_bins),
{
    match step {
        OpenStep::Opening => if granted {
            OpenStep::MappingHeader
        } else {
            OpenStep::Failed
        },
        OpenStep::MappingHeader => if granted {
            OpenStep::UnmappingHeader(shm_total_size(num_bins as usize))
        } else {
            OpenStep::ClosingFailed
        },
        OpenStep::UnmappingHeader(size) => OpenStep::MappingWhole(size),
        OpenStep::MappingWhole(size) => if granted {
            OpenStep::ClosingMapped(size)
        } else {
            OpenStep::ClosingFailed
        },
        OpenStep::ClosingMapped(size) => OpenStep::Ready(size),
        OpenStep::ClosingFailed => OpenStep::Failed,
        OpenStep::Ready(size) => OpenStep::Ready(size),
        OpenStep::Failed => OpenStep::Failed,
    }
}

/// What is held at each step of an opening.
pub open spec fn held_in_opening(step: OpenStep) -> Held {
    Held {
        descriptor: match step {
            OpenStep::Opening | OpenStep::Ready(_) | OpenStep::Failed => false,
            _ => true,
        },
        mapped: match step {
            OpenStep::UnmappingHeader(_) => Some(SHM_HEADER_SIZE as nat),
            OpenStep::ClosingMapped(size) => Some(size as nat),
            OpenStep::Ready(size) => Some(size as nat),
            _ => None,
        },
        object: false,
    }
}

/// How many calls an opening can still take.
pub open spec fn opening_left(step: OpenStep) -> nat {
    match step {
        OpenStep::Opening => 5,
        OpenStep::MappingHeader => 4,
        OpenStep::UnmappingHeader(_) => 3,
        OpenStep::MappingWhole(_) => 2,
        OpenStep::ClosingMapped(_) => 1,
        OpenStep::ClosingFailed => 1,
        OpenStep::Ready(_) => 0,
        OpenStep::Failed => 0,
    }
}

/// The step that an opening reaches when the calls are answered as in `grants` and the
/// header announces `num_bins` bins.
pub open spec fn opening_after(grants: Seq<bool>, num_bins: u32) -> OpenStep
    decreases grants.len(),
{
    if grants.len() == 0 {
        OpenStep::Opening
    } else {
        opening_step(opening_after(grants.drop_last(), num_bins), grants.last(), num_bins)
    }
}

/// What an opening holds when the calls were answered as in `grants`.
pub open spec fn opening_holds(grants: Seq<bool>, num_bins: u32) -> Held
    decreases grants.len(),
{
    if grants.len() == 0 {
        nothing_held()
    } else {
        held_after(
            opening_holds(grants.drop_last(), num_bins),
            opening_call(opening_after(grants.drop_last(), num_bins)),
            grants.last(),
        )
    }
}

/// However the calls are answered, an opening ends after at most five of them. If it is
/// ready, the region that its header announces is mapped and its descriptor is closed; if it
/// failed, nothing is held. No object is created.
pub proof fn opening_leaves_nothing_behind(grants: Seq<bool>, num_bins: u32)
    requires
        total_size(num_bins as nat) <= usize::MAX,
    ensures
        opening_holds(grants, num_bins) == held_in_opening(opening_after(grants, num_bins)),
        grants.len() >= 5 ==> opening_after(grants, num_bins) is Ready || opening_after(
            grants,
            num_bins,
        ) is Failed,
        opening_after(grants, num_bins) is Ready ==> opening_holds(grants, num_bins) == (Held {
            descriptor: false,
            mapped: Some(total_size(num_bins as nat)),
            object: false,
        }),
        opening_after(grants, num_bins) is Failed ==> opening_holds(grants, num_bins)
            == nothing_held(),
{
    opening_stays_on_course(grants, num_bins);
}

/// At every point of an opening the announced size is the one in use, and what is held is
/// what the step says.
proof fn opening_stays_on_course(grants: Seq<bool>, num_bins: u32)
    requires
        total_size(num_bins as nat) <= usize::MAX,
    ensures
        opening_holds(grants, num_bins) == held_in_opening(opening_after(grants, num_bins)),
        opening_left(opening_after(grants, num_bins)) == 0 || opening_left(
            opening_after(grants, num_bins),
        ) + grants.len() <= 5,
        match opening_after(grants, num_bins) {
            OpenStep::UnmappingHeader(size) => size == total_size(num_bins as nat),
            OpenStep::MappingWhole(size) => size == total_size(num_bins as nat),
            OpenStep::ClosingMapped(size) => size == total_size(num_bins as nat),
            OpenStep::Ready(size) => size == total_size(num_bins as nat),
            _ => true,
        },
    decreases grants.len(),
{
    if grants.len() > 0 {
        opening_stays_on_course(grants.drop_last(), num_bins);
    }
}

/// An opening is ready exactly when opening the object and both mappings were granted.
pub proof fn opening_succeeds(
    open: bool,
    map_header: bool,
    unmap: bool,
    map_whole: bool,
    close: bool,
    num_bins: u32,
)
    ensures
        opening_after(seq![open, map_header, unmap, map_whole, close], num_bins) is Ready <==> open
            && map_header && map_whole,
{
    let all = seq![open, map_header, unmap, map_whole, close];
    assert(all.drop_last() =~= seq![open, map_header, unmap, map_whole]);
    assert(all.drop_last().drop_last() =~= seq![open, map_header, unmap]);
    assert(all.drop_last().drop_last().drop_last() =~= seq![open, map_header]);
    assert(all.drop_last().drop_last().drop_last().drop_last() =~= seq![open]);
    reveal_with_fuel(opening_after, 6);
}

/// A creation that is granted everything opens the object, gives it the wanted length, maps
/// that many bytes and closes the descriptor, in this order.
pub proof fn granted_creation_makes_its_calls(size: usize, close: bool)
    ensures
        creation_call(creation_after(seq![]), size) == ShmCall::CreateObject,
        creation_call(creation_after(seq![true]), size) == ShmCall::Resize(size),
        creation_call(creation_after(seq![true, true]), size) == ShmCall::MapBytes(size),
        creation_call(creation_after(seq![true, true, true]), size) == ShmCall::Close,
        creation_after(seq![true, true, true, close]) == CreateStep::Ready,
        creation_call(CreateStep::Ready, size) == ShmCall::Nothing,
{
    reveal_with_fuel(creation_after, 5);
    assert(seq![true].drop_last() =~= seq![]);
    assert(seq![true, true].drop_last() =~= seq![true]);
    assert(seq![true, true, true].drop_last() =~= seq![true, true]);
    assert(seq![true, true, true, close].drop_last() =~= seq![true, true, true]);
}

/// An object that was opened, but could not be given its length or be mapped, is closed and
/// then removed; one that could not be opened takes no further call.
pub proof fn refused_creation_cleans_up(size: usize, close: bool)
    ensures
        creation_call(creation_after(seq![false]), size) == ShmCall::Nothing,
        creation_call(creation_after(seq![true, false]), size) == ShmCall::Close,
        creation_call(creation_after(seq![true, false, close]), size) == ShmCall::Unlink,
        creation_call(creation_after(seq![true, true, false]), size) == ShmCall::Close,
        creation_call(creation_after(seq![true, true, false, close]), size) == ShmCall::Unlink,
{
    reveal_with_fuel(creation_after, 5);
    assert(seq![false].drop_last() =~= seq![]);
    assert(seq![true].drop_last() =~= seq![]);
    assert(seq![true, true].drop_last() =~= seq![true]);
    assert(seq![true, false].drop_last() =~= seq![true]);
    assert(seq![true, false, close].drop_last() =~= seq![true, false]);
    assert(seq![true, true, false].drop_last() =~= seq![true, true]);
    assert(seq![true, true, false, close].drop_last() =~= seq![true, true, false]);
}

/// An opening that is granted everything opens the object, maps the header, undoes that, maps
/// the whole region that the header announces and closes the descriptor, in this order.
pub proof fn granted_opening_makes_its_calls(num_bins: u32, size: usize, unmap: bool, close: bool)
    requires
        size == 96 + 8 * num_bins,
    ensures
        opening_call(opening_after(seq![], num_bins)) == ShmCall::OpenObject,
        opening_call(opening_after(seq![true], num_bins)) == ShmCall::MapBytes(96),
        opening_call(opening_after(seq![true, true], num_bins)) == ShmCall::UnmapBytes(96),
        opening_call(opening_after(seq![true, true, unmap], num_bins)) == ShmCall::MapBytes(size),
        opening_call(opening_after(seq![true, true, unmap, true], num_bins)) == ShmCall::Close,
        opening_after(seq![true, true, unmap, true, close], num_bins) == OpenStep::Ready(size),
{
    reveal_with_fuel(opening_after, 6);
    assert(seq![true].drop_last() =~= seq![]);
    assert(seq![true, true].drop_last() =~= seq![true]);
    assert(seq![true, true, unmap].drop_last() =~= seq![true, true]);
    assert(seq![true, true, unmap, true].drop_last() =~= seq![true, true, unmap]);
    assert(seq![true, true, unmap, true, close].drop_last() =~= seq![true, true, unmap, true]);
}

/// An object that could not be mapped is closed, and one that could not be opened takes no
/// further call.
pub proof fn refused_opening_closes(num_bins: u32, unmap: bool)
    ensures
        opening_call(opening_after(seq![false], num_bins)) == ShmCall::Nothing,
        opening_call(opening_after(seq![true, false], num_bins)) == ShmCall::Close,
        opening_call(opening_after(seq![true, true, unmap, false], num_bins)) == ShmCall::Close,
{
    reveal_with_fuel(opening_after, 5);
    assert(seq![false].drop_last() =~= seq![]);
    assert(seq![true].drop_last() =~= seq![]);
    assert(seq![true, true].drop_last() =~= seq![true]);
    assert(seq![true, false].drop_last() =~= seq![true]);
    assert(seq![true, true, unmap].drop_last() =~= seq![true, true]);
    assert(seq![true, true, unmap, false].drop_last() =~= seq![true, true, unmap]);
}

} // verus!
