//! What each demonstration boots: its resources, what each program gets, and
//! what is shared.

use crate::boot::{boot_of, BootPlan, BootPlanView, LaunchView, Resource, Share};
use crate::image::LoadError;
use crate::launch::{ArenaGrant, CPtr, ProgramSpecView, Rights};
use crate::{broker_demo, frame_demo, keystore_demo, loader, store_demo, wasm_probe_demo};
use vstd::prelude::*;

verus! {

/// A program with this image and argument, which gets the capabilities at the
/// first slots of the pairs at the second ones, its own space at a slot of its
/// own if it gets that, a heap of so many megapages, and an arena if it gets one.
pub open spec fn gets(
    elf: Seq<u8>,
    arg0: u64,
    grants: Seq<(CPtr, CPtr)>,
    self_cnode_dest: Option<CPtr>,
    heap_megapages: u64,
    arena: Option<ArenaGrant>,
) -> ProgramSpecView {
    ProgramSpecView { elf, arg0, grants, self_cnode_dest, heap_megapages, arena }
}

/// The result is that of booting these resources, programs and shared frames,
/// when memory ends at `mem_end`.
pub open spec fn boots(
    resources: Seq<Resource>,
    programs: Seq<ProgramSpecView>,
    shares: Seq<Share>,
    mem_end: u64,
    result: Result<BootPlan, LoadError>,
) -> bool {
    let launch = LaunchView { resources, programs, shares };
    match result {
        Ok(plan) => boot_of(launch, mem_end as int) == Ok::<BootPlanView, LoadError>(plan@),
        Err(error) => boot_of(launch, mem_end as int) == Err::<BootPlanView, LoadError>(error),
    }
}

/// The hello service is loaded twice, as server and as client; each gets a copy
/// of one endpoint, with all rights and badge 42, at slot 1.
pub proof fn law_hello_boots(
    mem_end: u64,
    elf: &[u8],
    result: Result<BootPlan, LoadError>,
)
    requires
        call_ensures(loader::run, (mem_end, elf), result),
    ensures
        boots(
            seq![
                Resource::Endpoint,
                Resource::Badged { source: 2, rights: Rights::All, badge: 42 },
            ],
            seq![
                gets(
                    elf@,
                    0,
                    seq![(3u64, 1u64)],
                    None,
                    0,
                    None,
                ),
                gets(
                    elf@,
                    1,
                    seq![(3u64, 1u64)],
                    None,
                    0,
                    None,
                ),
            ],
            Seq::empty(),
            mem_end,
            result,
        ),
{
    let launch = LaunchView {
        resources: seq![
                Resource::Endpoint,
                Resource::Badged { source: 2, rights: Rights::All, badge: 42 },
        ],
        programs: seq![
                gets(
                    elf@,
                    0,
                    seq![(3u64, 1u64)],
                    None,
                    0,
                    None,
                ),
                gets(
                    elf@,
                    1,
                    seq![(3u64, 1u64)],
                    None,
                    0,
                    None,
                ),
        ],
        shares: Seq::empty(),
    };
    let view = loader::hello_launch(elf@);
    assert(launch.programs[0].grants =~= view.programs[0].grants);
    assert(launch.programs[1].grants =~= view.programs[1].grants);
    assert(launch.resources =~= view.resources);
    assert(launch.programs =~= view.programs);
    assert(launch.shares =~= view.shares);
}

/// The broker gets the endpoint at slot 1, the notification that it administers
/// at slot 2, and its own space at slot 0; its client gets the endpoint only.
pub proof fn law_broker_boots(
    mem_end: u64,
    service: &[u8],
    client: &[u8],
    result: Result<BootPlan, LoadError>,
)
    requires
        call_ensures(broker_demo::run, (mem_end, service, client), result),
    ensures
        boots(
            seq![
                Resource::Endpoint,
                Resource::Notification,
            ],
            seq![
                gets(
                    service@,
                    0,
                    seq![(2u64, 1u64), (3u64, 2u64)],
                    Some(0u64),
                    0,
                    None,
                ),
                gets(
                    client@,
                    1,
                    seq![(2u64, 1u64)],
                    None,
                    0,
                    None,
                ),
            ],
            Seq::empty(),
            mem_end,
            result,
        ),
{
    let launch = LaunchView {
        resources: seq![
                Resource::Endpoint,
                Resource::Notification,
        ],
        programs: seq![
                gets(
                    service@,
                    0,
                    seq![(2u64, 1u64), (3u64, 2u64)],
                    Some(0u64),
                    0,
                    None,
                ),
                gets(
                    client@,
                    1,
                    seq![(2u64, 1u64)],
                    None,
                    0,
                    None,
                ),
        ],
        shares: Seq::empty(),
    };
    let view = broker_demo::broker_launch(service@, client@);
    assert(launch.programs[0].grants =~= view.programs[0].grants);
    assert(launch.programs[1].grants =~= view.programs[1].grants);
    assert(launch.resources =~= view.resources);
    assert(launch.programs =~= view.programs);
    assert(launch.shares =~= view.shares);
}

/// The frame service gets the endpoint, its client that and the notifications for
/// success and failure; and both have one frame at one address.
pub proof fn law_frame_boots(
    mem_end: u64,
    service: &[u8],
    client: &[u8],
    result: Result<BootPlan, LoadError>,
)
    requires
        call_ensures(frame_demo::run, (mem_end, service, client), result),
    ensures
        boots(
            seq![
                Resource::Endpoint,
                Resource::Notification,
                Resource::Notification,
            ],
            seq![
                gets(
                    service@,
                    0,
                    seq![(2u64, 1u64)],
                    None,
                    0,
                    None,
                ),
                gets(
                    client@,
                    1,
                    seq![(2u64, 1u64), (3u64, 2u64), (4u64, 3u64)],
                    None,
                    0,
                    None,
                ),
            ],
            seq![
                Share { a: 0, vaddr_a: 0x9000_0000, b: 1, vaddr_b: 0x9000_0000 },
            ],
            mem_end,
            result,
        ),
{
    let launch = LaunchView {
        resources: seq![
                Resource::Endpoint,
                Resource::Notification,
                Resource::Notification,
        ],
        programs: seq![
                gets(
                    service@,
                    0,
                    seq![(2u64, 1u64)],
                    None,
                    0,
                    None,
                ),
                gets(
                    client@,
                    1,
                    seq![(2u64, 1u64), (3u64, 2u64), (4u64, 3u64)],
                    None,
                    0,
                    None,
                ),
        ],
        shares: seq![
                Share { a: 0, vaddr_a: 0x9000_0000, b: 1, vaddr_b: 0x9000_0000 },
            ],
    };
    let view = frame_demo::frame_launch(service@, client@);
    assert(launch.programs[0].grants =~= view.programs[0].grants);
    assert(launch.programs[1].grants =~= view.programs[1].grants);
    assert(launch.resources =~= view.resources);
    assert(launch.programs =~= view.programs);
    assert(launch.shares =~= view.shares);
}

/// The keystore gets the endpoint and its own space, its client the endpoint and
/// the notifications for success and failure; and both have one frame at one
/// address.
pub proof fn law_keystore_boots(
    mem_end: u64,
    service: &[u8],
    client: &[u8],
    result: Result<BootPlan, LoadError>,
)
    requires
        call_ensures(keystore_demo::run, (mem_end, service, client), result),
    ensures
        boots(
            seq![
                Resource::Endpoint,
                Resource::Notification,
                Resource::Notification,
            ],
            seq![
                gets(
                    service@,
                    0,
                    seq![(2u64, 1u64)],
                    Some(0u64),
                    0,
                    None,
                ),
                gets(
                    client@,
                    1,
                    seq![(2u64, 1u64), (3u64, 3u64), (4u64, 4u64)],
                    None,
                    0,
                    None,
                ),
            ],
            seq![
                Share { a: 0, vaddr_a: 0x9000_0000, b: 1, vaddr_b: 0x9000_0000 },
            ],
            mem_end,
            result,
        ),
{
    let launch = LaunchView {
        resources: seq![
                Resource::Endpoint,
                Resource::Notification,
                Resource::Notification,
        ],
        programs: seq![
                gets(
                    service@,
                    0,
                    seq![(2u64, 1u64)],
                    Some(0u64),
                    0,
                    None,
                ),
                gets(
                    client@,
                    1,
                    seq![(2u64, 1u64), (3u64, 3u64), (4u64, 4u64)],
                    None,
                    0,
                    None,
                ),
        ],
        shares: seq![
                Share { a: 0, vaddr_a: 0x9000_0000, b: 1, vaddr_b: 0x9000_0000 },
            ],
    };
    let view = keystore_demo::keystore_launch(service@, client@);
    assert(launch.programs[0].grants =~= view.programs[0].grants);
    assert(launch.programs[1].grants =~= view.programs[1].grants);
    assert(launch.resources =~= view.resources);
    assert(launch.programs =~= view.programs);
    assert(launch.shares =~= view.shares);
}

/// The store sits between the keystore and its own client: it shares one endpoint
/// and one frame with each, and those two share nothing. The client also gets
/// the notifications for success and failure.
pub proof fn law_store_boots(
    mem_end: u64,
    keystore: &[u8],
    store: &[u8],
    client: &[u8],
    result: Result<BootPlan, LoadError>,
)
    requires
        call_ensures(store_demo::run, (mem_end, keystore, store, client), result),
    ensures
        boots(
            seq![
                Resource::Endpoint,
                Resource::Endpoint,
                Resource::Notification,
                Resource::Notification,
            ],
            seq![
                gets(
                    keystore@,
                    0,
                    seq![(2u64, 1u64)],
                    Some(0u64),
                    0,
                    None,
                ),
                gets(
                    store@,
                    1,
                    seq![(2u64, 1u64), (3u64, 3u64)],
                    Some(0u64),
                    0,
                    None,
                ),
                gets(
                    client@,
                    2,
                    seq![(3u64, 1u64), (4u64, 3u64), (5u64, 4u64)],
                    None,
                    0,
                    None,
                ),
            ],
            seq![
                Share { a: 0, vaddr_a: 0x9000_0000, b: 1, vaddr_b: 0x9000_0000 },
                Share { a: 1, vaddr_a: 0x9001_0000, b: 2, vaddr_b: 0x9000_0000 },
            ],
            mem_end,
            result,
        ),
{
    let launch = LaunchView {
        resources: seq![
                Resource::Endpoint,
                Resource::Endpoint,
                Resource::Notification,
                Resource::Notification,
        ],
        programs: seq![
                gets(
                    keystore@,
                    0,
                    seq![(2u64, 1u64)],
                    Some(0u64),
                    0,
                    None,
                ),
                gets(
                    store@,
                    1,
                    seq![(2u64, 1u64), (3u64, 3u64)],
                    Some(0u64),
                    0,
                    None,
                ),
                gets(
                    client@,
                    2,
                    seq![(3u64, 1u64), (4u64, 3u64), (5u64, 4u64)],
                    None,
                    0,
                    None,
                ),
        ],
        shares: seq![
                Share { a: 0, vaddr_a: 0x9000_0000, b: 1, vaddr_b: 0x9000_0000 },
                Share { a: 1, vaddr_a: 0x9001_0000, b: 2, vaddr_b: 0x9000_0000 },
            ],
    };
    let view = store_demo::store_launch(keystore@, store@, client@);
    assert(launch.programs[0].grants =~= view.programs[0].grants);
    assert(launch.programs[1].grants =~= view.programs[1].grants);
    assert(launch.programs[2].grants =~= view.programs[2].grants);
    assert(launch.resources =~= view.resources);
    assert(launch.programs =~= view.programs);
    assert(launch.shares =~= view.shares);
}

/// The probe gets the notifications for success and failure, one megapage of
/// heap, and an arena of two frames, with its own address space to map them in.
pub proof fn law_probe_boots(
    mem_end: u64,
    probe: &[u8],
    result: Result<BootPlan, LoadError>,
)
    requires
        call_ensures(wasm_probe_demo::run, (mem_end, probe), result),
    ensures
        boots(
            seq![
                Resource::Notification,
                Resource::Notification,
            ],
            seq![
                gets(
                    probe@,
                    0,
                    seq![(2u64, 4u64), (3u64, 5u64)],
                    None,
                    1,
                    Some(
                        ArenaGrant { megapages: 2, self_vspace_dest: 6, frame_dest_base: 7 },
                    ),
                ),
            ],
            Seq::empty(),
            mem_end,
            result,
        ),
{
    let launch = LaunchView {
        resources: seq![
                Resource::Notification,
                Resource::Notification,
        ],
        programs: seq![
                gets(
                    probe@,
                    0,
                    seq![(2u64, 4u64), (3u64, 5u64)],
                    None,
                    1,
                    Some(
                        ArenaGrant { megapages: 2, self_vspace_dest: 6, frame_dest_base: 7 },
                    ),
                ),
        ],
        shares: Seq::empty(),
    };
    let view = wasm_probe_demo::probe_launch(probe@);
    assert(launch.programs[0].grants =~= view.programs[0].grants);
    assert(launch.resources =~= view.resources);
    assert(launch.programs =~= view.programs);
    assert(launch.shares =~= view.shares);
}

} // verus!
