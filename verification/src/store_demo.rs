//! The store: a service that keeps a client's files, encrypted by the keystore.
//!
//! Three programs. The keystore and the store share one frame and one
//! endpoint, the store and its client another of each; the store has both
//! frames in its one address space, at different addresses. Each service mints
//! what it hands out itself, over IPC, and so also gets a capability to its own
//! capability space.

use crate::boot::{
    boot, boot_of, launch_fits, BootPlan, BootPlanView, Launch, LaunchView, Resource, Share,
};
use crate::boot_laws::launch_closed;
use crate::image::LoadError;
use crate::launch::{all_slots_at_most, program_views, CPtr, ProgramSpec, ProgramSpecView};
use vstd::prelude::*;

verus! {

/// The slot of the keystore's endpoint, in the keystore's capability space and
/// in the store's.
pub const KS_ENDPOINT_CPTR: CPtr = 1;

/// The store's slot for the endpoint that its client reaches it on.
pub const STORE_SERVICE_OWN_ENDPOINT_CPTR: CPtr = 3;

/// The client's slot for that endpoint.
pub const STORE_CLIENT_ENDPOINT_CPTR: CPtr = 1;

/// The services' slots for their own capability spaces.
pub const KEYSTORE_SELF_CNODE_CPTR: CPtr = 0;

pub const STORE_SELF_CNODE_CPTR: CPtr = 0;

/// The client's slots for the notifications that it signals its verdict on.
pub const CLIENT_SUCCESS_CPTR: CPtr = 3;

pub const CLIENT_FAILURE_CPTR: CPtr = 4;

/// Where the keystore and the store have the frame between them.
pub const KS_FRAME_VADDR: u64 = 0x9000_0000;

/// Where the store has the frame between it and its client.
pub const CLIENT_FRAME_VADDR_ON_STORE: u64 = 0x9001_0000;

/// Where the client has that frame.
pub const CLIENT_FRAME_VADDR: u64 = 0x9000_0000;

pub const ARG0_KEYSTORE: u64 = 0;

pub const ARG0_STORE: u64 = 1;

pub const ARG0_CLIENT: u64 = 2;

/// The root task's slots for the two endpoints and the two notifications.
pub const KS_ENDPOINT_ROOT_CPTR: CPtr = 2;

pub const SS_ENDPOINT_ROOT_CPTR: CPtr = 3;

pub const SUCCESS_ROOT_CPTR: CPtr = 4;

pub const FAILURE_ROOT_CPTR: CPtr = 5;

/// Two endpoints and two notifications, the keystore, the store, the client,
/// and a frame between each two that talk.
pub open spec fn store_launch(keystore: Seq<u8>, store: Seq<u8>, client: Seq<u8>) -> LaunchView {
    LaunchView {
        resources: seq![
            Resource::Endpoint,
            Resource::Endpoint,
            Resource::Notification,
            Resource::Notification,
        ],
        programs: seq![
            ProgramSpecView {
                elf: keystore,
                arg0: ARG0_KEYSTORE,
                grants: seq![(KS_ENDPOINT_ROOT_CPTR, KS_ENDPOINT_CPTR)],
                self_cnode_dest: Some(KEYSTORE_SELF_CNODE_CPTR),
                heap_megapages: 0,
                arena: None,
            },
            ProgramSpecView {
                elf: store,
                arg0: ARG0_STORE,
                grants: seq![
                    (KS_ENDPOINT_ROOT_CPTR, KS_ENDPOINT_CPTR),
                    (SS_ENDPOINT_ROOT_CPTR, STORE_SERVICE_OWN_ENDPOINT_CPTR),
                ],
                self_cnode_dest: Some(STORE_SELF_CNODE_CPTR),
                heap_megapages: 0,
                arena: None,
            },
            ProgramSpecView {
                elf: client,
                arg0: ARG0_CLIENT,
                grants: seq![
                    (SS_ENDPOINT_ROOT_CPTR, STORE_CLIENT_ENDPOINT_CPTR),
                    (SUCCESS_ROOT_CPTR, CLIENT_SUCCESS_CPTR),
                    (FAILURE_ROOT_CPTR, CLIENT_FAILURE_CPTR),
                ],
                self_cnode_dest: None,
                heap_megapages: 0,
                arena: None,
            },
        ],
        shares: seq![
            Share { a: 0, vaddr_a: KS_FRAME_VADDR, b: 1, vaddr_b: KS_FRAME_VADDR },
            Share {
                a: 1,
                vaddr_a: CLIENT_FRAME_VADDR_ON_STORE,
                b: 2,
                vaddr_b: CLIENT_FRAME_VADDR,
            },
        ],
    }
}

/// The launch description fits the machine and refers only to what exists.
pub proof fn law_store_launch_is_sound(keystore: Seq<u8>, store: Seq<u8>, client: Seq<u8>)
    requires
        keystore.len() <= u64::MAX,
        store.len() <= u64::MAX,
        client.len() <= u64::MAX,
    ensures
        launch_fits(store_launch(keystore, store, client)),
        launch_closed(store_launch(keystore, store, client)),
{
    reveal_with_fuel(all_slots_at_most, 4);
}

/// Works out how to boot the keystore, the store and its client from their ELF
/// images, with a frame between each two that talk, when memory ends at
/// `mem_end`. The client runs first.
pub fn run(mem_end: u64, keystore: &[u8], store: &[u8], client: &[u8]) -> (result: Result<
    BootPlan,
    LoadError,
>)
    ensures
        (match result {
            Ok(plan) => boot_of(store_launch(keystore@, store@, client@), mem_end as int) == Ok::<
                BootPlanView,
                LoadError,
            >(plan@),
            Err(error) => boot_of(store_launch(keystore@, store@, client@), mem_end as int)
                == Err::<BootPlanView, LoadError>(error),
        }),
{
    let resources: [Resource; 4] = [
        Resource::Endpoint,
        Resource::Endpoint,
        Resource::Notification,
        Resource::Notification,
    ];
    let keystore_grants: [(CPtr, CPtr); 1] = [(KS_ENDPOINT_ROOT_CPTR, KS_ENDPOINT_CPTR)];
    let store_grants: [(CPtr, CPtr); 2] = [
        (KS_ENDPOINT_ROOT_CPTR, KS_ENDPOINT_CPTR),
        (SS_ENDPOINT_ROOT_CPTR, STORE_SERVICE_OWN_ENDPOINT_CPTR),
    ];
    let client_grants: [(CPtr, CPtr); 3] = [
        (SS_ENDPOINT_ROOT_CPTR, STORE_CLIENT_ENDPOINT_CPTR),
        (SUCCESS_ROOT_CPTR, CLIENT_SUCCESS_CPTR),
        (FAILURE_ROOT_CPTR, CLIENT_FAILURE_CPTR),
    ];
    let programs: [ProgramSpec; 3] = [
        ProgramSpec {
            elf_bytes: keystore,
            arg0: ARG0_KEYSTORE,
            grants: keystore_grants.as_slice(),
            self_cnode_dest: Some(KEYSTORE_SELF_CNODE_CPTR),
            heap_megapages: 0,
            arena: None,
        },
        ProgramSpec {
            elf_bytes: store,
            arg0: ARG0_STORE,
            grants: store_grants.as_slice(),
            self_cnode_dest: Some(STORE_SELF_CNODE_CPTR),
            heap_megapages: 0,
            arena: None,
        },
        ProgramSpec {
            elf_bytes: client,
            arg0: ARG0_CLIENT,
            grants: client_grants.as_slice(),
            self_cnode_dest: None,
            heap_megapages: 0,
            arena: None,
        },
    ];
    let shares: [Share; 2] = [
        Share { a: 0, vaddr_a: KS_FRAME_VADDR, b: 1, vaddr_b: KS_FRAME_VADDR },
        Share {
            a: 1,
            vaddr_a: CLIENT_FRAME_VADDR_ON_STORE,
            b: 2,
            vaddr_b: CLIENT_FRAME_VADDR,
        },
    ];
    let launch: Launch = Launch {
        resources: resources.as_slice(),
        programs: programs.as_slice(),
        shares: shares.as_slice(),
    };
    proof {
        let view = store_launch(keystore@, store@, client@);
        assert(keystore.len() == keystore@.len() && store.len() == store@.len() && client.len()
            == client@.len());
        assert(resources@ =~= view.resources);
        assert(keystore_grants@ =~= view.programs[0].grants);
        assert(store_grants@ =~= view.programs[1].grants);
        assert(client_grants@ =~= view.programs[2].grants);
        assert(program_views(programs@) =~= view.programs);
        assert(shares@ =~= view.shares);
        law_store_launch_is_sound(keystore@, store@, client@);
    }
    boot(&launch, mem_end)
}

} // verus!
