//! Boot-time logic of the LanternOS loader.
//!
//! Reading the ELF images of programs ([`elf`]) and the device tree ([`fdt`]),
//! laying an image out in memory ([`image`]), working out the kernel operations
//! that bring confined programs up ([`launch`], [`boot`]), the launch
//! descriptions that there are, what the trap handler has to say ([`trap`],
//! [`bench`]), and what the programs themselves do ([`programs`]). The modules
//! whose names end in `_laws` state what all of it guarantees.

pub mod bytes;
pub mod megapage;
pub mod elf;
pub mod elf_laws;
pub mod fdt;
pub mod fdt_laws;
pub mod image;
pub mod image_laws;
pub mod pmm;
pub mod paging;
pub mod launch;
pub mod launch_laws;
pub mod launch_order_laws;
pub mod launch_memory_laws;
pub mod load_laws;
pub mod boot;
pub mod boot_laws;
pub mod boot_plan_laws;
pub mod trap;
pub mod bench;
pub mod bench_laws;
pub mod uart;
pub mod demo;
pub mod loader;
pub mod broker_demo;
pub mod frame_demo;
pub mod keystore_demo;
pub mod store_demo;
pub mod wasm_probe_demo;
pub mod demo_laws;
pub mod machine_laws;
pub mod programs;
pub mod view_laws;
