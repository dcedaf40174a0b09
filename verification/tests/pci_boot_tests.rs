use kernel_mm::boot_frame::BootInfoFrameAllocator;
use kernel_mm::pci::{pci_config_address, pci_data_word, FunctionInfo};
use kernel_mm::region::{MemoryRegion, RegionKind};

#[test]
fn pci_config_address_formula() {
    assert_eq!(pci_config_address(0, 0, 0, 0), 0x8000_0000);
    assert_eq!(pci_config_address(1, 2, 3, 0x10), 0x8001_1310);
    // The two low offset bits never reach the address word.
    assert_eq!(pci_config_address(0, 0, 0, 0x13), 0x8000_0010);
    assert_eq!(pci_config_address(0xFF, 0x1F, 0x7, 0xFC), 0x80FF_FFFC);
}

#[test]
fn pci_data_word_selects_by_offset() {
    // Word-aligned offsets pass the data port's word through; the bits a
    // misaligned offset selects lie above a 16-bit port and are zero.
    assert_eq!(pci_data_word(0xABCD, 0), 0xABCD);
    assert_eq!(pci_data_word(0xABCD, 4), 0xABCD);
    assert_eq!(pci_data_word(0xABCD, 2), 0);
    assert_eq!(pci_data_word(0xABCD, 6), 0);
}

#[test]
fn function_info_starts_zeroed() {
    let mut info = FunctionInfo::new();
    assert_eq!(info.vendor_id, 0);
    assert_eq!(info.device_id, 0);
    assert_eq!(info.class, 0);
    assert_eq!(info.bist, 0);
    info.read_in_device();
    assert_eq!(info, FunctionInfo::new());
}

#[test]
fn boot_allocator_lists_usable_frames_in_order() {
    let map = vec![
        MemoryRegion { base_address: 0, length: 8192, kind: RegionKind::Usable },
        MemoryRegion { base_address: 0x10_0000, length: 4096, kind: RegionKind::Reserved },
        // Length not a frame multiple: the last, partial step still counts.
        MemoryRegion { base_address: 0x20_0000, length: 5000, kind: RegionKind::Usable },
    ];
    let boot = BootInfoFrameAllocator::initialize(map);
    let addrs = boot.find_usable_region();
    assert_eq!(addrs, vec![0, 4096, 0x20_0000, 0x20_1000]);
}

#[test]
fn boot_allocator_hands_out_each_usable_frame_once() {
    let map = vec![MemoryRegion { base_address: 4096, length: 8192, kind: RegionKind::Usable }];
    let mut boot = BootInfoFrameAllocator::initialize(map);
    assert_eq!(boot.allocate_frame(), Some(4096));
    assert_eq!(boot.allocate_frame(), Some(8192));
    assert_eq!(boot.allocate_frame(), None);
    assert_eq!(boot.allocate_frame(), None);
}
