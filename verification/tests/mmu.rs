use sfuzz::elfparser::ProgramHeader;
use sfuzz::emulator::Fault;
use sfuzz::mmu::{Mmu, Perms};

#[test]
fn normal_valid_allocation() {
    let mut mem = Mmu::new(8 * 1024 * 1024);

    if mem.allocate(0x40, Perms::READ | Perms::WRITE).is_none() {
        panic!("Something went wrong during allocation");
    }
}

#[test]
fn very_large_allocation() {
    let mut mem = Mmu::new(8 * 1024 * 1024);

    if mem.allocate(8 * 1024 * 1024, Perms::READ | Perms::WRITE).is_some() {
        panic!("Should have errored out due to large size");
    }
}

#[test]
fn multiple_allocations() {
    let mut mem = Mmu::new(8 * 1024 * 1024);
    let mut addrs = Vec::new();
    let mut i = 0;

    while let Some(x) = mem.allocate(0x40, Perms::READ | Perms::WRITE) {
        if i >= 5 {
            break;
        }
        i += 1;
        addrs.push(x);
    }
    assert_eq!(addrs.len(), 5);
}

#[test]
fn zero_allocation() {
    let mut mem = Mmu::new(8 * 1024 * 1024);
    let mut _addr1: usize = 0;
    let mut _addr2: usize = 0;

    if let Some(x) = mem.allocate(0, Perms::READ | Perms::WRITE) {
        _addr1 = x;
    } else {
        panic!("Size of zero should still return minimum allocation");
    }
    if let Some(x) = mem.allocate(0, Perms::READ | Perms::WRITE) {
        _addr2 = x;
    } else {
        panic!("Size of zero should still return minimum allocation");
    }

    // Can't easily check the size, but we can make sure that the second 0 allocation
    // is allocated at a higher address than the first
    assert!(_addr1 < _addr2);
}

#[test]
fn normal_valid_allocation_check_perms() {
    let mut mem = Mmu::new(8 * 1024 * 1024);
    let mut _addr: usize = 0;

    if let Some(x) = mem.allocate(0x40, Perms::READ | Perms::WRITE) {
        _addr = x;
    } else {
        panic!("Something went wrong during allocation");
    }
    assert!(Mmu::check_perms(mem.permissions[_addr + 0x20], Perms::WRITE).is_some());
}

#[test]
fn normal_valid_free() {
    let mut mem = Mmu::new(8 * 1024 * 1024);
    let mut _addr: usize = 0;

    if let Some(x) = mem.allocate(0x40, Perms::READ | Perms::WRITE) {
        _addr = x;
    } else {
        panic!("failure during allocation");
    }

    if let Err(e) = mem.free(_addr) {
        panic!("unexpected failure during first free: {:?}", e);
    }
}

#[test]
fn free_on_memory_not_allocated_by_alloc() {
    let mut mem = Mmu::new(1024 * 1024);
    if let Err(v) = mem.free(1024) {
        match v {
            Fault::InvalidFree(_) => {}
            _ => {
                panic!("Free threw the wrong type of error");
            }
        }
    } else {
        panic!("Free did not throw any error at all");
    }
}

#[test]
fn double_free() {
    let mut mem = Mmu::new(8 * 1024 * 1024);
    let mut _addr: usize = 0;

    if let Some(x) = mem.allocate(0x40, Perms::READ | Perms::WRITE) {
        _addr = x;
    } else {
        panic!("failure during allocation");
    }

    if let Err(e) = mem.free(_addr) {
        panic!("unexpected failure during first free: {:?}", e);
    }

    if let Ok(()) = mem.free(_addr) {
        panic!("Second free on same memory should have given an error");
    }
}

#[test]
fn multiple_frees() {
    let mut mem = Mmu::new(8 * 1024 * 1024);
    let mut addrs = Vec::new();
    let mut i = 0;

    while let Some(x) = mem.allocate(0x40, Perms::READ | Perms::WRITE) {
        if i > 5 {
            break;
        }
        i += 1;
        addrs.push(x);
    }

    while let Some(x) = addrs.pop() {
        if let Err(e) = mem.free(x) {
            panic!("unexpected failure during one of the free's: {:?}", e);
        }
    }
}

#[test]
fn normal_valid_segmentloader() {
    let mut mem = Mmu::new(8 * 1024 * 1024);
    let seg = ProgramHeader {
        seg_type: 0x1,
        flags: 0x5,
        offset: 0x0,
        vaddr: 0x400000,
        paddr: 0x400000,
        filesz: 0x100,
        memsz: 0x100,
        align: 0x1000,
    };
    let data = vec![0x41u8; 0x200];
    let len = 0x20;
    let mut read_buf = vec![0; len];

    if mem.load_segment(seg, &data).is_none() {
        panic!("Error during initial load");
    }

    if let Err(e) = mem.read_into(0x400000, &mut read_buf, 0x20, Perms::READ) {
        panic!("Error while attempting to read memory with fault: {:?}", e);
    }

    read_buf.iter().for_each(|e| assert_eq!(*e, 0x41));
}

#[test]
fn load_multiple_segments() {
    let mut mem = Mmu::new(8 * 1024 * 1024);
    let seg1 = ProgramHeader {
        seg_type: 0x1,
        flags: 0x5,
        offset: 0x0,
        vaddr: 0x400000,
        paddr: 0x400000,
        filesz: 0x100,
        memsz: 0x100,
        align: 0x1000,
    };
    let seg2 = ProgramHeader {
        seg_type: 0x1,
        flags: 0x5,
        offset: 0x0,
        vaddr: 0x410000,
        paddr: 0x410000,
        filesz: 0x100,
        memsz: 0x100,
        align: 0x1000,
    };
    let data1 = vec![0x41u8; 0x200];
    let data2 = vec![0x42u8; 0x200];
    let len = 0x20;
    let mut read_buf = vec![0; len];

    if mem.load_segment(seg1, &data1).is_none() {
        panic!("Error during seg1 load");
    }
    if mem.load_segment(seg2, &data2).is_none() {
        panic!("Error during seg2 load");
    }

    if let Err(e) = mem.read_into(0x400000, &mut read_buf, 0x20, Perms::READ) {
        panic!(
            "Error while attempting to read memory from seg1 with fault: {:?}",
            e
        );
    }
    read_buf.iter().for_each(|e| assert_eq!(*e, 0x41));

    if let Err(e) = mem.read_into(0x410000, &mut read_buf, 0x20, Perms::READ) {
        panic!(
            "Error while attempting to read memory from seg2 with fault: {:?}",
            e
        );
    }
    read_buf.iter().for_each(|e| assert_eq!(*e, 0x42));
}

#[test]
fn valid_write_mem() {
    let mut mem = Mmu::new(8 * 1024 * 1024);
    let seg = ProgramHeader {
        seg_type: 0x1,
        flags: 0x2,
        offset: 0x0,
        vaddr: 0x400000,
        paddr: 0x400000,
        filesz: 0x200,
        memsz: 0x200,
        align: 0x1000,
    };
    let load_data = vec![0x41u8; 0x200];
    let write_data = vec![0x42u8; 0x20];
    if mem.load_segment(seg, &load_data).is_none() {
        panic!("Error during seg load");
    }

    if let Err(e) = mem.write_mem(0x400000, &write_data, 0x20) {
        panic!("Error occured while writing memory: {:?}", e);
    }
}

#[test]
fn write_to_nonwriteable_memory() {
    let mut mem = Mmu::new(8 * 1024 * 1024);
    let seg = ProgramHeader {
        seg_type: 0x1,
        flags: 0x1,
        offset: 0x0,
        vaddr: 0x400000,
        paddr: 0x400000,
        filesz: 0x200,
        memsz: 0x200,
        align: 0x1000,
    };
    let load_data = vec![0x41u8; 0x200];
    let write_data = vec![0x42u8; 0x20];
    if mem.load_segment(seg, &load_data).is_none() {
        panic!("Error during seg load");
    }

    if let Ok(_) = mem.write_mem(0x400000, &write_data, 0x20) {
        panic!("write_mem did not properly return an error on invalid write");
    }
}

#[test]
fn valid_read_mem() {
    let mut mem = Mmu::new(8 * 1024 * 1024);
    let seg = ProgramHeader {
        seg_type: 0x1,
        flags: 0x4,
        offset: 0x0,
        vaddr: 0x400000,
        paddr: 0x400000,
        filesz: 0x200,
        memsz: 0x200,
        align: 0x1000,
    };
    let load_data = vec![0x41u8; 0x200];
    let mut read_buf = vec![0x0u8; 0x20];
    if mem.load_segment(seg, &load_data).is_none() {
        panic!("Error during seg load");
    }

    if let Err(e) = mem.read_into(0x400000, &mut read_buf, 0x20, Perms::READ) {
        panic!("Error occured while reading memory: {:?}", e);
    }
    read_buf.iter().for_each(|e| assert_eq!(*e, 0x41));
}

#[test]
fn read_from_nonreadable_memory() {
    let mut mem = Mmu::new(8 * 1024 * 1024);
    let seg = ProgramHeader {
        seg_type: 0x1,
        flags: 0x2,
        offset: 0x0,
        vaddr: 0x400000,
        paddr: 0x400000,
        filesz: 0x200,
        memsz: 0x200,
        align: 0x1000,
    };
    let load_data = vec![0x41u8; 0x200];
    let mut read_buf = vec![0x21u8; 0x20];
    if mem.load_segment(seg, &load_data).is_none() {
        panic!("Error during seg load");
    }

    if let Ok(_) = mem.read_into(0x400000, &mut read_buf, 0x20, Perms::READ) {
        panic!("read_mem did not properly return an error on invalid write");
    }
    read_buf.iter().for_each(|e| assert_eq!(*e, 0x21));
}

#[test]
fn valid_read_at() {
    let mut mem = Mmu::new(8 * 1024 * 1024);
    let load_data = vec![0x1u8; 0x200];
    let addr = mem.allocate(0x100, Perms::READ | Perms::WRITE).unwrap();

    mem.write_mem(addr, &load_data, 0x50).unwrap();

    let v1: u8  = mem.read_at(addr, Perms::READ).unwrap();
    let v2: u16 = mem.read_at(addr, Perms::READ).unwrap();
    let v3: u32 = mem.read_at(addr, Perms::READ).unwrap();
    let v4: u64 = mem.read_at(addr, Perms::READ).unwrap();

    assert_eq!(v1, 0x1);
    assert_eq!(v2, 0x0101);
    assert_eq!(v3, 0x01010101);
    assert_eq!(v4, 0x0101010101010101);
}

#[test]
#[should_panic]
fn invalid_perms_read_at() {
    let mut mem = Mmu::new(8 * 1024 * 1024);
    let load_data = vec![0x1u8; 0x200];
    let addr = mem.allocate(0x100, Perms::READ | Perms::WRITE).unwrap();

    mem.write_mem(addr, &load_data, 0x50).unwrap();
    let _: u8  = mem.read_at(addr, Perms::EXECUTE).unwrap();
    let _: u32 = mem.read_at(addr, Perms::EXECUTE).unwrap();
}

#[test]
fn read_into_fills_the_start_of_a_longer_buffer() {
    let mut mem = Mmu::new(8 * 1024 * 1024);
    let addr = mem.allocate(0x10, Perms::READ | Perms::WRITE).unwrap();
    mem.write_mem(addr, &[1, 2, 3, 4], 4).unwrap();
    let mut buf = vec![9u8; 6];
    assert_eq!(mem.read_into(addr, &mut buf, 3, Perms::READ), Ok(()));
    assert_eq!(buf, vec![1, 2, 3, 9, 9, 9]);
}

#[test]
fn reset_after_writes_gives_back_the_original() {
    let mut orig = Mmu::new(1024 * 1024);
    let a = orig.allocate(0x2000, Perms::READ | Perms::WRITE).unwrap();
    let mut m = orig.fork();
    m.write_mem(a + 0xff0, &[0x11u8; 0x20], 0x20).unwrap();
    m.write_mem(a + 0x1fe0, &[0x22u8; 0x20], 0x20).unwrap();
    assert_ne!(m.memory, orig.memory);
    assert!(!m.dirty.is_empty());
    assert!(m.reset_is_defined(&orig));
    m.reset(&orig);
    assert_eq!(m.memory, orig.memory);
    assert_eq!(m.permissions, orig.permissions);
    assert_eq!(m.alloc_addr, orig.alloc_addr);
    assert!(m.dirty.is_empty());
    assert_eq!(m.dirty_size, 0);
    assert!(m.dirty_bitmap.iter().all(|w| *w == 0));
}

#[test]
fn a_chunk_is_freed_once_after_writes_and_allocations() {
    let mut mem = Mmu::new(1024 * 1024);
    let a = mem.allocate(0x40, Perms::READ | Perms::WRITE).unwrap();
    mem.write_mem(a, &[0x7fu8; 0x40], 0x40).unwrap();
    let b = mem.allocate(0x10, Perms::READ | Perms::WRITE).unwrap();
    assert!(b > a + 0x40);
    assert_eq!(mem.free(a), Ok(()));
    assert!(mem.permissions[a - 8..a - 8 + 0x50].iter().all(|p| *p == Perms::UNSET));
    assert_eq!(mem.free(a), Err(Fault::InvalidFree(a)));
    // The later chunk is untouched and can still be freed
    assert_eq!(mem.free(b), Ok(()));
}

#[test]
fn memory_is_never_handed_out_twice() {
    let mut mem = Mmu::new(1024 * 1024);
    let a1 = mem.allocate(0x30, Perms::READ).unwrap();
    assert_eq!(a1, 0x60000);
    assert_eq!(mem.free(a1), Ok(()));
    let a2 = mem.allocate(0x20, Perms::READ | Perms::WRITE).unwrap();
    assert_eq!(a2, a1 + ((0x30 + 0x18) & !0xf));
    assert!(mem.permissions[a2..a2 + 0x20].iter().all(|p| *p == Perms::READ | Perms::WRITE));
}
