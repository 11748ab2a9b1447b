use geco::mmu::{PurgeRule, Tlb, TlbEntry};
use rand::Rng;

#[test]
fn tlb_test() {
    let mut rng = rand::thread_rng();

    //   Test MustNotPurge rule

    let mut itlbr = Tlb::new(8, PurgeRule::MustNotPurge);

    for _ in 0..1024 {
        let vaddr_0 = rng.gen();
        let vaddr_1 = rng.gen();

        let idx_0 = rng.gen_range(0..8);
        let idx_1 = rng.gen_range(0..8);

        let entry_0: TlbEntry = TlbEntry::new(0, true, true, false, false);
        let entry_1: TlbEntry = TlbEntry::new(0, true, true, true, false);

        let insert_0 = itlbr.insert(idx_0, vaddr_0, entry_0);
        let insert_1 = itlbr.insert(idx_1, vaddr_1, entry_1);

        assert!(insert_0.is_some(), "First insertion failed");

        if idx_0 == idx_1 {
            assert!(insert_1.is_some(), "Insertion failed");

            assert!(itlbr.fetch(vaddr_0).is_none(), "Overwrite failed");
            assert!(itlbr.fetch(vaddr_1) == Some(entry_1), "Overwrite failed");
        } else {
            if (vaddr_0 & !0xfff) == (vaddr_1 & !0xfff) {
                assert!(itlbr.fetch(vaddr_0) == Some(entry_0), "Overwrite occured");
                assert!(itlbr.fetch(vaddr_1).is_none(), "Overwrite occured");

                assert!(insert_1.is_none(), "Purge occured");
            } else {
                assert!(itlbr.fetch(vaddr_0) == Some(entry_0), "Overwrite occured");
                assert!(itlbr.fetch(vaddr_1) == Some(entry_1), "Overwrite occured");

                assert!(insert_1.is_some(), "Overlap occured");
            }
        }
    }

    //   Test MustPurge rule

    let mut itlbc = Tlb::new(8, PurgeRule::MustPurge);

    for _ in 0..1024 {
        let vaddr_0 = rng.gen();
        let vaddr_1 = rng.gen();

        let idx_0 = rng.gen_range(0..8);
        let idx_1 = rng.gen_range(0..8);

        let entry_0: TlbEntry = TlbEntry::new(0, true, true, false, false);
        let entry_1: TlbEntry = TlbEntry::new(0, true, true, true, false);

        let insert_0 = itlbc.insert(idx_0, vaddr_0, entry_0);
        let insert_1 = itlbc.insert(idx_1, vaddr_1, entry_1);

        assert!(insert_0.is_some(), "First insertion failed");

        if idx_0 == idx_1 {
            assert!(insert_1.is_some(), "Insertion failed");

            assert!(itlbc.fetch(vaddr_0).is_none(), "Overwrite failed");
            assert!(itlbc.fetch(vaddr_1) == Some(entry_1), "Overwrite failed");
        } else {
            if (vaddr_0 & !0xfff) == (vaddr_1 & !0xfff) {
                assert!(itlbc.fetch(vaddr_0).is_none(), "Overwrite occured");
                assert!(itlbc.fetch(vaddr_1) == Some(entry_1), "Overwrite occured");

                assert!(insert_1.is_some(), "Purge didnt occur");
            } else {
                assert!(itlbc.fetch(vaddr_0) == Some(entry_0), "Overwrite occured");
                assert!(itlbc.fetch(vaddr_1) == Some(entry_1), "Overwrite occured");

                assert!(insert_1.is_some(), "Overlap occured");
            }
        }
    }
}

#[test]
fn entry_new_packs_the_fields() {
    let entry = TlbEntry::new(0x1234_5678_9ABC_DEF0, true, false, true, false);
    assert_eq!(entry.0, 0x1234_5678_9ABC_D00B);
    assert!(entry.valid());
    assert!(entry.read());
    assert!(!entry.write());
    assert!(entry.exec());
    assert!(!entry.attrib());
    assert_eq!(entry.ppn(), 0x1_2345_6789_ABCD);

    let entry = TlbEntry::new(0xFFF, false, true, false, true);
    assert_eq!(entry.0, 0b1_0101);
    assert!(entry.valid());
    assert!(!entry.read());
    assert!(entry.write());
    assert!(!entry.exec());
    assert!(entry.attrib());
    assert_eq!(entry.ppn(), 0);

    assert_eq!(TlbEntry::new(0, false, false, false, false).0, 1);
    assert_eq!(TlbEntry::new(u64::MAX, true, true, true, true).0, 0xFFFF_FFFF_FFFF_F01F);
    assert_eq!(TlbEntry::new(0x1000, false, false, false, false).ppn(), 1);
}

#[test]
fn entry_getters_read_their_own_bit() {
    assert!(TlbEntry(0b00001).valid());
    assert!(TlbEntry(0b00010).read());
    assert!(TlbEntry(0b00100).write());
    assert!(TlbEntry(0b01000).exec());
    assert!(TlbEntry(0b10000).attrib());
    let others = TlbEntry(!0b00001);
    assert!(!others.valid() && others.read() && others.write() && others.exec() && others.attrib());
    let others = TlbEntry(!0b00100);
    assert!(others.valid() && others.read() && !others.write() && others.exec() && others.attrib());
    let zero = TlbEntry(0);
    assert!(!zero.valid() && !zero.read() && !zero.write() && !zero.exec() && !zero.attrib());
    assert_eq!(zero.ppn(), 0);
    assert_eq!(TlbEntry(0xFFF).ppn(), 0);
    assert_eq!(TlbEntry(u64::MAX).ppn(), 0x000F_FFFF_FFFF_FFFF);
    assert_eq!(TlbEntry(0x8000_0000_0000_1000).ppn(), 0x0008_0000_0000_0001);
}

#[test]
fn entry_setters_write_only_their_own_field() {
    let mut entry = TlbEntry::new(0xABCD_E000, true, false, false, true);
    assert_eq!(entry.0, 0xABCD_E013);
    entry.set_valid(false);
    assert_eq!(entry.0, 0xABCD_E012);
    assert!(!entry.valid());
    entry.set_valid(false);
    assert_eq!(entry.0, 0xABCD_E012);
    entry.set_valid(true);
    assert_eq!(entry.0, 0xABCD_E013);
    entry.set_read(false);
    assert_eq!(entry.0, 0xABCD_E011);
    entry.set_write(true);
    assert_eq!(entry.0, 0xABCD_E015);
    entry.set_exec(true);
    assert_eq!(entry.0, 0xABCD_E01D);
    entry.set_attrib(false);
    assert_eq!(entry.0, 0xABCD_E00D);
    entry.set_ppn(0x123);
    assert_eq!(entry.0, 0x0012_300D);
    assert_eq!(entry.ppn(), 0x123);
    entry.set_ppn(u64::MAX);
    assert_eq!(entry.0, 0xFFFF_FFFF_FFFF_F00D);
    assert_eq!(entry.ppn(), 0x000F_FFFF_FFFF_FFFF);
    entry.set_ppn(0);
    assert_eq!(entry.0, 0x00D);
}

#[test]
fn entry_setters_keep_the_reserved_bits() {
    let mut entry = TlbEntry(0xFE0);
    entry.set_valid(true);
    entry.set_exec(true);
    entry.set_ppn(1);
    assert_eq!(entry.0, 0x1FE9);
}

#[test]
fn entries_are_equal_when_their_words_are() {
    assert_eq!(TlbEntry::new(0x4000, true, true, false, false), TlbEntry(0x4007));
    assert_eq!(TlbEntry::new(0x4000, true, true, false, false), TlbEntry::new(0x4FFF, true, true, false, false));
    assert_ne!(TlbEntry::new(0x4000, true, true, false, false), TlbEntry::new(0x4000, true, true, true, false));
    assert_ne!(TlbEntry::new(0x4000, true, true, false, false), TlbEntry::new(0x5000, true, true, false, false));
}

#[test]
fn tlb_new_is_empty() {
    for rule in [PurgeRule::MustPurge, PurgeRule::MustNotPurge, PurgeRule::MayPurge] {
        let tlb = Tlb::new(16, rule);
        assert_eq!(tlb.len(), 16);
        assert_eq!(tlb.rule(), rule);
        assert_eq!(tlb.fetch(0), None);
        assert_eq!(tlb.fetch(0xFFF), None);
        assert_eq!(tlb.fetch(0x1000), None);
        assert_eq!(tlb.fetch(u64::MAX), None);
    }
}

#[test]
fn tlb_try_new_wants_a_power_of_two() {
    assert!(Tlb::try_new(0, PurgeRule::MustPurge).is_none());
    assert!(Tlb::try_new(6, PurgeRule::MustPurge).is_none());
    assert!(Tlb::try_new(9, PurgeRule::MustNotPurge).is_none());
    let tlb = Tlb::try_new(4, PurgeRule::MustNotPurge).unwrap();
    assert_eq!(tlb.len(), 4);
    assert_eq!(tlb.rule(), PurgeRule::MustNotPurge);
}

#[test]
fn tlb_fetch_goes_by_the_page() {
    let mut tlb = Tlb::new(4, PurgeRule::MustNotPurge);
    let entry = TlbEntry::new(0x9000, true, false, false, false);
    assert_eq!(tlb.insert(2, 0x0000_7ABC, entry), Some(()));
    assert_eq!(tlb.fetch(0x0000_7000), Some(entry));
    assert_eq!(tlb.fetch(0x0000_7FFF), Some(entry));
    assert_eq!(tlb.fetch(0x0000_6FFF), None);
    assert_eq!(tlb.fetch(0x0000_8000), None);
    assert_eq!(tlb.fetch(0x1_0000_7ABC), None);
}

#[test]
fn tlb_page_zero_is_not_mapped_by_empty_slots() {
    let mut tlb = Tlb::new(4, PurgeRule::MustNotPurge);
    assert_eq!(tlb.fetch(0x10), None);
    let entry = TlbEntry::new(0, true, true, true, true);
    assert_eq!(tlb.insert(3, 0x10, entry), Some(()));
    assert_eq!(tlb.fetch(0xFFF), Some(entry));
}

#[test]
fn tlb_invalid_entry_never_hits() {
    let mut tlb = Tlb::new(4, PurgeRule::MustNotPurge);
    let mut entry = TlbEntry::new(0x9000, true, false, false, false);
    entry.set_valid(false);
    assert_eq!(tlb.insert(0, 0x3000, entry), Some(()));
    assert_eq!(tlb.fetch(0x3000), None);
    let valid = TlbEntry::new(0xA000, true, false, false, false);
    assert_eq!(tlb.insert(1, 0x3000, valid), Some(()));
    assert_eq!(tlb.fetch(0x3000), Some(valid));
}

#[test]
fn must_purge_latest_insert_wins() {
    let mut tlb = Tlb::new(8, PurgeRule::MustPurge);
    let first = TlbEntry::new(0x1000, true, false, false, false);
    let second = TlbEntry::new(0x2000, true, true, false, false);
    assert_eq!(tlb.insert(1, 0xAAAA_A123, first), Some(()));
    assert_eq!(tlb.insert(6, 0xAAAA_AFFF, second), Some(()));
    assert_eq!(tlb.fetch(0xAAAA_A123), Some(second));
    assert_eq!(tlb.fetch(0xAAAA_A000), Some(second));

    let third = TlbEntry::new(0x3000, true, true, true, false);
    assert_eq!(tlb.insert(0, 0xAAAA_A000, third), Some(()));
    assert_eq!(tlb.fetch(0xAAAA_A123), Some(third));
    tlb.inval(0xAAAA_A000);
    assert_eq!(tlb.fetch(0xAAAA_A123), None);
}

#[test]
fn must_not_purge_second_insert_is_refused() {
    let mut tlb = Tlb::new(8, PurgeRule::MustNotPurge);
    let first = TlbEntry::new(0x1000, true, false, false, false);
    let second = TlbEntry::new(0x2000, true, true, false, false);
    assert_eq!(tlb.insert(1, 0xAAAA_A123, first), Some(()));
    assert_eq!(tlb.insert(6, 0xAAAA_AFFF, second), None);
    assert_eq!(tlb.fetch(0xAAAA_A123), Some(first));
    assert_eq!(tlb.fetch(0xAAAA_AFFF), Some(first));
    tlb.inval(0xAAAA_A000);
    assert_eq!(tlb.fetch(0xAAAA_A123), None);
    assert_eq!(tlb.fetch(0xAAAA_AFFF), None);
}

#[test]
fn must_not_purge_refuses_the_same_slot_too() {
    let mut tlb = Tlb::new(8, PurgeRule::MustNotPurge);
    let first = TlbEntry::new(0x1000, true, false, false, false);
    let second = TlbEntry::new(0x2000, true, true, false, false);
    assert_eq!(tlb.insert(1, 0x5000, first), Some(()));
    assert_eq!(tlb.insert(1, 0x5000, second), None);
    assert_eq!(tlb.fetch(0x5000), Some(first));
    tlb.inval(0x5000);
    assert_eq!(tlb.insert(1, 0x5000, second), Some(()));
    assert_eq!(tlb.fetch(0x5000), Some(second));
}

#[test]
fn refused_insert_does_not_look_at_the_slot() {
    let mut tlb = Tlb::new(2, PurgeRule::MustNotPurge);
    let first = TlbEntry::new(0x1000, true, false, false, false);
    assert_eq!(tlb.insert(0, 0x5000, first), Some(()));
    assert_eq!(tlb.insert(1000, 0x5000, first), None);
    assert_eq!(tlb.fetch(0x5000), Some(first));
}

#[test]
fn may_purge_refuses_an_overlap() {
    let mut tlb = Tlb::new(8, PurgeRule::MayPurge);
    let first = TlbEntry::new(0x1000, true, false, false, false);
    let second = TlbEntry::new(0x2000, true, true, false, false);
    assert_eq!(tlb.insert(1, 0xAAAA_A123, first), Some(()));
    assert_eq!(tlb.insert(6, 0xAAAA_AFFF, second), None);
    assert_eq!(tlb.fetch(0xAAAA_A123), Some(first));
    assert_eq!(tlb.insert(6, 0xBBBB_B000, second), Some(()));
    assert_eq!(tlb.fetch(0xBBBB_B000), Some(second));
    assert_eq!(tlb.fetch(0xAAAA_A123), Some(first));
}

#[test]
fn same_slot_overwrite_under_every_rule() {
    for rule in [PurgeRule::MustPurge, PurgeRule::MustNotPurge, PurgeRule::MayPurge] {
        let mut tlb = Tlb::new(8, rule);
        let first = TlbEntry::new(0x1000, true, false, false, false);
        let second = TlbEntry::new(0x2000, true, true, false, false);
        assert_eq!(tlb.insert(5, 0x0001_0000, first), Some(()));
        assert_eq!(tlb.fetch(0x0001_0000), Some(first));
        assert_eq!(tlb.insert(5, 0x0002_0000, second), Some(()));
        assert_eq!(tlb.fetch(0x0001_0000), None);
        assert_eq!(tlb.fetch(0x0002_0000), Some(second));
    }
}

#[test]
fn inval_without_a_match_changes_nothing() {
    for rule in [PurgeRule::MustPurge, PurgeRule::MustNotPurge] {
        let mut tlb = Tlb::new(4, rule);
        let a = TlbEntry::new(0x1000, true, false, false, false);
        let b = TlbEntry::new(0x2000, false, true, false, false);
        tlb.insert(0, 0x7000, a).unwrap();
        tlb.insert(3, 0x8000, b).unwrap();
        tlb.inval(0x9000);
        tlb.inval(0x0);
        assert_eq!(tlb.fetch(0x7000), Some(a));
        assert_eq!(tlb.fetch(0x8000), Some(b));
        assert_eq!(tlb.fetch(0x9000), None);
        assert_eq!(tlb.len(), 4);
    }
}

#[test]
fn inval_twice_is_inval_once() {
    let mut tlb = Tlb::new(4, PurgeRule::MustNotPurge);
    let a = TlbEntry::new(0x1000, true, false, false, false);
    let b = TlbEntry::new(0x2000, false, true, false, false);
    tlb.insert(0, 0x7000, a).unwrap();
    tlb.insert(3, 0x8000, b).unwrap();
    tlb.inval(0x7ABC);
    assert_eq!(tlb.fetch(0x7000), None);
    assert_eq!(tlb.fetch(0x8000), Some(b));
    tlb.inval(0x7ABC);
    assert_eq!(tlb.fetch(0x7000), None);
    assert_eq!(tlb.fetch(0x8000), Some(b));
    assert_eq!(tlb.insert(1, 0x7000, a), Some(()));
    assert_eq!(tlb.fetch(0x7000), Some(a));
}

#[test]
fn inval_takes_an_address_not_a_tag() {
    let mut tlb = Tlb::new(4, PurgeRule::MustNotPurge);
    let a = TlbEntry::new(0x1000, true, false, false, false);
    tlb.insert(0, 0x7000, a).unwrap();
    tlb.inval(0x7);
    assert_eq!(tlb.fetch(0x7000), Some(a));
    tlb.inval(0x7FFF);
    assert_eq!(tlb.fetch(0x7000), None);
}
