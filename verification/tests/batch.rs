use ddss::batch::{chunk_ranges, deal_chunk_size, deal_segments, strain_filter, NonEmptyStrainFlags, StrainFlags};

const MAX_BOARDS: u32 = 5000;

#[test]
fn strain_flags_count_strains() {
    assert_eq!(StrainFlags::empty().count(), 0);
    assert_eq!(StrainFlags::all().count(), 5);
    assert_eq!(StrainFlags::spades().count(), 1);
    assert_eq!(StrainFlags::from_bits_truncate(0b1_0101).count(), 3);
    assert_eq!(StrainFlags::from_bits_truncate(0xff).bits(), 0x1f);
}

#[test]
fn strain_flags_contains() {
    let majors = StrainFlags::from_bits_truncate(StrainFlags::hearts().bits() | StrainFlags::spades().bits());
    assert!(majors.contains(StrainFlags::hearts()));
    assert!(majors.contains(StrainFlags::spades()));
    assert!(!majors.contains(StrainFlags::clubs()));
    assert!(!majors.contains(StrainFlags::notrump()));
    assert!(StrainFlags::all().contains(majors));
}

#[test]
fn non_empty_strain_flags_refuses_empty_set() {
    assert!(NonEmptyStrainFlags::new(StrainFlags::empty()).is_none());
    let nt = NonEmptyStrainFlags::new(StrainFlags::notrump()).unwrap();
    assert_eq!(nt.get(), StrainFlags::notrump());
    assert_eq!(NonEmptyStrainFlags::all().get(), StrainFlags::all());
}

#[test]
fn strain_filter_follows_ddss_strain_order() {
    assert_eq!(strain_filter(StrainFlags::all()), [0, 0, 0, 0, 0]);
    assert_eq!(strain_filter(StrainFlags::empty()), [1, 1, 1, 1, 1]);
    assert_eq!(strain_filter(StrainFlags::spades()), [0, 1, 1, 1, 1]);
    assert_eq!(strain_filter(StrainFlags::clubs()), [1, 1, 1, 0, 1]);
    assert_eq!(strain_filter(StrainFlags::notrump()), [1, 1, 1, 1, 0]);
}

#[test]
fn chunk_ranges_match_slice_chunks() {
    assert_eq!(chunk_ranges(0, 3), vec![]);
    assert_eq!(chunk_ranges(7, 3), vec![(0, 3), (3, 6), (6, 7)]);
    assert_eq!(chunk_ranges(6, 3), vec![(0, 3), (3, 6)]);
    assert_eq!(chunk_ranges(2, 5), vec![(0, 2)]);
    let data: Vec<u32> = (0..23).collect();
    for size in 1..30 {
        let expected: Vec<(usize, usize)> = data
            .chunks(size)
            .scan(0, |start, c| {
                let r = (*start, *start + c.len());
                *start += c.len();
                Some(r)
            })
            .collect();
        assert_eq!(chunk_ranges(data.len(), size), expected);
    }
}

#[test]
fn deal_chunk_size_divides_board_limit_by_strains() {
    assert_eq!(deal_chunk_size(MAX_BOARDS, NonEmptyStrainFlags::all()), 1000);
    let two = NonEmptyStrainFlags::new(StrainFlags::from_bits_truncate(0b1_1000)).unwrap();
    assert_eq!(deal_chunk_size(MAX_BOARDS, two), 2500);
    let three = NonEmptyStrainFlags::new(StrainFlags::from_bits_truncate(0b0_0111)).unwrap();
    assert_eq!(deal_chunk_size(MAX_BOARDS, three), 1666);
}

#[test]
fn deal_segments_cross_chunk_boundary() {
    let segments = deal_segments(2 * 1000 + 1, MAX_BOARDS, NonEmptyStrainFlags::all());
    assert_eq!(segments, vec![(0, 1000), (1000, 2000), (2000, 2001)]);
    assert!(deal_segments(0, MAX_BOARDS, NonEmptyStrainFlags::all()).is_empty());
}
