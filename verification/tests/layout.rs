use row_store::layout::{
    locate, EMAIL_OFFSET, EMAIL_SIZE, ID_SIZE, MAX_ROWS, PAGE_SIZE, ROWS_PER_PAGE, ROW_SIZE,
    USERNAME_OFFSET, USERNAME_SIZE,
};

#[test]
fn sizes_are_the_documented_ones() {
    assert_eq!(ROW_SIZE, 48);
    assert_eq!(PAGE_SIZE, 4096);
    assert_eq!(ROWS_PER_PAGE, 85);
    assert_eq!(ROWS_PER_PAGE, PAGE_SIZE / ROW_SIZE);
    assert_eq!(MAX_ROWS, 10000);
    assert_eq!(ID_SIZE, 4);
    assert_eq!(USERNAME_OFFSET, 4);
    assert_eq!(USERNAME_SIZE, 20);
    assert_eq!(EMAIL_OFFSET, 24);
    assert_eq!(EMAIL_SIZE, 24);
    assert_eq!(EMAIL_OFFSET + EMAIL_SIZE, ROW_SIZE);
}

#[test]
fn first_rows_fill_the_first_page() {
    assert_eq!(locate(0), (0, 0));
    assert_eq!(locate(1), (0, 48));
    assert_eq!(locate(2), (0, 96));
    assert_eq!(locate(84), (0, 4032));
}

#[test]
fn row_85_starts_the_second_page() {
    assert_eq!(locate(85), (1, 0));
    assert_eq!(locate(86), (1, 48));
    assert_eq!(locate(169), (1, 4032));
    assert_eq!(locate(170), (2, 0));
}

#[test]
fn last_row_lies_in_page_117() {
    assert_eq!(locate(9999), (117, 2592));
}

#[test]
fn every_slot_lies_within_its_page_and_overlaps_no_other() {
    let mut previous: Option<(usize, usize)> = None;
    for row_num in 0..MAX_ROWS {
        let (page, offset) = locate(row_num);
        assert!(offset + ROW_SIZE <= PAGE_SIZE);
        assert_eq!(offset % ROW_SIZE, 0);
        if let Some((last_page, last_offset)) = previous {
            assert!(
                (page == last_page && offset == last_offset + ROW_SIZE)
                    || (page == last_page + 1 && offset == 0)
            );
        }
        previous = Some((page, offset));
    }
}
