use rust_fetch::models::Series;
use rust_fetch::writer::{carries_pools, PageWriter, Phase, WriterEvent, WriterStep};

/// Writes a page of keys to a store of keys that never fails; returns the
/// number of records the writer reports as written.
fn write_page(store: &mut Vec<i64>, page: &[i64], with_pools: bool, pools: &mut Vec<i64>) -> usize {
    let mut writer = PageWriter::begin(page.len(), with_pools);
    let mut step = writer.current();
    loop {
        let event = match step {
            WriterStep::Check { row } => WriterEvent::Found { present: store.contains(&page[row]) },
            WriterStep::Insert { row } => {
                store.push(page[row]);
                WriterEvent::Inserted { ok: true }
            }
            WriterStep::InsertPools { row } => {
                pools.push(page[row]);
                WriterEvent::PoolsInserted
            }
            WriterStep::Finished { written } => return written,
        };
        step = writer.advance(event);
    }
}

#[test]
fn absent_records_are_inserted() {
    let mut store = vec![];
    let written = write_page(&mut store, &[10, 20, 30], false, &mut vec![]);
    assert_eq!(written, 3);
    assert_eq!(store, vec![10, 20, 30]);
}

#[test]
fn writing_a_page_twice_is_writing_it_once() {
    let page = [10, 20, 30];
    let mut once = vec![20];
    assert_eq!(write_page(&mut once, &page, false, &mut vec![]), 2);
    let mut twice = once.clone();
    assert_eq!(write_page(&mut twice, &page, false, &mut vec![]), 0);
    assert_eq!(twice, once);
    assert_eq!(twice.len(), 3);
}

#[test]
fn a_key_that_occurs_twice_in_a_page_is_written_once() {
    let mut store = vec![];
    assert_eq!(write_page(&mut store, &[7, 7, 8, 7], false, &mut vec![]), 2);
    assert_eq!(store, vec![7, 8]);
}

#[test]
fn pools_follow_the_insert_of_their_record() {
    let mut store = vec![2];
    let mut pools = vec![];
    assert_eq!(write_page(&mut store, &[1, 2, 3], true, &mut pools), 2);
    assert_eq!(store, vec![2, 1, 3]);
    assert_eq!(pools, vec![1, 3]);
}

#[test]
fn an_empty_page_is_finished_at_once() {
    let writer = PageWriter::begin(0, true);
    assert_eq!(writer.current(), WriterStep::Finished { written: 0 });
}

#[test]
fn the_steps_of_a_record_without_pools() {
    let mut writer = PageWriter::begin(2, false);
    assert_eq!(writer.current(), WriterStep::Check { row: 0 });
    assert_eq!(writer.advance(WriterEvent::Found { present: false }), WriterStep::Insert { row: 0 });
    assert_eq!(writer.advance(WriterEvent::Inserted { ok: true }), WriterStep::Check { row: 1 });
    assert_eq!(writer.advance(WriterEvent::Found { present: true }), WriterStep::Finished { written: 1 });
    assert_eq!(writer.advance(WriterEvent::Found { present: false }), WriterStep::Finished { written: 1 });
}

#[test]
fn a_failed_insert_is_skipped_and_not_counted() {
    let mut writer = PageWriter::begin(2, false);
    writer.advance(WriterEvent::Found { present: false });
    assert_eq!(writer.advance(WriterEvent::Inserted { ok: false }), WriterStep::Check { row: 1 });
    writer.advance(WriterEvent::Found { present: false });
    assert_eq!(writer.advance(WriterEvent::Inserted { ok: true }), WriterStep::Finished { written: 1 });
}

#[test]
fn a_failed_check_skips_the_record() {
    let mut writer = PageWriter::begin(2, true);
    assert_eq!(writer.advance(WriterEvent::CheckFailed), WriterStep::Check { row: 1 });
    assert_eq!(writer.advance(WriterEvent::CheckFailed), WriterStep::Finished { written: 0 });
}

#[test]
fn pools_follow_a_failed_insert_too() {
    let mut writer = PageWriter::begin(1, true);
    writer.advance(WriterEvent::Found { present: false });
    assert_eq!(writer.advance(WriterEvent::Inserted { ok: false }), WriterStep::InsertPools { row: 0 });
    assert_eq!(writer.phase, Phase::Pools);
    assert_eq!(writer.advance(WriterEvent::PoolsInserted), WriterStep::Finished { written: 0 });
}

#[test]
fn an_event_that_answers_another_step_changes_nothing() {
    let mut writer = PageWriter::begin(1, true);
    let before = writer;
    assert_eq!(writer.advance(WriterEvent::PoolsInserted), WriterStep::Check { row: 0 });
    assert_eq!(writer.advance(WriterEvent::Inserted { ok: true }), WriterStep::Check { row: 0 });
    assert_eq!(writer, before);
    writer.advance(WriterEvent::Found { present: false });
    assert_eq!(writer.advance(WriterEvent::Found { present: true }), WriterStep::Insert { row: 0 });
    assert_eq!(writer.advance(WriterEvent::CheckFailed), WriterStep::Insert { row: 0 });
}

#[test]
fn only_earnings_carry_pools() {
    assert!(carries_pools(Series::Earnings));
    assert!(!carries_pools(Series::Depth));
    assert!(!carries_pools(Series::RunePool));
    assert!(!carries_pools(Series::Swap));
}

#[test]
fn a_writer_that_was_begun_and_advanced_is_well_formed() {
    let mut writer = PageWriter::begin(2, true);
    assert!(writer.is_well_formed());
    for event in [
        WriterEvent::Found { present: false },
        WriterEvent::Inserted { ok: true },
        WriterEvent::PoolsInserted,
        WriterEvent::CheckFailed,
    ] {
        writer.advance(event);
        assert!(writer.is_well_formed());
    }
    let broken = PageWriter { rows: 1, with_pools: false, row: 2, phase: Phase::Checking, written: 0 };
    assert!(!broken.is_well_formed());
    let counted = PageWriter { rows: 3, with_pools: false, row: 1, phase: Phase::Checking, written: 2 };
    assert!(!counted.is_well_formed());
}
