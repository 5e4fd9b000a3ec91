use bifrost_admin::frames::{last_frame_id, merge_frame_pages, page_frames, pending_page, FrameSource};

#[test]
fn stored_frames_are_paged_after_an_id() {
    let ids = [1, 2, 3, 4, 5, 6];
    assert_eq!(page_frames(&ids, Some(2), 2), (vec![2, 3], true));
    assert_eq!(page_frames(&ids, Some(4), 5), (vec![4, 5], false));
    assert_eq!(page_frames(&ids, None, 6), (vec![0, 1, 2, 3, 4, 5], false));
    assert_eq!(pending_page(&ids, Some(5), 10), vec![5]);
}

#[test]
fn frames_from_all_sources_merge_once_in_order() {
    let file = [5, 1, 3];
    let pending = [3, 4];
    let memory = [2, 4, 6, 7];
    let (page, more) = merge_frame_pages(&file, &pending, &memory, Some(2), 4);
    assert_eq!(
        page,
        vec![(1, FrameSource::File, 1), (3, FrameSource::File, 2), (4, FrameSource::Pending, 1), (5, FrameSource::File, 0)]
    );
    assert!(more);
    let (page, more) = merge_frame_pages(&file, &pending, &memory, Some(2), 10);
    assert_eq!(page.len(), 6);
    assert_eq!(page[4], (6, FrameSource::Memory, 2));
    assert!(!more);
    let (page, more) = merge_frame_pages(&[], &[], &[], None, 10);
    assert!(page.is_empty() && !more);
}

#[test]
fn last_frame_id_falls_back() {
    assert_eq!(last_frame_id(Some(9), Some(7), Some(5)), 9);
    assert_eq!(last_frame_id(None, Some(7), Some(5)), 7);
    assert_eq!(last_frame_id(None, None, Some(5)), 5);
    assert_eq!(last_frame_id(None, None, None), 0);
}
