use quickcapture::history::{RedoEntry, StrokeHistory};
use quickcapture::raster::Rgba;
use quickcapture::strokes::{DrawObj, DrawingShape, Point};

fn stroke(tag: i64) -> DrawObj {
    DrawObj {
        points: vec![Point { x: tag, y: tag }, Point { x: tag + 1, y: tag + 1 }],
        width: 3,
        color: Rgba { r: 18, g: 160, b: 215, a: 255 },
        kind: DrawingShape::Line,
    }
}

fn tags(h: &StrokeHistory) -> Vec<i64> {
    h.committed.iter().map(|d| d.points[0].x).collect()
}

#[test]
fn undo_then_redo_restores_the_exact_list() {
    // For every k up to the number of committed strokes, k undos then k
    // redos restore the original list, ordering and content.
    for k in 0..=3usize {
        let mut h = StrokeHistory::new();
        h.commit(stroke(1));
        h.commit(stroke(2));
        h.commit(stroke(3));
        for _ in 0..k {
            h.undo();
        }
        assert_eq!(tags(&h).len(), 3 - k);
        for _ in 0..k {
            h.redo();
        }
        assert_eq!(tags(&h), vec![1, 2, 3]);
        assert_eq!(h.committed[1].points[1], Point { x: 3, y: 3 });
    }
}

#[test]
fn clear_then_undo_restores_everything() {
    let mut h = StrokeHistory::new();
    h.commit(stroke(1));
    h.commit(stroke(2));
    h.commit(stroke(3));
    h.clear();
    assert!(h.committed.is_empty());
    h.undo();
    assert_eq!(tags(&h), vec![1, 2, 3]);
}

#[test]
fn redo_replays_an_undone_clear() {
    let mut h = StrokeHistory::new();
    h.commit(stroke(1));
    h.commit(stroke(2));
    h.clear();
    h.undo();
    assert_eq!(tags(&h), vec![1, 2]);
    h.redo();
    assert!(h.committed.is_empty());
    h.undo();
    assert_eq!(tags(&h), vec![1, 2]);
}

#[test]
fn undo_walks_back_through_a_clear() {
    // Draw 1, clear, draw 2: undo removes 2, then restores the clear, then
    // removes 1.
    let mut h = StrokeHistory::new();
    h.commit(stroke(1));
    h.clear();
    h.commit(stroke(2));
    assert_eq!(tags(&h), vec![2]);
    h.undo();
    assert_eq!(tags(&h), Vec::<i64>::new());
    h.undo();
    assert_eq!(tags(&h), vec![1]);
    h.undo();
    assert_eq!(tags(&h), Vec::<i64>::new());
}

#[test]
fn commit_empties_the_redo_stack() {
    let mut h = StrokeHistory::new();
    h.commit(stroke(1));
    h.commit(stroke(2));
    h.undo();
    assert_eq!(h.undone.len(), 1);
    h.commit(stroke(3));
    assert!(h.undone.is_empty());
    assert_eq!(tags(&h), vec![1, 3]);
}

#[test]
fn undo_and_redo_on_empty_history_do_nothing() {
    let mut h = StrokeHistory::new();
    h.undo();
    h.redo();
    assert!(h.committed.is_empty());
    assert!(h.cleared.is_empty());
    assert!(h.undone.is_empty());
}

#[test]
fn undone_stroke_keeps_its_identity() {
    let mut h = StrokeHistory::new();
    h.commit(stroke(7));
    h.undo();
    match &h.undone[0] {
        RedoEntry::Stroke(d) => assert_eq!(d.points[0], Point { x: 7, y: 7 }),
        RedoEntry::Cleared => panic!("expected a stroke entry"),
    }
}
