use slopcc::source::FileId;
use slopcc::span::Span;

fn fid() -> FileId {
    FileId::new(0)
}

#[test]
fn span_new() {
    let s = Span::new(fid(), 10, 20);
    assert_eq!(s.start(), 10);
    assert_eq!(s.end(), 20);
    assert_eq!(s.len(), 10);
    assert!(!s.is_empty());
}

#[test]
fn span_at() {
    let s = Span::at(fid(), 5);
    assert_eq!(s.start(), 5);
    assert_eq!(s.end(), 5);
    assert!(s.is_empty());
    assert_eq!(s.len(), 0);
}

#[test]
fn span_merge() {
    let a = Span::new(fid(), 5, 10);
    let b = Span::new(fid(), 8, 15);
    let m = a.merge(b);
    assert_eq!(m.start(), 5);
    assert_eq!(m.end(), 15);
}

#[test]
fn span_merge_reversed() {
    let a = Span::new(fid(), 8, 15);
    let b = Span::new(fid(), 5, 10);
    let m = a.merge(b);
    assert_eq!(m.start(), 5);
    assert_eq!(m.end(), 15);
}

#[test]
fn span_as_str() {
    let src = b"int main() {}";
    let s = Span::new(fid(), 4, 8);
    assert_eq!(s.as_str(src), b"main");
}

#[test]
fn file_id_roundtrip() {
    let id = FileId::new(42);
    assert_eq!(id.as_u32(), 42);
    assert_eq!(id, FileId(42));
}

#[test]
fn span_len_is_half_open() {
    let span = Span::new(FileId::new_for_tests(0), 2, 5);
    assert_eq!(span.len(), 3);
}

#[test]
fn zero_length_span_is_empty() {
    let span = Span::at(FileId::new_for_tests(1), 12);
    assert!(span.is_empty());
}

#[test]
fn span_keeps_its_file() {
    let span = Span::new(FileId::new(7), 1, 4);
    assert_eq!(span.file(), FileId::new(7));
    assert_eq!(Span::at(FileId::new(3), 9).file().as_u32(), 3);
}

#[test]
fn merge_is_commutative() {
    let cases = [(0u32, 0u32, 0u32, 0u32), (5, 10, 8, 15), (1, 2, 7, 9), (3, 30, 10, 12), (4, 4, 4, 9)];
    for (a0, a1, b0, b1) in cases {
        let a = Span::new(fid(), a0, a1);
        let b = Span::new(fid(), b0, b1);
        assert_eq!(a.merge(b), b.merge(a));
        assert_eq!(a.merge(b).start(), a0.min(b0));
        assert_eq!(a.merge(b).end(), a1.max(b1));
    }
}

#[test]
fn merge_of_disjoint_spans_covers_the_gap() {
    let m = Span::new(fid(), 1, 2).merge(Span::new(fid(), 7, 9));
    assert_eq!(m, Span::new(fid(), 1, 9));
    assert_eq!(m.len(), 8);
}

#[test]
fn as_str_of_empty_span_is_empty() {
    let src = b"abc";
    assert_eq!(Span::at(fid(), 3).as_str(src), b"");
    assert_eq!(Span::new(fid(), 0, 3).as_str(src), b"abc");
}

#[test]
fn spans_are_ordered_by_file_start_end() {
    let a = Span::new(FileId::new(0), 5, 9);
    let b = Span::new(FileId::new(0), 5, 10);
    let c = Span::new(FileId::new(0), 6, 6);
    let d = Span::new(FileId::new(1), 0, 0);
    assert!(a < b);
    assert!(b < c);
    assert!(c < d);
    assert!(FileId::new(3) < FileId::new(4));
    let mut spans = vec![d, b, a, c];
    spans.sort();
    assert_eq!(spans, vec![a, b, c, d]);
}
