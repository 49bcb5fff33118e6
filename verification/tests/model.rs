use databrush::colors::Colors;
use databrush::dataset::{Chunk, Dataset, Highlight, MAX_FILE_LEN};
use databrush::errors::DataBrushErrors;

fn hl(name: &str, offset: usize, length: usize) -> Highlight {
    Highlight::new(name.to_string(), offset, length).unwrap()
}

#[test]
fn highlight_new_rejects_zero_length() {
    let r = Highlight::new("h".to_string(), 4, 0);
    assert!(matches!(r, Err(DataBrushErrors::HighlightSizeZero(n)) if n == "h"));
}

#[test]
fn chunk_new_rejects_zero_length() {
    let r = Chunk::new("c".to_string(), 0);
    assert!(matches!(r, Err(DataBrushErrors::ChunkSizeZero(n)) if n == "c"));
}

#[test]
fn dataset_new_rejects_empty_buffer() {
    let r = Dataset::new("d".to_string(), vec![]);
    assert!(matches!(r, Err(DataBrushErrors::EmptyDataset)));
}

#[test]
fn dataset_size_cap_is_exact() {
    // one byte over the cap is refused, the cap itself is accepted
    let over = Dataset::new("d".to_string(), vec![0u8; MAX_FILE_LEN + 1]);
    assert!(matches!(over, Err(DataBrushErrors::FileTooLarge)));
    let at = Dataset::new("d".to_string(), vec![0u8; MAX_FILE_LEN]);
    assert!(at.is_ok());
}

#[test]
fn overlap_strict_containment_fails() {
    let mut c = Chunk::new("c".to_string(), 64).unwrap();
    c.set_highlight(hl("outer", 0, 10)).unwrap();
    let r = c.set_highlight(hl("inner", 2, 4));
    assert!(matches!(r, Err(DataBrushErrors::HighlightOverlap)));
}

#[test]
fn overlap_containing_the_existing_one_fails() {
    let mut c = Chunk::new("c".to_string(), 64).unwrap();
    c.set_highlight(hl("small", 2, 4)).unwrap();
    let r = c.set_highlight(hl("big", 0, 10));
    assert!(matches!(r, Err(DataBrushErrors::HighlightOverlap)));
}

#[test]
fn overlap_partial_left_edge_fails() {
    let mut c = Chunk::new("c".to_string(), 64).unwrap();
    c.set_highlight(hl("a", 4, 8)).unwrap();
    let r = c.set_highlight(hl("b", 0, 6));
    assert!(matches!(r, Err(DataBrushErrors::HighlightOverlap)));
}

#[test]
fn overlap_partial_right_edge_fails() {
    let mut c = Chunk::new("c".to_string(), 64).unwrap();
    c.set_highlight(hl("a", 4, 8)).unwrap();
    let r = c.set_highlight(hl("b", 10, 6));
    assert!(matches!(r, Err(DataBrushErrors::HighlightOverlap)));
}

#[test]
fn overlap_identical_range_fails() {
    let mut c = Chunk::new("c".to_string(), 64).unwrap();
    c.set_highlight(hl("a", 4, 8)).unwrap();
    let r = c.set_highlight(hl("b", 4, 8));
    assert!(matches!(r, Err(DataBrushErrors::HighlightOverlap)));
}

#[test]
fn shared_boundary_is_no_overlap() {
    let mut c = Chunk::new("c".to_string(), 64).unwrap();
    c.set_highlight(hl("a", 4, 8)).unwrap();
    assert!(c.set_highlight(hl("b", 12, 8)).is_ok());
    assert!(c.set_highlight(hl("before", 0, 4)).is_ok());
}

#[test]
fn colors_cycle_with_rank() {
    // the k-th highlight added takes palette entry k mod 6
    let mut c = Chunk::new("c".to_string(), 200).unwrap();
    let expected = [
        Colors::Red,
        Colors::Green,
        Colors::Blue,
        Colors::Yellow,
        Colors::Cyan,
        Colors::Magenta,
        Colors::Red,
        Colors::Green,
    ];
    for k in 0..8 {
        c.set_highlight(hl(&format!("h{}", k), k * 10, 5)).unwrap();
        assert_eq!(c.highlights[k].color, expected[k]);
    }
}

#[test]
fn add_chunk_offsets_accumulate() {
    // each accepted chunk starts at the summed length of those before it
    let mut d = Dataset::new("d".to_string(), vec![0u8; 100]).unwrap();
    d.add_chunk(Chunk::new("a".to_string(), 30).unwrap()).unwrap();
    d.add_chunk(Chunk::new("b".to_string(), 50).unwrap()).unwrap();
    d.add_chunk(Chunk::new("c".to_string(), 20).unwrap()).unwrap();
    assert_eq!(d.chunks[0].offset, 0);
    assert_eq!(d.chunks[1].offset, 30);
    assert_eq!(d.chunks[2].offset, 80);
}

#[test]
fn add_chunk_past_the_buffer_overflows() {
    let mut d = Dataset::new("d".to_string(), vec![0u8; 100]).unwrap();
    d.add_chunk(Chunk::new("a".to_string(), 60).unwrap()).unwrap();
    let r = d.add_chunk(Chunk::new("b".to_string(), 41).unwrap());
    assert!(matches!(r, Err(DataBrushErrors::ChunkOverflow)));
    // the fitting one still goes in afterwards
    assert!(d.add_chunk(Chunk::new("b".to_string(), 40).unwrap()).is_ok());
}

#[test]
fn add_chunk_sorts_highlights_by_offset() {
    let mut c = Chunk::new("c".to_string(), 64).unwrap();
    c.set_highlight(hl("late", 20, 4)).unwrap();
    c.set_highlight(hl("early", 0, 4)).unwrap();
    c.set_highlight(hl("middle", 10, 4)).unwrap();
    let mut d = Dataset::new("d".to_string(), vec![0u8; 64]).unwrap();
    d.add_chunk(c).unwrap();
    let names: Vec<&str> = d.chunks[0].highlights.iter().map(|h| h.name.as_str()).collect();
    assert_eq!(names, vec!["early", "middle", "late"]);
}

fn bare_chunk(name: &str, offset: usize, length: usize, highlights: Vec<Highlight>) -> Chunk {
    let mut c = Chunk::new(name.to_string(), length).unwrap();
    c.offset = offset;
    c.highlights = highlights;
    c
}

fn template(chunks: Vec<Chunk>) -> Dataset {
    Dataset { name: "tpl".to_string(), data: vec![], chunks }
}

#[test]
fn from_description_accepts_an_exact_tiling() {
    let chunks = vec![
        bare_chunk("a", 0, 16, vec![hl("x", 2, 4), hl("y", 6, 4)]),
        bare_chunk("b", 16, 16, vec![]),
    ];
    let d = Dataset::from_description(template(chunks), vec![0u8; 32]).unwrap();
    assert_eq!(d.name, "tpl");
    assert_eq!(d.chunks.len(), 2);
    // colors are assigned by rank within each chunk
    assert_eq!(d.chunks[0].highlights[0].color, Colors::Red);
    assert_eq!(d.chunks[0].highlights[1].color, Colors::Green);
}

#[test]
fn from_description_rejects_an_empty_description() {
    let r = Dataset::from_description(template(vec![]), vec![0u8; 8]);
    assert!(matches!(r, Err(DataBrushErrors::EmptyTemplate)));
}

#[test]
fn from_description_rejects_an_empty_buffer() {
    let chunks = vec![bare_chunk("a", 0, 8, vec![])];
    let r = Dataset::from_description(template(chunks), vec![]);
    assert!(matches!(r, Err(DataBrushErrors::EmptyDataset)));
}

#[test]
fn from_description_rejects_an_oversized_buffer() {
    let chunks = vec![bare_chunk("a", 0, 8, vec![])];
    let r = Dataset::from_description(template(chunks), vec![0u8; MAX_FILE_LEN + 1]);
    assert!(matches!(r, Err(DataBrushErrors::FileTooLarge)));
}

#[test]
fn from_description_rejects_a_gap_between_chunks() {
    let chunks = vec![bare_chunk("a", 0, 8, vec![]), bare_chunk("b", 10, 8, vec![])];
    let r = Dataset::from_description(template(chunks), vec![0u8; 32]);
    assert!(matches!(r, Err(DataBrushErrors::ChunkOverflow)));
}

#[test]
fn from_description_rejects_a_chunk_past_the_buffer() {
    let chunks = vec![bare_chunk("a", 0, 40, vec![])];
    let r = Dataset::from_description(template(chunks), vec![0u8; 32]);
    assert!(matches!(r, Err(DataBrushErrors::ChunkOverflow)));
}

#[test]
fn from_description_rejects_a_zero_length_chunk() {
    // a zero chunk length cannot come out of Chunk::new, so force the field
    let mut chunks = vec![bare_chunk("a", 0, 8, vec![]), bare_chunk("empty", 8, 1, vec![])];
    chunks[1].length = 0;
    let r = Dataset::from_description(template(chunks), vec![0u8; 32]);
    assert!(matches!(r, Err(DataBrushErrors::ChunkSizeZero(n)) if n == "empty"));
}

#[test]
fn from_description_rejects_a_zero_length_highlight() {
    let mut h = hl("z", 2, 4);
    h.length = 0;
    let chunks = vec![bare_chunk("a", 0, 8, vec![h])];
    let r = Dataset::from_description(template(chunks), vec![0u8; 8]);
    assert!(matches!(r, Err(DataBrushErrors::HighlightSizeZero(n)) if n == "z"));
}

#[test]
fn from_description_rejects_a_highlight_escaping_its_chunk() {
    let chunks = vec![bare_chunk("a", 0, 8, vec![hl("wide", 4, 8)])];
    let r = Dataset::from_description(template(chunks), vec![0u8; 16]);
    assert!(matches!(r, Err(DataBrushErrors::HighlightOverlap)));
}

#[test]
fn from_description_rejects_overlapping_highlights() {
    let chunks = vec![bare_chunk("a", 0, 16, vec![hl("x", 0, 6), hl("y", 4, 4)])];
    let r = Dataset::from_description(template(chunks), vec![0u8; 16]);
    assert!(matches!(r, Err(DataBrushErrors::HighlightOverlap)));
}

#[test]
fn error_messages_name_the_offender() {
    assert_eq!(DataBrushErrors::EmptyDataset.message(), "dataset is empty");
    assert_eq!(DataBrushErrors::EmptyTemplate.message(), "json template is empty");
    assert_eq!(DataBrushErrors::FileTooLarge.message(), "file too large");
    assert_eq!(
        DataBrushErrors::ChunkSizeZero("head".to_string()).message(),
        "chunk <head> size is zero"
    );
    assert_eq!(
        DataBrushErrors::HighlightSizeZero("h".to_string()).message(),
        "highlight <h> size is zero"
    );
    assert_eq!(DataBrushErrors::ChunkOverflow.message(), "chunk larger than datasize");
    assert_eq!(DataBrushErrors::HighlightOverlap.message(), "highlighted regions overlap");
}

#[test]
fn from_description_accepts_a_prefix_tiling() {
    // chunks may stop short of the buffer's end
    let chunks = vec![bare_chunk("a", 0, 8, vec![])];
    let d = Dataset::from_description(template(chunks), vec![0u8; 32]);
    assert!(d.is_ok());
}
