use databrush::dataset::{Chunk, Dataset, Highlight};
use databrush::painter::Painter;

fn hl(name: &str, offset: usize, length: usize) -> Highlight {
    Highlight::new(name.to_string(), offset, length).unwrap()
}

/// A token wrapped in an ANSI foreground escape and the reset escape.
fn painted(s: &str, code: &str) -> String {
    format!("\u{1b}[{}m{}\u{1b}[0m", code, s)
}

/// Eight byte fields, each two hex digits and a space; `None` slots empty.
fn fields(bytes: &[Option<String>]) -> String {
    let mut out = String::new();
    for b in bytes {
        match b {
            Some(tok) => {
                out.push_str(tok);
                out.push(' ');
            },
            None => out.push_str("   "),
        }
    }
    out
}

fn plain_tokens(values: &[u8]) -> Vec<Option<String>> {
    values.iter().map(|v| Some(format!("{:02X}", v))).collect()
}

#[test]
fn end_to_end_two_highlighted_runs() {
    // a 32-byte buffer, one chunk of length 32, highlights over the first
    // and second eight bytes: two display lines, the first half red, the
    // second half of the first line green, the second line neutral
    let data: Vec<u8> = (0u8..32).collect();
    let mut chunk = Chunk::new("A".to_string(), 32).unwrap();
    chunk.set_highlight(hl("h1", 0, 8)).unwrap();
    chunk.set_highlight(hl("h2", 8, 8)).unwrap();
    let mut set = Dataset::new("demo".to_string(), data).unwrap();
    set.add_chunk(chunk).unwrap();

    let out = Painter::new().prepare(&set).unwrap();

    let red: Vec<Option<String>> =
        (0u8..8).map(|v| Some(painted(&format!("{:02X}", v), "31"))).collect();
    let green: Vec<Option<String>> =
        (8u8..16).map(|v| Some(painted(&format!("{:02X}", v), "32"))).collect();
    let plain_a = plain_tokens(&(16u8..24).collect::<Vec<u8>>());
    let plain_b = plain_tokens(&(24u8..32).collect::<Vec<u8>>());

    let mut expected = String::new();
    expected.push_str("======== demo\n");
    expected.push_str(&format!(
        "00000000\u{2503} {}  {} \u{2513} A\n",
        fields(&red),
        fields(&green)
    ));
    expected.push_str(&format!(
        "00000010\u{2503} {}  {} \u{251b}\n",
        fields(&plain_a),
        fields(&plain_b)
    ));
    expected.push_str(&format!("-- {}\n", painted("h1", "31")));
    expected.push_str(&format!("-- {}\n", painted("h2", "32")));
    expected.push('\n');

    assert_eq!(out, expected);
}

#[test]
fn three_line_chunk_brackets() {
    // a 48-byte chunk with no highlights: three lines whose bracket
    // segments read, bottom to top, closing corner, bar with the name,
    // opening corner; and no highlight lines at all
    let data: Vec<u8> = vec![0xAB; 48];
    let chunk = Chunk::new("hdr".to_string(), 48).unwrap();
    let mut set = Dataset::new("buf".to_string(), data).unwrap();
    set.add_chunk(chunk).unwrap();

    let out = Painter::new().prepare(&set).unwrap();
    let lines: Vec<&str> = out.lines().collect();

    assert_eq!(lines[0], "======== buf");
    assert!(lines[1].ends_with(" \u{2513}"));
    assert!(lines[2].ends_with(" \u{2503} hdr"));
    assert!(lines[3].ends_with(" \u{251b}"));
    assert!(!out.contains("-- "));

    let row = fields(&plain_tokens(&[0xAB; 8]));
    assert_eq!(lines[1], format!("00000000\u{2503} {}  {} \u{2513}", row, row));
    assert_eq!(lines[2], format!("00000010\u{2503} {}  {} \u{2503} hdr", row, row));
    assert_eq!(lines[3], format!("00000020\u{2503} {}  {} \u{251b}", row, row));
}

#[test]
fn rendering_twice_gives_identical_output() {
    let data: Vec<u8> = (0u8..40).collect();
    let mut chunk = Chunk::new("A".to_string(), 40).unwrap();
    chunk.set_highlight(hl("h", 3, 21)).unwrap();
    let mut set = Dataset::new("twice".to_string(), data).unwrap();
    set.add_chunk(chunk).unwrap();

    let first = Painter::new().prepare(&set).unwrap();
    let second = Painter::new().prepare(&set).unwrap();
    assert_eq!(first, second);
}

#[test]
fn single_line_chunk_gets_a_flat_bracket() {
    let data: Vec<u8> = vec![0x00; 10];
    let chunk = Chunk::new("tiny".to_string(), 10).unwrap();
    let mut set = Dataset::new("s".to_string(), data).unwrap();
    set.add_chunk(chunk).unwrap();

    let out = Painter::new().prepare(&set).unwrap();
    let lines: Vec<&str> = out.lines().collect();
    // ten filled slots, six empty ones, then the flat bracket and name
    let filled = fields(&plain_tokens(&[0x00; 8]));
    let tail = format!("{}{}", fields(&plain_tokens(&[0x00; 2])), "   ".repeat(6));
    assert_eq!(lines[1], format!("00000000\u{2503} {}  {} ] tiny", filled, tail));
}

#[test]
fn chunk_starting_mid_row_repeats_the_address() {
    // two chunks of eight bytes share the first sixteen-byte row: the row's
    // address appears twice, each line showing only its own half
    let data: Vec<u8> = (0u8..16).collect();
    let mut set = Dataset::new("s".to_string(), data).unwrap();
    set.add_chunk(Chunk::new("a".to_string(), 8).unwrap()).unwrap();
    set.add_chunk(Chunk::new("b".to_string(), 8).unwrap()).unwrap();

    let out = Painter::new().prepare(&set).unwrap();
    let lines: Vec<&str> = out.lines().collect();

    let first_half = fields(&plain_tokens(&(0u8..8).collect::<Vec<u8>>()));
    let second_half = fields(&plain_tokens(&(8u8..16).collect::<Vec<u8>>()));
    let empty_half = "   ".repeat(8);
    assert_eq!(lines[1], format!("00000000\u{2503} {}  {} ] a", first_half, empty_half));
    // chunk a has no highlights: a blank line, then chunk b's single line
    assert_eq!(lines[2], "");
    assert_eq!(lines[3], format!("00000000\u{2503} {}  {} ] b", empty_half, second_half));
}

#[test]
fn highlight_spanning_rows_keeps_its_color() {
    // one highlight runs across the sixteen-byte boundary; bytes on both
    // rows inside it carry its color
    let data: Vec<u8> = vec![0x11; 32];
    let mut chunk = Chunk::new("A".to_string(), 32).unwrap();
    chunk.set_highlight(hl("span", 12, 8)).unwrap();
    let mut set = Dataset::new("s".to_string(), data).unwrap();
    set.add_chunk(chunk).unwrap();

    let out = Painter::new().prepare(&set).unwrap();
    let lines: Vec<&str> = out.lines().collect();

    let red = |n: usize| -> Vec<Option<String>> {
        std::iter::repeat_with(|| Some(painted("11", "31"))).take(n).collect()
    };
    let plain = |n: usize| -> Vec<Option<String>> { plain_tokens(&vec![0x11; n]) };

    let mut row1 = Vec::new();
    row1.extend(plain(8));
    let mut row1b = Vec::new();
    row1b.extend(plain(4));
    row1b.extend(red(4));
    assert_eq!(
        lines[1],
        format!("00000000\u{2503} {}  {} \u{2513} A", fields(&row1), fields(&row1b))
    );
    let mut row2 = Vec::new();
    row2.extend(red(4));
    row2.extend(plain(4));
    assert_eq!(
        lines[2],
        format!("00000010\u{2503} {}  {} \u{251b}", fields(&row2), fields(&plain(8)))
    );
}
