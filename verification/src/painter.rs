use vstd::prelude::*;

use crate::colors::Colors;
use crate::dataset::{Chunk, Dataset, Highlight};
use crate::dataset::{lemma_validate_highlights_iff, spec_highlights_wf, spec_validate_chunks};

verus! {

// ---------------------------------------------------------------------------
// ANSI color codes, taken from the colored crate
// ---------------------------------------------------------------------------
/// The ANSI foreground code of each palette color, exactly as the colored
/// crate's `Color::to_fg_str` states them; the neutral color has none.
pub open spec fn spec_fg_code(c: Colors) -> Seq<char> {
    match c {
        Colors::Red => seq!['3', '1'],
        Colors::Green => seq!['3', '2'],
        Colors::Blue => seq!['3', '4'],
        Colors::Yellow => seq!['3', '3'],
        Colors::Cyan => seq!['3', '6'],
        Colors::Magenta => seq!['3', '5'],
        Colors::Normal => seq![],
    }
}

/// Relies on colored's `Color::Red.to_fg_str()`, which returns "31".
#[verifier::external_body]
fn fg_code_red() -> (r: String)
    ensures
        r@ == spec_fg_code(Colors::Red),
{
    colored::Color::Red.to_fg_str().into_owned()
}

/// Relies on colored's `Color::Green.to_fg_str()`, which returns "32".
#[verifier::external_body]
fn fg_code_green() -> (r: String)
    ensures
        r@ == spec_fg_code(Colors::Green),
{
    colored::Color::Green.to_fg_str().into_owned()
}

/// Relies on colored's `Color::Blue.to_fg_str()`, which returns "34".
#[verifier::external_body]
fn fg_code_blue() -> (r: String)
    ensures
        r@ == spec_fg_code(Colors::Blue),
{
    colored::Color::Blue.to_fg_str().into_owned()
}

/// Relies on colored's `Color::Yellow.to_fg_str()`, which returns "33".
#[verifier::external_body]
fn fg_code_yellow() -> (r: String)
    ensures
        r@ == spec_fg_code(Colors::Yellow),
{
    colored::Color::Yellow.to_fg_str().into_owned()
}

/// Relies on colored's `Color::Cyan.to_fg_str()`, which returns "36".
#[verifier::external_body]
fn fg_code_cyan() -> (r: String)
    ensures
        r@ == spec_fg_code(Colors::Cyan),
{
    colored::Color::Cyan.to_fg_str().into_owned()
}

/// Relies on colored's `Color::Magenta.to_fg_str()`, which returns "35".
#[verifier::external_body]
fn fg_code_magenta() -> (r: String)
    ensures
        r@ == spec_fg_code(Colors::Magenta),
{
    colored::Color::Magenta.to_fg_str().into_owned()
}

/// Relies on `String::push`: appends one character at the end.
#[verifier::external_body]
fn push_char(s: &mut String, c: char)
    ensures
        final (s)@ == old(s)@.push(c),
{
    s.push(c);
}

/// The ANSI foreground code of a palette color; empty for the neutral one.
fn fg_code(c: Colors) -> (r: String)
    ensures
        r@ == spec_fg_code(c),
{
    match c {
        Colors::Red => fg_code_red(),
        Colors::Green => fg_code_green(),
        Colors::Blue => fg_code_blue(),
        Colors::Yellow => fg_code_yellow(),
        Colors::Cyan => fg_code_cyan(),
        Colors::Magenta => fg_code_magenta(),
        Colors::Normal => String::new(),
    }
}

// ---------------------------------------------------------------------------
// painted tokens
// ---------------------------------------------------------------------------
/// A token as it reaches the output: neutral text stays bare, a colored one
/// is wrapped in the color's ANSI escape and the reset escape.
pub open spec fn spec_paint(s: Seq<char>, c: Colors) -> Seq<char> {
    if c == Colors::Normal {
        s
    } else {
        seq!['\u{1b}', '['] + spec_fg_code(c) + seq!['m'] + s + seq!['\u{1b}', '[', '0', 'm']
    }
}

/// Appends the painted form of `s` to the output.
fn paint_into(out: &mut String, s: &str, c: Colors)
    ensures
        final (out)@ == old(out)@ + spec_paint(s@, c),
{
    match c {
        Colors::Normal => {
            out.append(s);
            proof {
                assert(out@ =~= old(out)@ + spec_paint(s@, c));
            }
        },
        _ => {
            push_char(out, '\u{1b}');
            push_char(out, '[');
            let code = fg_code(c);
            out.append(code.as_str());
            push_char(out, 'm');
            out.append(s);
            push_char(out, '\u{1b}');
            push_char(out, '[');
            push_char(out, '0');
            push_char(out, 'm');
            proof {
                assert(out@ =~= old(out)@ + spec_paint(s@, c));
            }
        },
    }
}

// ---------------------------------------------------------------------------
// hex digits
// ---------------------------------------------------------------------------
/// The uppercase hex digit of a value below sixteen.
pub open spec fn spec_hex_upper(d: int) -> char {
    if d == 0 {
        '0'
    } else if d == 1 {
        '1'
    } else if d == 2 {
        '2'
    } else if d == 3 {
        '3'
    } else if d == 4 {
        '4'
    } else if d == 5 {
        '5'
    } else if d == 6 {
        '6'
    } else if d == 7 {
        '7'
    } else if d == 8 {
        '8'
    } else if d == 9 {
        '9'
    } else if d == 10 {
        'A'
    } else if d == 11 {
        'B'
    } else if d == 12 {
        'C'
    } else if d == 13 {
        'D'
    } else if d == 14 {
        'E'
    } else {
        'F'
    }
}

/// The lowercase hex digit of a value below sixteen.
pub open spec fn spec_hex_lower(d: int) -> char {
    if d < 10 {
        spec_hex_upper(d)
    } else if d == 10 {
        'a'
    } else if d == 11 {
        'b'
    } else if d == 12 {
        'c'
    } else if d == 13 {
        'd'
    } else if d == 14 {
        'e'
    } else {
        'f'
    }
}

/// One byte as two uppercase hex digits.
pub open spec fn spec_byte_hex(b: u8) -> Seq<char> {
    seq![spec_hex_upper(b as int / 16), spec_hex_upper(b as int % 16)]
}

/// The last `n` lowercase hex digits of a value, most significant first.
pub open spec fn spec_hex_digits(v: int, n: nat) -> Seq<char>
    decreases n,
{
    if n == 0 {
        seq![]
    } else {
        spec_hex_digits(v / 16, (n - 1) as nat).push(spec_hex_lower(v % 16))
    }
}

/// The address column: eight lowercase hex digits.
pub open spec fn spec_addr_hex(a: int) -> Seq<char> {
    spec_hex_digits(a, 8)
}

fn hex_upper(d: u8) -> (c: char)
    requires
        d < 16,
    ensures
        c == spec_hex_upper(d as int),
{
    if d == 0 {
        '0'
    } else if d == 1 {
        '1'
    } else if d == 2 {
        '2'
    } else if d == 3 {
        '3'
    } else if d == 4 {
        '4'
    } else if d == 5 {
        '5'
    } else if d == 6 {
        '6'
    } else if d == 7 {
        '7'
    } else if d == 8 {
        '8'
    } else if d == 9 {
        '9'
    } else if d == 10 {
        'A'
    } else if d == 11 {
        'B'
    } else if d == 12 {
        'C'
    } else if d == 13 {
        'D'
    } else if d == 14 {
        'E'
    } else {
        'F'
    }
}

fn hex_lower(d: u8) -> (c: char)
    requires
        d < 16,
    ensures
        c == spec_hex_lower(d as int),
{
    if d < 10 {
        hex_upper(d)
    } else if d == 10 {
        'a'
    } else if d == 11 {
        'b'
    } else if d == 12 {
        'c'
    } else if d == 13 {
        'd'
    } else if d == 14 {
        'e'
    } else {
        'f'
    }
}

/// Appends a byte's two uppercase hex digits.
fn push_byte_hex(out: &mut String, b: u8)
    ensures
        final (out)@ == old(out)@ + spec_byte_hex(b),
{
    push_char(out, hex_upper(b / 16));
    push_char(out, hex_upper(b % 16));
    proof {
        assert(out@ =~= old(out)@ + spec_byte_hex(b));
    }
}

/// Appends the last `n` lowercase hex digits of a value.
fn push_hex_digits(out: &mut String, v: usize, n: usize)
    ensures
        final (out)@ == old(out)@ + spec_hex_digits(v as int, n as nat),
    decreases n,
{
    if n == 0 {
        return ;
    }
    push_hex_digits(out, v / 16, n - 1);
    push_char(out, hex_lower((v % 16) as u8));
}

// ---------------------------------------------------------------------------
// per-byte highlight colors
// ---------------------------------------------------------------------------
/// The color of the byte at absolute index `pos` among a chunk's highlights:
/// the color of the first one in order whose half-open range holds `pos`,
/// else the neutral color.
pub open spec fn spec_color_at(hls: Seq<Highlight>, pos: int) -> Colors
    decreases hls.len(),
{
    if hls.len() == 0 {
        Colors::Normal
    } else if hls[0].offset <= pos < hls[0].end() {
        hls[0].color
    } else {
        spec_color_at(hls.drop_first(), pos)
    }
}

/// Highlights wholly behind the scan position cannot hold it, so dropping
/// them keeps the color.
proof fn lemma_color_at_skip(hls: Seq<Highlight>, pos: int, j: int)
    requires
        0 <= j <= hls.len(),
        forall|k: int| 0 <= k < j ==> (#[trigger] hls[k]).end() <= pos,
    ensures
        spec_color_at(hls, pos) == spec_color_at(hls.skip(j), pos),
    decreases j,
{
    if j > 0 {
        assert(hls[0].end() <= pos);
        assert(hls.skip(1) =~= hls.drop_first());
        lemma_color_at_skip(hls.drop_first(), pos, j - 1);
        assert(hls.drop_first().skip(j - 1) =~= hls.skip(j));
    } else {
        assert(hls.skip(0) =~= hls);
    }
}

/// When every highlight starts past the scan position, the color is neutral.
proof fn lemma_color_at_none(hls: Seq<Highlight>, pos: int)
    requires
        forall|k: int| 0 <= k < hls.len() ==> (#[trigger] hls[k]).offset > pos,
    ensures
        spec_color_at(hls, pos) == Colors::Normal,
    decreases hls.len(),
{
    if hls.len() > 0 {
        assert(hls[0].offset > pos);
        assert forall|k: int| 0 <= k < hls.drop_first().len() implies (#[trigger] hls.drop_first()[k]).offset
            > pos by {
            assert(hls.drop_first()[k] == hls[k + 1]);
        }
        lemma_color_at_none(hls.drop_first(), pos);
    }
}

/// In a well-formed run the starts ascend: a later highlight never starts
/// before an earlier one.
proof fn lemma_offsets_ascend(hls: Seq<Highlight>, a: int, b: int)
    requires
        0 <= a <= b < hls.len(),
        forall|k: int| 0 <= k < hls.len() ==> (#[trigger] hls[k]).length > 0,
        forall|k: int| 0 < k < hls.len() ==> (#[trigger] hls[k]).offset >= hls[k - 1].end(),
    ensures
        hls[b].offset >= hls[a].offset,
    decreases b - a,
{
    if a < b {
        lemma_offsets_ascend(hls, a, b - 1);
        assert(hls[b].offset >= hls[b - 1].end());
    }
}

/// One forward step of the run-length scan: skips the highlights that end at
/// or before `pos`, and answers the color that the byte at `pos` carries.
fn advance_color(hls: &Vec<Highlight>, hl_idx: &mut usize, pos: usize) -> (c: Colors)
    requires
        *old(hl_idx) <= hls@.len(),
        forall|k: int| 0 <= k < *old(hl_idx) ==> (#[trigger] hls@[k]).end() <= pos,
        forall|k: int| 0 <= k < hls@.len() ==> (#[trigger] hls@[k]).end() <= usize::MAX,
        forall|k: int| 0 <= k < hls@.len() ==> (#[trigger] hls@[k]).length > 0,
        forall|k: int| 0 < k < hls@.len() ==> (#[trigger] hls@[k]).offset >= hls@[k - 1].end(),
    ensures
        c == spec_color_at(hls@, pos as int),
        *old(hl_idx) <= *final (hl_idx) <= hls@.len(),
        forall|k: int| 0 <= k < *final (hl_idx) ==> (#[trigger] hls@[k]).end() <= pos,
{
    while *hl_idx < hls.len() && hls[*hl_idx].offset + hls[*hl_idx].length <= pos
        invariant
            *old(hl_idx) <= *hl_idx <= hls@.len(),
            forall|k: int| 0 <= k < *hl_idx ==> (#[trigger] hls@[k]).end() <= pos,
            forall|k: int| 0 <= k < hls@.len() ==> (#[trigger] hls@[k]).end() <= usize::MAX,
            forall|k: int| 0 <= k < hls@.len() ==> (#[trigger] hls@[k]).length > 0,
            forall|k: int|
                0 < k < hls@.len() ==> (#[trigger] hls@[k]).offset >= hls@[k - 1].end(),
        decreases hls@.len() - *hl_idx,
    {
        *hl_idx = *hl_idx + 1;
    }
    proof {
        lemma_color_at_skip(hls@, pos as int, *hl_idx as int);
    }
    if *hl_idx < hls.len() {
        let h = &hls[*hl_idx];
        if h.offset <= pos {
            proof {
                let rest = hls@.skip(*hl_idx as int);
                assert(rest[0] == hls@[*hl_idx as int]);
                assert(spec_color_at(rest, pos as int) == rest[0].color);
            }
            h.color
        } else {
            proof {
                let j = *hl_idx as int;
                let rest = hls@.skip(j);
                assert forall|k: int| 0 <= k < rest.len() implies (#[trigger] rest[k]).offset
                    > pos by {
                    assert(rest[k] == hls@[j + k]);
                    lemma_offsets_ascend(hls@, j, j + k);
                }
                lemma_color_at_none(rest, pos as int);
            }
            Colors::Normal
        }
    } else {
        proof {
            assert(hls@.skip(*hl_idx as int).len() == 0);
        }
        Colors::Normal
    }
}

// ---------------------------------------------------------------------------
// bracket segments
// ---------------------------------------------------------------------------
/// How many sixteen-byte display lines a chunk of the given length spans:
/// its length divided by sixteen, rounded up, and at least one.
pub open spec fn spec_line_count(len: int) -> int {
    (len - 1) / 16 + 1
}

/// The bracket glyph standing beside display line `idx` (counted from the
/// top) of a chunk spanning `count` lines: a single-line chunk gets a flat
/// bracket with its name; a taller one an opening corner, its name beside
/// the second line, plain bars, and a closing corner at the bottom. Lines
/// past the stack get nothing.
pub open spec fn spec_segment(name: Seq<char>, count: int, idx: int) -> Seq<char> {
    if idx < 0 || idx >= count {
        seq![]
    } else if count == 1 {
        seq![']', ' '] + name
    } else if count == 2 {
        if idx == 0 {
            seq!['┓', ' '] + name
        } else {
            seq!['┛']
        }
    } else if count == 3 {
        if idx == 0 {
            seq!['┓']
        } else if idx == 1 {
            seq!['┃', ' '] + name
        } else {
            seq!['┛']
        }
    } else {
        if idx == 0 {
            seq!['┓']
        } else if idx == 1 {
            seq!['┃', ' '] + name
        } else if idx < count - 1 {
            seq!['┃']
        } else {
            seq!['┛']
        }
    }
}

/// Appends the bracket segment of one display line.
fn push_segment(out: &mut String, name: &str, count: usize, idx: usize)
    ensures
        final (out)@ == old(out)@ + spec_segment(name@, count as int, idx as int),
{
    if idx >= count {
        proof {
            assert(out@ =~= old(out)@ + spec_segment(name@, count as int, idx as int));
        }
        return ;
    }
    if count == 1 {
        push_char(out, ']');
        push_char(out, ' ');
        out.append(name);
    } else if count == 2 {
        if idx == 0 {
            push_char(out, '┓');
            push_char(out, ' ');
            out.append(name);
        } else {
            push_char(out, '┛');
        }
    } else if count == 3 {
        if idx == 0 {
            push_char(out, '┓');
        } else if idx == 1 {
            push_char(out, '┃');
            push_char(out, ' ');
            out.append(name);
        } else {
            push_char(out, '┛');
        }
    } else {
        if idx == 0 {
            push_char(out, '┓');
        } else if idx == 1 {
            push_char(out, '┃');
            push_char(out, ' ');
            out.append(name);
        } else if idx < count - 1 {
            push_char(out, '┃');
        } else {
            push_char(out, '┛');
        }
    }
    proof {
        assert(out@ =~= old(out)@ + spec_segment(name@, count as int, idx as int));
    }
}

// ---------------------------------------------------------------------------
// display lines
// ---------------------------------------------------------------------------
/// The sixteen byte fields of one display line, from `slot` on: a filled
/// slot (one whose absolute position lies in `[lo, hi)`) shows its byte as a
/// painted hex pair and a space, an empty slot three spaces; two extra
/// spaces part the two groups of eight.
pub open spec fn spec_fields(
    data: Seq<u8>,
    hls: Seq<Highlight>,
    addr: int,
    lo: int,
    hi: int,
    slot: int,
) -> Seq<char>
    decreases 16 - slot,
{
    if slot >= 16 {
        seq![]
    } else {
        (if slot == 8 {
            seq![' ', ' ']
        } else {
            seq![]
        }) + (if lo <= addr + slot < hi {
            spec_paint(spec_byte_hex(data[addr + slot]), spec_color_at(hls, addr + slot))
                + seq![' ']
        } else {
            seq![' ', ' ', ' ']
        }) + spec_fields(data, hls, addr, lo, hi, slot + 1)
    }
}

/// One display line: the address of its sixteen-byte row, a bar, the byte
/// fields, the line's bracket segment, and a line break.
pub open spec fn spec_line(data: Seq<u8>, c: Chunk, cursor: int, line_idx: int) -> Seq<char> {
    let addr = cursor - (cursor % 16);
    let rem_line = 16 - (cursor % 16);
    let take = if c.end() - cursor <= rem_line {
        c.end() - cursor
    } else {
        rem_line
    };
    spec_addr_hex(addr) + seq!['┃', ' '] + spec_fields(data, c.highlights@, addr, cursor, cursor
        + take, 0) + seq![' '] + spec_segment(
        c.name@,
        spec_line_count(c.length as int),
        line_idx,
    ) + seq!['\n']
}

/// Every display line of a chunk from the given cursor on. Each line takes
/// the bytes up to the chunk's end or the end of its sixteen-byte row,
/// whichever comes first.
pub open spec fn spec_chunk_lines(data: Seq<u8>, c: Chunk, cursor: int, line_idx: int) -> Seq<
    char,
>
    decreases c.end() - cursor,
{
    if cursor >= c.end() {
        seq![]
    } else {
        let rem_line = 16 - (cursor % 16);
        let take = if c.end() - cursor <= rem_line {
            c.end() - cursor
        } else {
            rem_line
        };
        spec_line(data, c, cursor, line_idx) + spec_chunk_lines(data, c, cursor + take, line_idx
            + 1)
    }
}

/// The highlight list under a chunk's dump: each highlight's name in its
/// own color on a line of its own.
pub open spec fn spec_hl_names(hls: Seq<Highlight>) -> Seq<char>
    decreases hls.len(),
{
    if hls.len() == 0 {
        seq![]
    } else {
        seq!['-', '-', ' '] + spec_paint(hls[0].name@, hls[0].color) + seq!['\n']
            + spec_hl_names(hls.drop_first())
    }
}

/// One chunk's block: its display lines, its highlight list, and a blank
/// separator line.
pub open spec fn spec_chunk_block(data: Seq<u8>, c: Chunk) -> Seq<char> {
    spec_chunk_lines(data, c, c.offset as int, 0) + spec_hl_names(c.highlights@) + seq!['\n']
}

/// The blocks of every chunk in order.
pub open spec fn spec_chunks_render(data: Seq<u8>, chunks: Seq<Chunk>) -> Seq<char>
    decreases chunks.len(),
{
    if chunks.len() == 0 {
        seq![]
    } else {
        spec_chunk_block(data, chunks[0]) + spec_chunks_render(data, chunks.drop_first())
    }
}

/// The whole rendering of a validated dataset: a header line naming it,
/// then every chunk's block.
pub open spec fn spec_render(set: Dataset) -> Seq<char> {
    "======== "@ + set.name@ + seq!['\n'] + spec_chunks_render(set.data@, set.chunks@)
}

/// Rendering is idempotent: the renderer's outcome is a pure function of
/// the dataset — `prepare` promises its result is `spec_render` of the set
/// — so any two renderings of the same validated dataset, in particular a
/// first and a second run, are the same string.
pub proof fn lemma_render_deterministic(first: Seq<char>, second: Seq<char>, set: Dataset)
    requires
        first == spec_render(set),
        second == spec_render(set),
    ensures
        first == second,
{
}

/// Appends the sixteen byte fields of the display line whose row starts at
/// `addr`, showing the bytes in `[addr + line_mod, addr + line_mod + take)`.
fn render_fields(
    output: &mut String,
    data: &Vec<u8>,
    chunk: &Chunk,
    hl_idx: &mut usize,
    addr: usize,
    line_mod: usize,
    take: usize,
)
    requires
        line_mod < 16,
        1 <= take,
        line_mod + take <= 16,
        addr + line_mod + take <= chunk.end(),
        chunk.end() <= data@.len(),
        data@.len() <= usize::MAX,
        spec_highlights_wf(chunk.highlights@, chunk.offset as int, chunk.end()),
        *old(hl_idx) <= chunk.highlights@.len(),
        forall|k: int|
            0 <= k < *old(hl_idx) ==> (#[trigger] chunk.highlights@[k]).end() <= addr + line_mod,
    ensures
        final (output)@ == old(output)@ + spec_fields(
            data@,
            chunk.highlights@,
            addr as int,
            addr + line_mod as int,
            addr + line_mod + take as int,
            0,
        ),
        *final (hl_idx) <= chunk.highlights@.len(),
        forall|k: int|
            0 <= k < *final (hl_idx) ==> (#[trigger] chunk.highlights@[k]).end() <= addr + line_mod
                + take,
{
    let ghost lo = addr + line_mod as int;
    let ghost hi = addr + line_mod + take as int;
    let mut slot: usize = 0;
    while slot < 16
        invariant
            0 <= slot <= 16,
            line_mod < 16,
            1 <= take,
            line_mod + take <= 16,
            addr + line_mod + take <= chunk.end(),
            chunk.end() <= data@.len(),
            data@.len() <= usize::MAX,
            lo == addr + line_mod as int,
            hi == addr + line_mod + take as int,
            spec_highlights_wf(chunk.highlights@, chunk.offset as int, chunk.end()),
            *hl_idx <= chunk.highlights@.len(),
            forall|k: int|
                0 <= k < *hl_idx ==> (#[trigger] chunk.highlights@[k]).end() <= addr + (if slot
                    >= line_mod {
                    slot as int
                } else {
                    line_mod as int
                }),
            forall|k: int|
                0 <= k < *hl_idx ==> (#[trigger] chunk.highlights@[k]).end() <= hi,
            output@ + spec_fields(data@, chunk.highlights@, addr as int, lo, hi, slot as int)
                == old(output)@ + spec_fields(data@, chunk.highlights@, addr as int, lo, hi, 0),
        decreases 16 - slot,
    {
        if slot == 8 {
            push_char(output, ' ');
            push_char(output, ' ');
        }
        if line_mod <= slot && slot < line_mod + take {
            let pos = addr + slot;
            let c = advance_color(&chunk.highlights, hl_idx, pos);
            let mut tok = String::new();
            push_byte_hex(&mut tok, data[pos]);
            paint_into(output, tok.as_str(), c);
            push_char(output, ' ');
        } else {
            push_char(output, ' ');
            push_char(output, ' ');
            push_char(output, ' ');
        }
        proof {
            assert(output@ + spec_fields(
                data@,
                chunk.highlights@,
                addr as int,
                lo,
                hi,
                slot as int + 1,
            ) =~= old(output)@ + spec_fields(data@, chunk.highlights@, addr as int, lo, hi, 0));
        }
        slot = slot + 1;
    }
    proof {
        assert(output@ =~= old(output)@ + spec_fields(
            data@,
            chunk.highlights@,
            addr as int,
            lo,
            hi,
            0,
        ));
    }
}

/// Appends every display line of one chunk, walking the buffer sixteen
/// bytes a row from the chunk's start to its end.
fn render_chunk_lines(output: &mut String, data: &Vec<u8>, chunk: &Chunk)
    requires
        chunk.length > 0,
        chunk.end() <= data@.len(),
        data@.len() <= usize::MAX,
        spec_highlights_wf(chunk.highlights@, chunk.offset as int, chunk.end()),
    ensures
        final (output)@ == old(output)@ + spec_chunk_lines(
            data@,
            *chunk,
            chunk.offset as int,
            0,
        ),
{
    let chunk_end = chunk.offset + chunk.length;
    let line_total = (chunk.length - 1) / 16 + 1;
    let mut cursor = chunk.offset;
    let mut line_idx: usize = 0;
    let mut hl_idx: usize = 0;
    while cursor < chunk_end
        invariant
            chunk.offset <= cursor <= chunk_end,
            chunk_end == chunk.end(),
            chunk.length > 0,
            chunk.end() <= data@.len(),
            data@.len() <= usize::MAX,
            spec_highlights_wf(chunk.highlights@, chunk.offset as int, chunk.end()),
            line_total == spec_line_count(chunk.length as int),
            line_idx as int <= cursor - chunk.offset,
            hl_idx <= chunk.highlights@.len(),
            cursor < chunk_end ==> forall|k: int|
                0 <= k < hl_idx ==> (#[trigger] chunk.highlights@[k]).end() <= cursor,
            output@ + spec_chunk_lines(data@, *chunk, cursor as int, line_idx as int) == old(
                output,
            )@ + spec_chunk_lines(data@, *chunk, chunk.offset as int, 0),
        decreases chunk_end - cursor,
    {
        let ghost out_pre = output@;
        let line_mod = cursor % 16;
        let addr = cursor - line_mod;
        let rem_chunk = chunk_end - cursor;
        let rem_line = 16 - line_mod;
        let take = if rem_chunk <= rem_line {
            rem_chunk
        } else {
            rem_line
        };
        push_hex_digits(output, addr, 8);
        push_char(output, '┃');
        push_char(output, ' ');
        render_fields(output, data, chunk, &mut hl_idx, addr, line_mod, take);
        push_char(output, ' ');
        push_segment(output, chunk.name.as_str(), line_total, line_idx);
        push_char(output, '\n');
        proof {
            assert(output@ =~= out_pre + spec_line(data@, *chunk, cursor as int, line_idx as int));
            assert(out_pre + spec_line(data@, *chunk, cursor as int, line_idx as int)
                + spec_chunk_lines(data@, *chunk, cursor + take, line_idx + 1) =~= out_pre
                + spec_chunk_lines(data@, *chunk, cursor as int, line_idx as int));
        }
        cursor = cursor + take;
        line_idx = line_idx + 1;
    }
    proof {
        assert(output@ =~= output@ + spec_chunk_lines(data@, *chunk, cursor as int, line_idx as int));
    }
}

/// Appends the highlight list of one chunk, one named line per highlight.
fn render_hl_names(output: &mut String, chunk: &Chunk)
    ensures
        final (output)@ == old(output)@ + spec_hl_names(chunk.highlights@),
{
    let mut hi: usize = 0;
    proof {
        assert(chunk.highlights@.skip(0) =~= chunk.highlights@);
    }
    while hi < chunk.highlights.len()
        invariant
            0 <= hi <= chunk.highlights@.len(),
            output@ + spec_hl_names(chunk.highlights@.skip(hi as int)) == old(output)@
                + spec_hl_names(chunk.highlights@),
        decreases chunk.highlights@.len() - hi,
    {
        proof {
            assert(chunk.highlights@.skip(hi as int)[0] == chunk.highlights@[hi as int]);
            assert(chunk.highlights@.skip(hi as int).drop_first() =~= chunk.highlights@.skip(
                hi as int + 1,
            ));
        }
        let ghost out_pre = output@;
        push_char(output, '-');
        push_char(output, '-');
        push_char(output, ' ');
        let hl = &chunk.highlights[hi];
        paint_into(output, hl.name.as_str(), hl.color);
        push_char(output, '\n');
        proof {
            assert(output@ + spec_hl_names(chunk.highlights@.skip(hi as int + 1)) =~= out_pre
                + spec_hl_names(chunk.highlights@.skip(hi as int)));
        }
        hi = hi + 1;
    }
}

/// Declares std's formatter error so the renderer can keep a `Result`
/// signature; the renderer never constructs one.
#[verifier::external_type_specification]
#[verifier::external_body]
pub struct ExFmtError(std::fmt::Error);

/// Walks a validated dataset once, start to finish, and lays its bytes out
/// as a colored hex dump.
pub struct Painter {
    offset: usize,
}

impl Default for Painter {
    fn default() -> (p: Painter)
        ensures
            p.is_fresh(),
    {
        Painter::new()
    }
}

impl Painter {
    /// Whether this painter has rendered nothing yet: its running byte
    /// cursor still stands at the start of the buffer.
    pub closed spec fn is_fresh(self) -> bool {
        self.offset == 0
    }

    /// A painter whose cursor stands at the start of the buffer.
    pub fn new() -> (p: Painter)
        ensures
            p.is_fresh(),
    {
        Painter { offset: 0 }
    }

    /// Renders a validated dataset: the header, then every chunk's display
    /// lines, highlight list and separator, in order. The result is the one
    /// rendering the dataset has; nothing else flows into it.
    pub fn prepare(self, set: &Dataset) -> (r: Result<String, std::fmt::Error>)
        requires
            self.is_fresh(),
            set.spec_validate() is Ok,
        ensures
            match r {
                Ok(s) => s@ == spec_render(*set),
                Err(_) => false,
            },
    {
        let mut output = String::new();
        output.append("======== ");
        output.append(set.name.as_str());
        push_char(&mut output, '\n');
        proof {
            assert(output@ =~= "======== "@ + set.name@ + seq!['\n']);
            assert(set.chunks@.skip(0) =~= set.chunks@);
            assert(output@ + spec_chunks_render(set.data@, set.chunks@) =~= spec_render(*set));
        }

        let mut offset = self.offset;
        let upper = set.data.len();
        let mut ci: usize = 0;
        while ci < set.chunks.len()
            invariant
                0 <= ci <= set.chunks@.len(),
                upper == set.data@.len(),
                offset <= upper,
                spec_validate_chunks(
                    set.chunks@.skip(ci as int),
                    offset as int,
                    upper as int,
                ) is Ok,
                output@ + spec_chunks_render(set.data@, set.chunks@.skip(ci as int))
                    == spec_render(*set),
            decreases set.chunks@.len() - ci,
        {
            proof {
                assert(set.chunks@.skip(ci as int)[0] == set.chunks@[ci as int]);
                assert(set.chunks@.skip(ci as int).drop_first() =~= set.chunks@.skip(
                    ci as int + 1,
                ));
            }
            let ghost out_pre = output@;
            let chunk = &set.chunks[ci];
            proof {
                lemma_validate_highlights_iff(chunk.highlights@, chunk.offset as int, chunk.end());
            }
            let chunk_end = chunk.offset + chunk.length;
            render_chunk_lines(&mut output, &set.data, chunk);
            render_hl_names(&mut output, chunk);
            push_char(&mut output, '\n');
            proof {
                assert(output@ =~= out_pre + spec_chunk_block(set.data@, *chunk));
                assert(out_pre + spec_chunk_block(set.data@, *chunk) + spec_chunks_render(
                    set.data@,
                    set.chunks@.skip(ci as int + 1),
                ) =~= out_pre + spec_chunks_render(set.data@, set.chunks@.skip(ci as int)));
            }
            offset = chunk_end;
            ci = ci + 1;
        }
        proof {
            assert(set.chunks@.skip(set.chunks@.len() as int).len() == 0);
            assert(output@ =~= spec_render(*set));
        }
        Ok(output)
    }
}

} // verus!
