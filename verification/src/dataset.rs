use vstd::prelude::*;
use vstd::seq_lib::group_to_multiset_ensures;

use crate::colors;
use crate::errors;

verus! {

broadcast use group_to_multiset_ensures;

/// Largest byte buffer a dataset accepts: 10 MiB.
pub const MAX_FILE_LEN: usize = 10 * 1024 * 1024;

/// One tagged sub-range of bytes inside a chunk. Offsets are absolute within
/// the buffer, and a highlight never has zero length once validated.
pub struct Highlight {
    pub name: String,
    pub offset: usize,
    pub length: usize,
    pub color: colors::Colors,
}

impl Highlight {
    /// The first byte index past the highlight, as a mathematical integer.
    pub open spec fn end(self) -> int {
        self.offset + self.length
    }

    /// Two highlights overlap when their half-open byte ranges
    /// `[offset, offset + length)` share at least one index.
    pub open spec fn spec_overlaps(self, other: Highlight) -> bool {
        self.offset < other.end() && other.offset < self.end()
    }

    /// Builds a highlight over `[offset, offset + length)` carrying a
    /// placeholder color; a zero length is refused by name.
    pub fn new(highlight_name: String, offset: usize, length: usize) -> (r: Result<
        Self,
        errors::DataBrushErrors,
    >)
        ensures
            match r {
                Ok(h) => {
                    &&& length > 0
                    &&& h == (Highlight {
                        name: highlight_name,
                        offset,
                        length,
                        color: colors::Colors::Red,
                    })
                },
                Err(e) => {
                    &&& length == 0
                    &&& e == errors::DataBrushErrors::HighlightSizeZero(highlight_name)
                },
            },
    {
        if length == 0 {
            return Err(errors::DataBrushErrors::HighlightSizeZero(highlight_name));
        }
        Ok(
            Highlight {
                name: highlight_name,
                offset,
                length,
                color: colors::palette_color(0),
            },
        )
    }
}

/// A named, contiguous segment of the buffer holding zero or more highlights.
/// Its offset is assigned when it is appended to a dataset: chunks cannot be
/// placed freely, they tile the buffer in order.
pub struct Chunk {
    pub name: String,
    pub offset: usize,
    pub length: usize,
    pub highlights: Vec<Highlight>,
}

impl Chunk {
    /// The first byte index past the chunk, as a mathematical integer.
    pub open spec fn end(self) -> int {
        self.offset + self.length
    }

    /// Builds an unplaced chunk of the given length; a zero length is
    /// refused by name.
    pub fn new(chunk_name: String, chunk_len: usize) -> (r: Result<Self, errors::DataBrushErrors>)
        ensures
            match r {
                Ok(c) => {
                    &&& chunk_len > 0
                    &&& c.name == chunk_name
                    &&& c.offset == 0
                    &&& c.length == chunk_len
                    &&& c.highlights@ == Seq::<Highlight>::empty()
                },
                Err(e) => {
                    &&& chunk_len == 0
                    &&& e == errors::DataBrushErrors::ChunkSizeZero(chunk_name)
                },
            },
    {
        if chunk_len == 0 {
            return Err(errors::DataBrushErrors::ChunkSizeZero(chunk_name));
        }
        Ok(Chunk { name: chunk_name, offset: 0, length: chunk_len, highlights: Vec::new() })
    }

    /// Appends a highlight to a chunk under construction. The highlight first
    /// receives its color from its rank among the chunk's highlights, then is
    /// held against every highlight already present: any shared byte index
    /// is refused, while ranges that merely touch at a boundary are accepted.
    pub fn set_highlight(&mut self, highlight: Highlight) -> (r: Result<(), errors::DataBrushErrors>)
        ensures
            ({
                let placed = (Highlight {
                    color: colors::spec_palette_color(old(self).highlights@.len() as nat),
                    ..highlight
                });
                match r {
                    Ok(()) => {
                        &&& forall|i: int|
                            0 <= i < old(self).highlights@.len() ==> !placed.spec_overlaps(
                                #[trigger] old(self).highlights@[i],
                            )
                        &&& final(self).name == old(self).name
                        &&& final(self).offset == old(self).offset
                        &&& final(self).length == old(self).length
                        &&& final(self).highlights@ == old(self).highlights@.push(placed)
                    },
                    Err(e) => {
                        &&& e == errors::DataBrushErrors::HighlightOverlap
                        &&& exists|i: int|
                            0 <= i < old(self).highlights@.len() && placed.spec_overlaps(
                                #[trigger] old(self).highlights@[i],
                            )
                        &&& *final(self) == *old(self)
                    },
                }
            }),
    {
        let mut placed = highlight;
        placed.color = colors::palette_color(self.highlights.len());

        let mut i: usize = 0;
        while i < self.highlights.len()
            invariant
                0 <= i <= self.highlights.len(),
                *self == *old(self),
                placed == (Highlight {
                    color: colors::spec_palette_color(old(self).highlights@.len() as nat),
                    ..highlight
                }),
                forall|k: int|
                    0 <= k < i ==> !placed.spec_overlaps(#[trigger] self.highlights@[k]),
            decreases self.highlights.len() - i,
        {
            if hl_overlaps(&placed, &self.highlights[i]) {
                proof {
                    assert(placed.spec_overlaps(old(self).highlights@[i as int]));
                }
                return Err(errors::DataBrushErrors::HighlightOverlap);
            }
            i = i + 1;
        }

        self.highlights.push(placed);
        Ok(())
    }
}

/// Whether the two highlights' half-open byte ranges share an index; exact
/// for every input, including ranges whose end would not fit in `usize`.
fn hl_overlaps(a: &Highlight, b: &Highlight) -> (r: bool)
    ensures
        r == a.spec_overlaps(*b),
{
    let a_starts_before_b_ends = match b.offset.checked_add(b.length) {
        Some(b_end) => a.offset < b_end,
        None => true,
    };
    let b_starts_before_a_ends = match a.offset.checked_add(a.length) {
        Some(a_end) => b.offset < a_end,
        None => true,
    };
    a_starts_before_b_ends && b_starts_before_a_ends
}

/// Highlights stand in ascending order of their offsets.
pub open spec fn sorted_by_offset(s: Seq<Highlight>) -> bool {
    forall|i: int, j: int| 0 <= i < j < s.len() ==> s[i].offset <= s[j].offset
}

/// Reorders a chunk's highlights by ascending offset, keeping exactly the
/// same collection of highlights.
fn sort_highlights(v: &mut Vec<Highlight>)
    ensures
        sorted_by_offset(final(v)@),
        final(v)@.to_multiset() == old(v)@.to_multiset(),
        final(v)@.len() == old(v)@.len(),
{
    if v.len() <= 1 {
        return ;
    }
    let mut i: usize = 1;
    while i < v.len()
        invariant
            i >= 1,
            i <= v.len(),
            sorted_by_offset(v@.subrange(0, i as int)),
            v@.to_multiset() == old(v)@.to_multiset(),
            v@.len() == old(v)@.len(),
        decreases v.len() - i,
    {
        let ghost before = v@;
        let moved = v.remove(i);
        let ghost after_remove = v@;
        proof {
            before.remove_ensures(i as int);
        }
        let mut j: usize = 0;
        while j < i && v[j].offset <= moved.offset
            invariant
                0 <= j <= i,
                i <= after_remove.len(),
                v@ == after_remove,
                forall|k: int| 0 <= k < j ==> after_remove[k].offset <= moved.offset,
            decreases i - j,
        {
            j = j + 1;
        }
        let ghost stop = j as int;
        v.insert(j, moved);
        proof {
            after_remove.insert_ensures(stop, moved);
            // the element taken out went back in: the collection is unchanged
            assert(before.contains(before[i as int]));
            assert(v@.to_multiset() =~= before.to_multiset());
            // prefix order: entries below the insertion point do not exceed
            // the moved one, entries from it up to i exceeded it already
            assert forall|p: int, q: int| 0 <= p < q < i + 1 implies v@[p].offset
                <= v@[q].offset by {
                assert(forall|k: int| 0 <= k < i ==> after_remove[k] == before[k]);
                if q < stop {
                    assert(v@[p] == before[p] && v@[q] == before[q]);
                } else if q == stop {
                    assert(v@[q] == moved);
                    assert(p < stop ==> v@[p] == before[p]);
                } else {
                    assert(v@[q] == before[q - 1]);
                    if stop < i {
                        assert(!(after_remove[stop].offset <= moved.offset));
                    }
                    if p == stop {
                        assert(v@[p] == moved);
                    } else if p < stop {
                        assert(v@[p] == before[p]);
                    } else {
                        assert(v@[p] == before[p - 1]);
                    }
                }
            }
            assert(sorted_by_offset(v@.subrange(0, i as int + 1)));
        }
        i = i + 1;
    }
    proof {
        assert(v@.subrange(0, v@.len() as int) =~= v@);
    }
}

/// The outcome of scanning a run of highlights left to right inside one
/// chunk, holding a running lower bound: the first highlight that is empty,
/// starts below the bound, or ends past the chunk's end aborts the scan.
pub open spec fn spec_validate_highlights(hls: Seq<Highlight>, lower: int, upper: int) -> Result<
    (),
    errors::DataBrushErrors,
>
    decreases hls.len(),
{
    if hls.len() == 0 {
        Ok(())
    } else {
        let h = hls[0];
        if h.length == 0 {
            Err(errors::DataBrushErrors::HighlightSizeZero(h.name))
        } else if h.offset < lower || h.offset + h.length > upper {
            Err(errors::DataBrushErrors::HighlightOverlap)
        } else {
            spec_validate_highlights(hls.drop_first(), h.offset + h.length, upper)
        }
    }
}

/// The outcome of scanning a run of chunks left to right against a buffer
/// that ends at `upper`: each chunk must start exactly at the running lower
/// bound, stay inside the buffer, and carry a well-formed highlight run.
pub open spec fn spec_validate_chunks(chunks: Seq<Chunk>, lower: int, upper: int) -> Result<
    (),
    errors::DataBrushErrors,
>
    decreases chunks.len(),
{
    if chunks.len() == 0 {
        Ok(())
    } else {
        let c = chunks[0];
        if c.length == 0 {
            Err(errors::DataBrushErrors::ChunkSizeZero(c.name))
        } else if c.offset != lower || c.offset + c.length > upper {
            Err(errors::DataBrushErrors::ChunkOverflow)
        } else {
            match spec_validate_highlights(c.highlights@, c.offset as int, c.end()) {
                Err(e) => Err(e),
                Ok(()) => spec_validate_chunks(chunks.drop_first(), c.end(), upper),
            }
        }
    }
}

/// The well-formed shape of one chunk's highlight run, spelled out index by
/// index: positive lengths, ascending disjoint ranges, all inside the band
/// `[lower, upper)`.
pub open spec fn spec_highlights_wf(hls: Seq<Highlight>, lower: int, upper: int) -> bool {
    &&& forall|k: int| 0 <= k < hls.len() ==> (#[trigger] hls[k]).length > 0
    &&& forall|k: int| 0 <= k < hls.len() ==> (#[trigger] hls[k]).end() <= upper
    &&& hls.len() > 0 ==> hls[0].offset >= lower
    &&& forall|k: int|
        0 < k < hls.len() ==> (#[trigger] hls[k]).offset >= hls[k - 1].end()
}

/// A highlight scan succeeds exactly on the well-formed runs.
pub proof fn lemma_validate_highlights_iff(hls: Seq<Highlight>, lower: int, upper: int)
    ensures
        spec_validate_highlights(hls, lower, upper) is Ok <==> spec_highlights_wf(
            hls,
            lower,
            upper,
        ),
    decreases hls.len(),
{
    if hls.len() > 0 {
        let rest = hls.drop_first();
        let h = hls[0];
        lemma_validate_highlights_iff(rest, h.end(), upper);
        assert(forall|k: int| 0 <= k < rest.len() ==> #[trigger] rest[k] == hls[k + 1]);
        if spec_validate_highlights(hls, lower, upper) is Ok {
            assert(spec_highlights_wf(rest, h.end(), upper));
            assert forall|k: int| 0 <= k < hls.len() implies (#[trigger] hls[k]).length > 0 by {
                if k > 0 {
                    assert(rest[k - 1] == hls[k]);
                    assert(rest[k - 1].length > 0);
                }
            }
            assert forall|k: int| 0 <= k < hls.len() implies (#[trigger] hls[k]).end()
                <= upper by {
                if k > 0 {
                    assert(rest[k - 1] == hls[k]);
                    assert(rest[k - 1].end() <= upper);
                }
            }
            assert forall|k: int| 0 < k < hls.len() implies (#[trigger] hls[k]).offset >= hls[k
                - 1].end() by {
                if k == 1 {
                    assert(rest.len() > 0);
                    assert(rest[0] == hls[1]);
                    assert(rest[0].offset >= h.end());
                } else {
                    assert(rest[k - 1] == hls[k]);
                    assert(rest[k - 2] == hls[k - 1]);
                    assert(rest[k - 1].offset >= rest[k - 2].end());
                }
            }
            assert(spec_highlights_wf(hls, lower, upper));
        }
        if spec_highlights_wf(hls, lower, upper) {
            assert(h.length > 0);
            assert(h.end() <= upper);
            assert(h.offset >= lower);
            assert forall|k: int| 0 <= k < rest.len() implies (#[trigger] rest[k]).length > 0
                && rest[k].end() <= upper by {
                assert(rest[k] == hls[k + 1]);
            }
            assert(rest.len() > 0 ==> rest[0].offset >= h.end()) by {
                if rest.len() > 0 {
                    assert(rest[0] == hls[1]);
                    assert(hls[1].offset >= hls[0].end());
                }
            }
            assert forall|k: int| 0 < k < rest.len() implies (#[trigger] rest[k]).offset >= rest[k
                - 1].end() by {
                assert(rest[k] == hls[k + 1]);
                assert(rest[k - 1] == hls[k]);
                assert(hls[k + 1].offset >= hls[k].end());
            }
            assert(spec_highlights_wf(rest, h.end(), upper));
            assert(spec_validate_highlights(rest, h.end(), upper) is Ok);
            assert(spec_validate_highlights(hls, lower, upper) is Ok);
        }
    }
}

/// The second chunk is the first with every highlight's color replaced by
/// the palette color of the highlight's rank; everything else is kept.
pub open spec fn spec_chunk_recolored(from: Chunk, to: Chunk) -> bool {
    &&& to.name == from.name
    &&& to.offset == from.offset
    &&& to.length == from.length
    &&& to.highlights@.len() == from.highlights@.len()
    &&& forall|k: int|
        0 <= k < from.highlights@.len() ==> #[trigger] to.highlights@[k] == (Highlight {
            color: colors::spec_palette_color(k as nat),
            ..from.highlights@[k]
        })
}

/// The second chunk run is the first, chunk for chunk recolored by rank.
pub open spec fn spec_chunks_recolored(from: Seq<Chunk>, to: Seq<Chunk>) -> bool {
    &&& to.len() == from.len()
    &&& forall|i: int| 0 <= i < from.len() ==> spec_chunk_recolored(from[i], #[trigger] to[i])
}

/// Validation never reads a highlight's color, so a highlight run scans the
/// same way after its colors changed, as long as names, offsets and lengths
/// are kept.
proof fn lemma_recolored_validate_highlights(
    from: Seq<Highlight>,
    to: Seq<Highlight>,
    lower: int,
    upper: int,
)
    requires
        to.len() == from.len(),
        forall|k: int|
            0 <= k < from.len() ==> (#[trigger] to[k]).name == from[k].name && to[k].offset
                == from[k].offset && to[k].length == from[k].length,
    ensures
        spec_validate_highlights(to, lower, upper) == spec_validate_highlights(
            from,
            lower,
            upper,
        ),
    decreases from.len(),
{
    if from.len() > 0 {
        assert(to[0].name == from[0].name);
        if from[0].length != 0 && !(from[0].offset < lower || from[0].offset + from[0].length
            > upper) {
            assert forall|k: int| 0 <= k < from.len() - 1 implies (#[trigger] to.drop_first()[k]).name
                == from.drop_first()[k].name && to.drop_first()[k].offset
                == from.drop_first()[k].offset && to.drop_first()[k].length
                == from.drop_first()[k].length by {
                assert(to.drop_first()[k] == to[k + 1]);
                assert(from.drop_first()[k] == from[k + 1]);
            }
            lemma_recolored_validate_highlights(
                from.drop_first(),
                to.drop_first(),
                from[0].offset + from[0].length,
                upper,
            );
        }
    }
}

/// Validation never reads colors, so a recolored chunk run scans exactly as
/// the run it came from.
pub proof fn lemma_recolored_validate_chunks(
    from: Seq<Chunk>,
    to: Seq<Chunk>,
    lower: int,
    upper: int,
)
    requires
        spec_chunks_recolored(from, to),
    ensures
        spec_validate_chunks(to, lower, upper) == spec_validate_chunks(from, lower, upper),
    decreases from.len(),
{
    if from.len() > 0 {
        assert(spec_chunk_recolored(from[0], to[0]));
        assert forall|k: int| 0 <= k < from[0].highlights@.len() implies (#[trigger] to[0].highlights@[k]).name
            == from[0].highlights@[k].name && to[0].highlights@[k].offset
            == from[0].highlights@[k].offset && to[0].highlights@[k].length
            == from[0].highlights@[k].length by {
            assert(to[0].highlights@[k] == (Highlight {
                color: colors::spec_palette_color(k as nat),
                ..from[0].highlights@[k]
            }));
        }
        lemma_recolored_validate_highlights(
            from[0].highlights@,
            to[0].highlights@,
            from[0].offset as int,
            from[0].end(),
        );
        if from[0].length != 0 && !(from[0].offset != lower || from[0].offset + from[0].length
            > upper) {
            assert forall|i: int| 0 <= i < from.len() - 1 implies spec_chunk_recolored(
                from.drop_first()[i],
                #[trigger] to.drop_first()[i],
            ) by {
                assert(to.drop_first()[i] == to[i + 1]);
                assert(from.drop_first()[i] == from[i + 1]);
                assert(spec_chunk_recolored(from[i + 1], to[i + 1]));
            }
            lemma_recolored_validate_chunks(
                from.drop_first(),
                to.drop_first(),
                from[0].end(),
                upper,
            );
        }
    }
}

/// The full annotated view of one buffer: its name, its bytes, and the
/// chunks that tile a prefix of it. The dataset owns both the buffer and
/// the chunk tree.
pub struct Dataset {
    pub name: String,
    pub data: Vec<u8>,
    pub chunks: Vec<Chunk>,
}

impl Dataset {
    /// Where the next appended chunk starts: the end of the last chunk, or
    /// the start of the buffer when no chunk was appended yet.
    pub open spec fn spec_next_offset(self) -> int {
        if self.chunks@.len() == 0 {
            0
        } else {
            self.chunks@.last().end()
        }
    }

    /// What one pass over this dataset's chunks and highlights reports:
    /// `Ok` exactly when the chunks tile a prefix of the buffer without gap
    /// or overlap and every chunk's highlights stay inside it, in ascending
    /// order, without overlap and without zero-length ranges; otherwise the
    /// first violation met in scan order.
    pub open spec fn spec_validate(self) -> Result<(), errors::DataBrushErrors> {
        spec_validate_chunks(self.chunks@, 0, self.data@.len() as int)
    }

    /// One linear pass that holds every chunk against the running lower
    /// bound and the buffer's end, and every highlight against its chunk.
    fn validate(&self) -> (r: Result<(), errors::DataBrushErrors>)
        ensures
            r == self.spec_validate(),
    {
        let upper = self.data.len();
        let mut lower: usize = 0;
        let mut ci: usize = 0;
        proof {
            assert(self.chunks@.skip(0) =~= self.chunks@);
        }
        while ci < self.chunks.len()
            invariant
                0 <= ci <= self.chunks@.len(),
                lower <= upper,
                upper == self.data@.len(),
                self.spec_validate() == spec_validate_chunks(
                    self.chunks@.skip(ci as int),
                    lower as int,
                    upper as int,
                ),
            decreases self.chunks@.len() - ci,
        {
            proof {
                assert(self.chunks@.skip(ci as int)[0] == self.chunks@[ci as int]);
                assert(self.chunks@.skip(ci as int).drop_first() =~= self.chunks@.skip(
                    ci as int + 1,
                ));
            }
            let chunk = &self.chunks[ci];
            if chunk.length == 0 {
                return Err(errors::DataBrushErrors::ChunkSizeZero(chunk.name.clone()));
            }
            if chunk.offset != lower {
                return Err(errors::DataBrushErrors::ChunkOverflow);
            }
            let chunk_end = match chunk.offset.checked_add(chunk.length) {
                Some(e) => e,
                None => {
                    return Err(errors::DataBrushErrors::ChunkOverflow);
                },
            };
            if chunk_end > upper {
                return Err(errors::DataBrushErrors::ChunkOverflow);
            }
            let mut hl_lower: usize = chunk.offset;
            let mut hi: usize = 0;
            proof {
                assert(chunk.highlights@.skip(0) =~= chunk.highlights@);
            }
            while hi < chunk.highlights.len()
                invariant
                    0 <= hi <= chunk.highlights@.len(),
                    chunk.offset <= hl_lower,
                    upper == self.data@.len(),
                    *chunk == self.chunks@[ci as int],
                    0 <= ci < self.chunks@.len(),
                    chunk.length > 0,
                    chunk.offset == lower,
                    chunk_end == chunk.end(),
                    chunk_end <= upper,
                    self.spec_validate() == spec_validate_chunks(
                        self.chunks@.skip(ci as int),
                        lower as int,
                        upper as int,
                    ),
                    spec_validate_highlights(
                        chunk.highlights@.skip(hi as int),
                        hl_lower as int,
                        chunk_end as int,
                    ) == spec_validate_highlights(
                        chunk.highlights@,
                        chunk.offset as int,
                        chunk_end as int,
                    ),
                decreases chunk.highlights@.len() - hi,
            {
                proof {
                    assert(chunk.highlights@.skip(hi as int)[0] == chunk.highlights@[hi as int]);
                    assert(chunk.highlights@.skip(hi as int).drop_first() =~= chunk.highlights@.skip(
                        hi as int + 1,
                    ));
                    assert(self.chunks@.skip(ci as int)[0] == self.chunks@[ci as int]);
                }
                let hl = &chunk.highlights[hi];
                if hl.length == 0 {
                    return Err(errors::DataBrushErrors::HighlightSizeZero(hl.name.clone()));
                }
                if hl.offset < hl_lower {
                    return Err(errors::DataBrushErrors::HighlightOverlap);
                }
                let hl_end = match hl.offset.checked_add(hl.length) {
                    Some(e) => e,
                    None => {
                        return Err(errors::DataBrushErrors::HighlightOverlap);
                    },
                };
                if hl_end > chunk_end {
                    return Err(errors::DataBrushErrors::HighlightOverlap);
                }
                hl_lower = hl_end;
                hi = hi + 1;
            }
            proof {
                assert(chunk.highlights@.skip(chunk.highlights@.len() as int).len() == 0);
                assert(self.chunks@.skip(ci as int)[0] == self.chunks@[ci as int]);
                assert(self.chunks@.skip(ci as int).drop_first() =~= self.chunks@.skip(
                    ci as int + 1,
                ));
            }
            lower = chunk_end;
            ci = ci + 1;
        }
        proof {
            assert(self.chunks@.skip(self.chunks@.len() as int).len() == 0);
        }
        Ok(())
    }

    /// Wraps a buffer into a dataset with no chunks. An empty buffer and one
    /// beyond the size cap are refused.
    pub fn new(set_name: String, data_set: Vec<u8>) -> (r: Result<Dataset, errors::DataBrushErrors>)
        ensures
            match r {
                Ok(d) => {
                    &&& 0 < data_set@.len() <= MAX_FILE_LEN
                    &&& d.name == set_name
                    &&& d.data == data_set
                    &&& d.chunks@ == Seq::<Chunk>::empty()
                },
                Err(e) => match e {
                    errors::DataBrushErrors::EmptyDataset => data_set@.len() == 0,
                    errors::DataBrushErrors::FileTooLarge => data_set@.len() > MAX_FILE_LEN,
                    _ => false,
                },
            },
    {
        if data_set.len() == 0 {
            return Err(errors::DataBrushErrors::EmptyDataset);
        }
        if data_set.len() > MAX_FILE_LEN {
            return Err(errors::DataBrushErrors::FileTooLarge);
        }
        Ok(Dataset { name: set_name, data: data_set, chunks: Vec::new() })
    }

    /// Builds a dataset out of a pre-parsed annotation tree and a byte
    /// buffer: refuses an empty description, an empty buffer and one beyond
    /// the size cap, runs one validation pass, and on success assigns every
    /// highlight the palette color of its rank within its chunk.
    pub fn from_description(template: Dataset, data_set: Vec<u8>) -> (r: Result<
        Dataset,
        errors::DataBrushErrors,
    >)
        ensures
            match r {
                Ok(d) => {
                    &&& template.chunks@.len() > 0
                    &&& 0 < data_set@.len() <= MAX_FILE_LEN
                    &&& spec_validate_chunks(template.chunks@, 0, data_set@.len() as int) is Ok
                    &&& d.spec_validate() is Ok
                    &&& d.name == template.name
                    &&& d.data == data_set
                    &&& spec_chunks_recolored(template.chunks@, d.chunks@)
                },
                Err(e) => {
                    if template.chunks@.len() == 0 {
                        e == errors::DataBrushErrors::EmptyTemplate
                    } else if data_set@.len() == 0 {
                        e == errors::DataBrushErrors::EmptyDataset
                    } else if data_set@.len() > MAX_FILE_LEN {
                        e == errors::DataBrushErrors::FileTooLarge
                    } else {
                        Err::<(), errors::DataBrushErrors>(e) == spec_validate_chunks(
                            template.chunks@,
                            0,
                            data_set@.len() as int,
                        )
                    }
                },
            },
    {
        if template.chunks.len() == 0 {
            return Err(errors::DataBrushErrors::EmptyTemplate);
        }
        if data_set.len() == 0 {
            return Err(errors::DataBrushErrors::EmptyDataset);
        }
        if data_set.len() > MAX_FILE_LEN {
            return Err(errors::DataBrushErrors::FileTooLarge);
        }

        let Dataset { name, data: _, chunks } = template;
        let mut dataset = Dataset { name, data: data_set, chunks };
        match dataset.validate() {
            Err(e) => {
                return Err(e);
            },
            Ok(()) => {},
        }

        let ghost orig = dataset.chunks@;
        let ghost orig_name: String = dataset.name;
        let ghost orig_data: Vec<u8> = dataset.data;
        let mut ci: usize = 0;
        while ci < dataset.chunks.len()
            invariant
                0 <= ci <= dataset.chunks@.len(),
                dataset.chunks@.len() == orig.len(),
                forall|i: int|
                    0 <= i < ci ==> spec_chunk_recolored(orig[i], #[trigger] dataset.chunks@[i]),
                forall|i: int| ci <= i < orig.len() ==> #[trigger] dataset.chunks@[i] == orig[i],
                dataset.name == orig_name,
                dataset.data == orig_data,
            decreases orig.len() - ci,
        {
            let hl_count = dataset.chunks[ci].highlights.len();
            let mut hi: usize = 0;
            while hi < hl_count
                invariant
                    0 <= hi <= hl_count,
                    0 <= ci < dataset.chunks@.len(),
                    dataset.chunks@.len() == orig.len(),
                    dataset.name == orig_name,
                    dataset.data == orig_data,
                    hl_count == dataset.chunks@[ci as int].highlights@.len(),
                    dataset.chunks@[ci as int].highlights@.len() == orig[ci as int].highlights@.len(),
                    dataset.chunks@[ci as int].name == orig[ci as int].name,
                    dataset.chunks@[ci as int].offset == orig[ci as int].offset,
                    dataset.chunks@[ci as int].length == orig[ci as int].length,
                    forall|i: int|
                        0 <= i < ci ==> spec_chunk_recolored(
                            orig[i],
                            #[trigger] dataset.chunks@[i],
                        ),
                    forall|i: int|
                        ci < i < orig.len() ==> #[trigger] dataset.chunks@[i] == orig[i],
                    forall|k: int|
                        0 <= k < hi ==> #[trigger] dataset.chunks@[ci as int].highlights@[k]
                            == (Highlight {
                            color: colors::spec_palette_color(k as nat),
                            ..orig[ci as int].highlights@[k]
                        }),
                    forall|k: int|
                        hi <= k < hl_count ==> #[trigger] dataset.chunks@[ci as int].highlights@[k]
                            == orig[ci as int].highlights@[k],
                decreases hl_count - hi,
            {
                let c = colors::palette_color(hi);
                dataset.chunks[ci].highlights[hi].color = c;
                hi = hi + 1;
            }
            ci = ci + 1;
        }
        proof {
            assert(spec_chunks_recolored(orig, dataset.chunks@));
            lemma_recolored_validate_chunks(
                orig,
                dataset.chunks@,
                0,
                dataset.data@.len() as int,
            );
        }
        Ok(dataset)
    }

    /// Appends a chunk directly after the previously appended one (at the
    /// start of the buffer for the first). A chunk whose end would pass the
    /// end of the buffer is refused; an accepted chunk keeps its highlights,
    /// reordered by ascending offset.
    pub fn add_chunk(&mut self, new_chunk: Chunk) -> (r: Result<(), errors::DataBrushErrors>)
        ensures
            ({
                let start = old(self).spec_next_offset();
                match r {
                    Ok(()) => {
                        &&& start + new_chunk.length <= old(self).data@.len()
                        &&& final(self).name == old(self).name
                        &&& final(self).data == old(self).data
                        &&& final(self).chunks@.len() == old(self).chunks@.len() + 1
                        &&& forall|i: int|
                            0 <= i < old(self).chunks@.len() ==> final(self).chunks@[i] == old(
                                self,
                            ).chunks@[i]
                        &&& final(self).chunks@.last().name == new_chunk.name
                        &&& final(self).chunks@.last().offset == start
                        &&& final(self).chunks@.last().length == new_chunk.length
                        &&& sorted_by_offset(final(self).chunks@.last().highlights@)
                        &&& final(self).chunks@.last().highlights@.to_multiset()
                            == new_chunk.highlights@.to_multiset()
                    },
                    Err(e) => {
                        &&& e == errors::DataBrushErrors::ChunkOverflow
                        &&& start + new_chunk.length > old(self).data@.len()
                        &&& *final(self) == *old(self)
                    },
                }
            }),
    {
        let mut placed = new_chunk;
        let buffer_len = self.data.len();
        let chunk_offset: usize = if self.chunks.len() > 0 {
            let last = &self.chunks[self.chunks.len() - 1];
            match last.offset.checked_add(last.length) {
                Some(last_end) => last_end,
                None => {
                    // the previous chunk already ends past every possible
                    // buffer length, so nothing more fits
                    return Err(errors::DataBrushErrors::ChunkOverflow);
                },
            }
        } else {
            0
        };

        match chunk_offset.checked_add(placed.length) {
            None => Err(errors::DataBrushErrors::ChunkOverflow),
            Some(end) => {
                if end > buffer_len {
                    return Err(errors::DataBrushErrors::ChunkOverflow);
                }
                placed.offset = chunk_offset;
                sort_highlights(&mut placed.highlights);
                self.chunks.push(placed);
                Ok(())
            },
        }
    }

    /// Pushes a chunk as it stands, without placing or checking it.
    #[allow(dead_code)]
    fn _set_chunk(&mut self, new_chunk: Chunk)
        ensures
            final (self).name == old(self).name,
            final (self).data == old(self).data,
            final (self).chunks@ == old(self).chunks@.push(new_chunk),
    {
        self.chunks.push(new_chunk)
    }

    /// Appends one closing chunk that covers whatever the last chunk leaves
    /// of the buffer, under the given name and without highlights.
    #[allow(dead_code)]
    fn _last_chunk(&mut self, last_chunk_name: String)
        requires
            old(self).chunks@.len() > 0,
            old(self).spec_next_offset() <= old(self).data@.len(),
        ensures
            final (self).name == old(self).name,
            final (self).data == old(self).data,
            final (self).chunks@.len() == old(self).chunks@.len() + 1,
            forall|i: int|
                0 <= i < old(self).chunks@.len() ==> final (self).chunks@[i] == old(
                    self,
                ).chunks@[i],
            final (self).chunks@.last().name == last_chunk_name,
            final (self).chunks@.last().offset == old(self).spec_next_offset(),
            final (self).chunks@.last().end() == old(self).data@.len(),
            final (self).chunks@.last().highlights@ == Seq::<Highlight>::empty(),
    {
        let buffer_len = self.data.len();
        let last = &self.chunks[self.chunks.len() - 1];
        let chunk_len = last.length + last.offset;

        self.chunks.push(
            Chunk {
                name: last_chunk_name,
                offset: chunk_len,
                length: buffer_len - chunk_len,
                highlights: Vec::new(),
            },
        );
    }
}

// ---------------------------------------------------------------------------
// what validation means, spelled out over whole runs
// ---------------------------------------------------------------------------
/// The combined length of a run of chunks.
pub open spec fn spec_total_len(chunks: Seq<Chunk>) -> int
    decreases chunks.len(),
{
    if chunks.len() == 0 {
        0
    } else {
        chunks[0].length + spec_total_len(chunks.drop_first())
    }
}

/// One more chunk at the back adds its length to the total.
pub proof fn lemma_total_push(chunks: Seq<Chunk>, c: Chunk)
    ensures
        spec_total_len(chunks.push(c)) == spec_total_len(chunks) + c.length,
    decreases chunks.len(),
{
    if chunks.len() == 0 {
        assert(chunks.push(c)[0] == c);
        assert(chunks.push(c).drop_first() =~= Seq::<Chunk>::empty());
        assert(spec_total_len(chunks.push(c)) == c.length + spec_total_len(
            Seq::<Chunk>::empty(),
        ));
    } else {
        assert(chunks.push(c)[0] == chunks[0]);
        assert(chunks.push(c).drop_first() =~= chunks.drop_first().push(c));
        lemma_total_push(chunks.drop_first(), c);
        assert(spec_total_len(chunks.push(c)) == chunks[0].length + spec_total_len(
            chunks.drop_first().push(c),
        ));
    }
}

/// Chunks tile the band `[lower, upper)` head to tail: the first begins at
/// `lower`, each later one exactly where the one before it ended, none is
/// empty, and none passes `upper`.
pub open spec fn spec_chunks_contiguous(chunks: Seq<Chunk>, lower: int, upper: int) -> bool {
    &&& forall|i: int| 0 <= i < chunks.len() ==> (#[trigger] chunks[i]).length > 0
    &&& forall|i: int| 0 <= i < chunks.len() ==> (#[trigger] chunks[i]).end() <= upper
    &&& chunks.len() > 0 ==> chunks[0].offset == lower
    &&& forall|i: int|
        0 < i < chunks.len() ==> (#[trigger] chunks[i]).offset == chunks[i - 1].end()
}

/// A chunk scan succeeds exactly on contiguous runs whose chunks each carry
/// a well-formed highlight run.
#[verifier::rlimit(60)]
pub proof fn lemma_validate_chunks_iff(chunks: Seq<Chunk>, lower: int, upper: int)
    ensures
        spec_validate_chunks(chunks, lower, upper) is Ok <==> (spec_chunks_contiguous(
            chunks,
            lower,
            upper,
        ) && forall|i: int|
            0 <= i < chunks.len() ==> spec_highlights_wf(
                (#[trigger] chunks[i]).highlights@,
                chunks[i].offset as int,
                chunks[i].end(),
            )),
    decreases chunks.len(),
{
    if chunks.len() > 0 {
        let rest = chunks.drop_first();
        let c = chunks[0];
        lemma_validate_chunks_iff(rest, c.end(), upper);
        lemma_validate_highlights_iff(c.highlights@, c.offset as int, c.end());
        assert(forall|i: int| 0 <= i < rest.len() ==> #[trigger] rest[i] == chunks[i + 1]);
        if spec_validate_chunks(chunks, lower, upper) is Ok {
            assert forall|i: int| 0 <= i < chunks.len() implies (#[trigger] chunks[i]).length > 0
                && chunks[i].end() <= upper && spec_highlights_wf(
                chunks[i].highlights@,
                chunks[i].offset as int,
                chunks[i].end(),
            ) by {
                if i > 0 {
                    assert(rest[i - 1] == chunks[i]);
                    assert(rest[i - 1].length > 0 && rest[i - 1].end() <= upper);
                    assert(spec_highlights_wf(
                        rest[i - 1].highlights@,
                        rest[i - 1].offset as int,
                        rest[i - 1].end(),
                    ));
                }
            }
            assert forall|i: int| 0 < i < chunks.len() implies (#[trigger] chunks[i]).offset
                == chunks[i - 1].end() by {
                if i == 1 {
                    assert(rest.len() > 0);
                    assert(rest[0] == chunks[1]);
                    assert(rest[0].offset == c.end());
                } else {
                    assert(rest[i - 1] == chunks[i]);
                    assert(rest[i - 2] == chunks[i - 1]);
                    assert(rest[i - 1].offset == rest[i - 2].end());
                }
            }
            assert(spec_chunks_contiguous(chunks, lower, upper));
        }
        if spec_chunks_contiguous(chunks, lower, upper) && (forall|i: int|
            0 <= i < chunks.len() ==> spec_highlights_wf(
                (#[trigger] chunks[i]).highlights@,
                chunks[i].offset as int,
                chunks[i].end(),
            )) {
            assert(c.length > 0 && c.offset == lower && c.end() <= upper);
            assert(spec_highlights_wf(c.highlights@, c.offset as int, c.end()));
            assert forall|i: int| 0 <= i < rest.len() implies (#[trigger] rest[i]).length > 0
                && rest[i].end() <= upper && spec_highlights_wf(
                rest[i].highlights@,
                rest[i].offset as int,
                rest[i].end(),
            ) by {
                assert(rest[i] == chunks[i + 1]);
                assert(spec_highlights_wf(
                    chunks[i + 1].highlights@,
                    chunks[i + 1].offset as int,
                    chunks[i + 1].end(),
                ));
            }
            assert(rest.len() > 0 ==> rest[0].offset == c.end()) by {
                if rest.len() > 0 {
                    assert(rest[0] == chunks[1]);
                    assert(chunks[1].offset == chunks[0].end());
                }
            }
            assert forall|i: int| 0 < i < rest.len() implies (#[trigger] rest[i]).offset == rest[i
                - 1].end() by {
                assert(rest[i] == chunks[i + 1]);
                assert(rest[i - 1] == chunks[i]);
                assert(chunks[i + 1].offset == chunks[i].end());
            }
            assert(spec_chunks_contiguous(rest, c.end(), upper));
            assert(spec_validate_chunks(rest, c.end(), upper) is Ok);
            assert(spec_validate_chunks(chunks, lower, upper) is Ok);
        }
    }
}

/// In a run that tiles from the buffer's start, each chunk begins at the
/// combined length of those before it.
pub proof fn lemma_contiguous_offsets(chunks: Seq<Chunk>, i: int)
    requires
        chunks.len() > 0 ==> chunks[0].offset == 0,
        forall|k: int|
            0 < k < chunks.len() ==> (#[trigger] chunks[k]).offset == chunks[k - 1].end(),
        0 <= i < chunks.len(),
    ensures
        chunks[i].offset == spec_total_len(chunks.take(i)),
    decreases i,
{
    if i == 0 {
        assert(chunks.take(0) =~= Seq::<Chunk>::empty());
    } else {
        lemma_contiguous_offsets(chunks, i - 1);
        assert(chunks.take(i - 1).push(chunks[i - 1]) =~= chunks.take(i));
        lemma_total_push(chunks.take(i - 1), chunks[i - 1]);
        assert(chunks[i].offset == chunks[i - 1].end());
    }
}

/// Where the next appended chunk starts is the combined length of every
/// chunk already appended, as long as the chunks tile from the start.
pub proof fn lemma_next_offset_is_total(d: Dataset)
    requires
        d.chunks@.len() > 0 ==> d.chunks@[0].offset == 0,
        forall|k: int|
            0 < k < d.chunks@.len() ==> (#[trigger] d.chunks@[k]).offset == d.chunks@[k - 1].end(),
    ensures
        d.spec_next_offset() == spec_total_len(d.chunks@),
{
    let n = d.chunks@.len() as int;
    if n == 0 {
        assert(spec_total_len(d.chunks@) == 0);
    } else {
        lemma_contiguous_offsets(d.chunks@, n - 1);
        assert(d.chunks@.take(n - 1).push(d.chunks@[n - 1]) =~= d.chunks@);
        lemma_total_push(d.chunks@.take(n - 1), d.chunks@[n - 1]);
    }
}

/// The full-tiling reading of validation. On datasets whose chunks do not
/// stop short of the buffer's end, one validation pass succeeds exactly
/// when the chunks tile `[0, buffer length)` completely, without gap or
/// overlap, and every chunk's highlights lie within it, without overlap and
/// without zero-length ranges. (A dataset whose chunks tile only a shorter
/// prefix of the buffer also validates, so those inputs stand outside this
/// equivalence and are left out by the premise.)
pub proof fn lemma_validate_exact_tiling(d: Dataset)
    requires
        d.spec_validate() is Ok ==> spec_total_len(d.chunks@) == d.data@.len(),
    ensures
        d.spec_validate() is Ok <==> ({
            &&& spec_chunks_contiguous(d.chunks@, 0, d.data@.len() as int)
            &&& spec_total_len(d.chunks@) == d.data@.len()
            &&& forall|i: int|
                0 <= i < d.chunks@.len() ==> spec_highlights_wf(
                    (#[trigger] d.chunks@[i]).highlights@,
                    d.chunks@[i].offset as int,
                    d.chunks@[i].end(),
                )
        }),
{
    lemma_validate_chunks_iff(d.chunks@, 0, d.data@.len() as int);
}

/// How the overlap test sorts the classic cases: strict containment, partial
/// overlap at either edge and an identical range are all refused, while two
/// ranges that merely share a boundary point are not an overlap.
pub proof fn lemma_overlap_cases(a: Highlight, b: Highlight)
    requires
        a.length > 0,
        b.length > 0,
    ensures
        b.offset <= a.offset && a.end() <= b.end() ==> a.spec_overlaps(b),
        a.offset <= b.offset && b.end() <= a.end() ==> a.spec_overlaps(b),
        a.offset < b.offset < a.end() ==> a.spec_overlaps(b),
        a.offset < b.end() <= a.end() ==> a.spec_overlaps(b),
        a.end() == b.offset ==> !a.spec_overlaps(b),
        b.end() == a.offset ==> !a.spec_overlaps(b),
{
}

} // verus!
