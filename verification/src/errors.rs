use vstd::prelude::*;

verus! {

/// Every failure the range model can report. Validation is all-or-nothing:
/// the first violation met in scan order is returned and nothing is kept.
#[derive(Debug, PartialEq, Eq)]
pub enum DataBrushErrors {
    /// The byte buffer handed to the dataset is empty.
    EmptyDataset,
    /// The annotation description handed to the dataset holds nothing.
    EmptyTemplate,
    /// The byte buffer exceeds the fixed size cap.
    FileTooLarge,
    /// The named chunk declares a zero-length range.
    ChunkSizeZero(String),
    /// The named highlight declares a zero-length range.
    HighlightSizeZero(String),
    /// A chunk's range leaves the buffer or breaks contiguity.
    ChunkOverflow,
    /// Two highlights of one chunk overlap, or a highlight leaves its chunk.
    HighlightOverlap,
}

impl DataBrushErrors {
    /// The printable message of each error; the zero-length errors carry
    /// the offending entity's name.
    pub open spec fn spec_message(self) -> Seq<char> {
        match self {
            DataBrushErrors::EmptyDataset => "dataset is empty"@,
            DataBrushErrors::EmptyTemplate => "json template is empty"@,
            DataBrushErrors::FileTooLarge => "file too large"@,
            DataBrushErrors::ChunkSizeZero(n) => "chunk <"@ + n@ + "> size is zero"@,
            DataBrushErrors::HighlightSizeZero(n) => "highlight <"@ + n@ + "> size is zero"@,
            DataBrushErrors::ChunkOverflow => "chunk larger than datasize"@,
            DataBrushErrors::HighlightOverlap => "highlighted regions overlap"@,
        }
    }

    /// Renders the error as its printable message.
    pub fn message(&self) -> (r: String)
        ensures
            r@ == self.spec_message(),
    {
        match self {
            DataBrushErrors::EmptyDataset => String::from_str("dataset is empty"),
            DataBrushErrors::EmptyTemplate => String::from_str("json template is empty"),
            DataBrushErrors::FileTooLarge => String::from_str("file too large"),
            DataBrushErrors::ChunkSizeZero(n) => {
                let mut s = String::from_str("chunk <");
                s.append(n.as_str());
                s.append("> size is zero");
                s
            },
            DataBrushErrors::HighlightSizeZero(n) => {
                let mut s = String::from_str("highlight <");
                s.append(n.as_str());
                s.append("> size is zero");
                s
            },
            DataBrushErrors::ChunkOverflow => String::from_str("chunk larger than datasize"),
            DataBrushErrors::HighlightOverlap => String::from_str(
                "highlighted regions overlap",
            ),
        }
    }
}

} // verus!
